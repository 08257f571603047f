use sliceslice::{
    strstr_avx2_rust_aligned, strstr_avx2_rust_fast, strstr_avx2_rust_fast_2,
    strstr_avx2_rust_simple, strstr_avx2_rust_simple_2, StrStrAVX2Searcher,
};

fn naive(haystack: &[u8], needle: &[u8]) -> bool {
    if needle.len() > haystack.len() {
        return false;
    }
    (0..=haystack.len() - needle.len()).any(|s| &haystack[s..s + needle.len()] == needle)
}

/// Every entry point, one-shot and compiled.
fn all_agree(haystack: &[u8], needle: &[u8]) -> bool {
    let expected = strstr_avx2_rust_fast_2(haystack, needle);
    let others = [
        ("fast", strstr_avx2_rust_fast(haystack, needle)),
        ("simple", strstr_avx2_rust_simple(haystack, needle)),
        ("simple_2", strstr_avx2_rust_simple_2(haystack, needle)),
        ("aligned", strstr_avx2_rust_aligned(haystack, needle)),
        ("searcher", StrStrAVX2Searcher::new(needle).search_in(haystack)),
    ];
    for (name, got) in others {
        assert_eq!(got, expected, "{} on {:?} {:?}", name, haystack, needle);
    }
    expected
}

struct Lcg(u64);

impl Lcg {
    fn next(&mut self) -> u64 {
        self.0 = self.0.wrapping_mul(6364136223846793005).wrapping_add(1442695040888963407);
        self.0 >> 33
    }
}

#[test]
fn test_needle_length_3() {
    let mut input = [0; 32];

    for i in 0..=(input.len() - 3) {
        input = [b'A'; 32];
        input[i..(i + 3)].copy_from_slice(&[b'B'; 3]);
        assert_eq!(
            strstr_avx2_rust_fast_2(&input[..], b"BBB"),
            true,
            "{:?} should contain {:?}",
            &input[..],
            b"BBB"
        );
    }

    let mut input = [0; 63];

    for i in 0..=(input.len() - 3) {
        input = [b'A'; 63];
        input[i..(i + 3)].copy_from_slice(&[b'B'; 3]);
        assert_eq!(
            strstr_avx2_rust_fast_2(&input[..], b"BBB"),
            true,
            "{:?} should contain {:?}",
            &input[..],
            b"BBB"
        );
    }
}

#[test]
fn match_in_the_middle() {
    assert!(all_agree(b"AAAABBBAAAA", b"BBB"));
}

#[test]
fn needle_longer_than_haystack() {
    assert!(!all_agree(b"AAAA", b"AAAAA"));
    assert!(!all_agree(b"", b"A"));
    let long = [b'x'; 40];
    assert!(!all_agree(&long[..39], &long[..]));
}

#[test]
fn empty_needle() {
    assert!(all_agree(b"", b""));
    assert!(all_agree(b"A", b""));
    assert!(all_agree(&[7u8; 100], b""));
}

#[test]
fn overlapping_occurrence() {
    assert!(all_agree(b"abcabcabc", b"cab"));
}

#[test]
fn three_byte_run_in_63_bytes_every_entry_point() {
    for i in 0..=60 {
        let mut input = [b'A'; 63];
        input[i..i + 3].copy_from_slice(b"BBB");
        assert!(all_agree(&input, b"BBB"), "offset {}", i);
    }
}

#[test]
fn one_byte_needle() {
    assert!(all_agree(b"hello", b"o"));
    assert!(all_agree(b"hello", b"h"));
    assert!(!all_agree(b"hello", b"z"));
    assert!(!all_agree(b"", b"z"));
    let mut long = vec![b'a'; 100];
    assert!(!all_agree(&long, b"b"));
    long[99] = b'b';
    assert!(all_agree(&long, b"b"));
}

#[test]
fn boundary_placement_around_block_widths() {
    let lengths = [15usize, 16, 17, 31, 32, 33, 47, 48, 63, 64, 65, 70, 97];
    for &len in &lengths {
        for m in 1..=len.min(20) {
            let needle: Vec<u8> = (0..m).map(|k| b'b' + (k % 7) as u8).collect();
            for s in 0..=len - m {
                let mut hay = vec![b'a'; len];
                hay[s..s + m].copy_from_slice(&needle);
                assert!(all_agree(&hay, &needle), "len {} m {} s {}", len, m, s);
            }
        }
    }
}

#[test]
fn every_size_class() {
    for m in 0..=20usize {
        let needle: Vec<u8> = (0..m).map(|k| b'0' + k as u8).collect();
        for len in [m, m + 1, 16, 31, 32, 33, 64, 100] {
            if len < m {
                continue;
            }
            for s in 0..=len - m {
                let mut hay = vec![b'#'; len];
                hay[s..s + m].copy_from_slice(&needle);
                assert!(all_agree(&hay, &needle), "m {} len {} s {}", m, len, s);
                if m >= 2 {
                    // With one byte changed, the needle is found where the naive search finds it.
                    for k in 0..m {
                        let mut near = needle.clone();
                        near[k] = b'?';
                        assert_eq!(all_agree(&hay, &near), naive(&hay, &near), "m {} k {}", m, k);
                    }
                }
            }
        }
    }
}

#[test]
fn interior_mismatch_with_matching_ends() {
    // Candidates whose first and last bytes match but whose interior does not.
    for m in 3..=20usize {
        let mut needle = vec![b'x'; m];
        needle[m / 2] = b'y';
        let hay = vec![b'x'; 90];
        assert!(!all_agree(&hay, &needle), "m {}", m);
        let mut placed = hay.clone();
        placed[70 + m / 2] = b'y';
        assert!(all_agree(&placed, &needle), "m {}", m);
    }
}

#[test]
fn checksum_collisions_are_resolved() {
    // "ba" and "ab" have the same byte sum.
    assert!(!all_agree(b"ba", b"ab"));
    assert!(!all_agree(b"bababababa", b"aab"));
    assert!(all_agree(b"xxxxxxxxxxxxxxxxxxxxxxxxxxxxxxxxxxxxxxxbaab", b"aab"));
    assert!(!all_agree(b"xxxxxxxxxxxxxxxxxxxxxxxxxxxxxxxxxxxxxxxbaba", b"aabb"));
}

#[test]
fn high_bytes() {
    let hay: Vec<u8> = (0..=255u8).chain(0..=255u8).collect();
    assert!(all_agree(&hay, &[0xFE, 0xFF, 0x00, 0x01]));
    assert!(all_agree(&hay, &[0x80]));
    assert!(!all_agree(&hay, &[0xFF, 0xFE]));
    assert!(all_agree(&[0xFF; 40], &[0xFF; 17]));
    assert!(!all_agree(&[0xFF; 40], &[0xFF, 0x7F]));
}

#[test]
fn zero_bytes_past_the_tail_are_not_matched() {
    // Staged lanes are zero past the end; a needle of zeros must not match there.
    let mut hay = vec![1u8; 33];
    hay[32] = 0;
    assert!(!all_agree(&hay, &[0, 0]));
    assert!(all_agree(&hay, &[1, 0]));
    assert!(!all_agree(&hay, &[0, 0, 0]));
}

#[test]
fn matches_naive_on_random_inputs() {
    let mut rng = Lcg(0x5eed);
    for alphabet in [2u64, 4, 256] {
        for _ in 0..400 {
            let n = (rng.next() % 120) as usize;
            let m = (rng.next() % 20) as usize;
            let hay: Vec<u8> = (0..n).map(|_| (rng.next() % alphabet) as u8 ^ 0x80).collect();
            let mut needle: Vec<u8> =
                (0..m).map(|_| (rng.next() % alphabet) as u8 ^ 0x80).collect();
            if m > 0 && m <= n && rng.next() % 2 == 0 {
                let s = (rng.next() as usize) % (n - m + 1);
                needle.copy_from_slice(&hay[s..s + m]);
            }
            assert_eq!(all_agree(&hay, &needle), naive(&hay, &needle), "{:?} {:?}", hay, needle);
        }
    }
}

#[test]
fn searcher_reuse_matches_one_shot() {
    let needles: [&[u8]; 6] =
        [b"", b"a", b"ab", b"abcab", b"abcdefghijklmn", b"abcdefghijklmnopqrs"];
    let mut rng = Lcg(42);
    let searchers: Vec<StrStrAVX2Searcher> =
        needles.iter().map(|n| StrStrAVX2Searcher::new(n)).collect();
    for round in 0..200 {
        let n = (rng.next() % 90) as usize;
        let hay: Vec<u8> = (0..n).map(|_| b'a' + (rng.next() % 3) as u8).collect();
        for (k, needle) in needles.iter().enumerate() {
            let once = strstr_avx2_rust_fast_2(&hay, needle);
            assert_eq!(searchers[k].search_in(&hay), once, "round {} needle {:?}", round, needle);
            assert_eq!(searchers[k].search_in(&hay), once);
        }
    }
}

#[test]
fn long_needle_with_remainder_of_needle_length_minus_one() {
    // Whole wide blocks leave a remainder shorter than the needle.
    for m in 17..=40usize {
        for n in m..m + 70 {
            let hay = vec![b'q'; n];
            let mut needle = vec![b'q'; m];
            assert!(all_agree(&hay, &needle), "m {} n {}", m, n);
            needle[0] = b'r';
            assert!(!all_agree(&hay, &needle), "m {} n {}", m, n);
        }
    }
}
