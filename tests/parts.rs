use sliceslice::interior::{eq_run, Interior};
use sliceslice::lanes::Lanes;
use sliceslice::rolling::{byte_sum, rolling_search};
use sliceslice::single::contains_byte;
use sliceslice::kernel::{candidates, scan_blocks, scan_staged};

#[test]
fn bitmask_of_lanes() {
    let mut bytes = [0u8; 32];
    bytes[0] = 0x80;
    bytes[3] = 0xFF;
    bytes[31] = 0x90;
    bytes[5] = 0x7F;
    let lanes = Lanes::<32>::load(&bytes, 0);
    assert_eq!(lanes.to_bitmask(), 0x8000_0009);
    let narrow = Lanes::<16>::load(&bytes, 0);
    assert_eq!(narrow.to_bitmask(), 0x0009);
}

#[test]
fn splat_eq_and() {
    let a = Lanes::<16>::splat(7);
    let b = Lanes::<16>::load(&[7, 1, 7, 7, 0, 0, 0, 0, 0, 0, 0, 0, 0, 0, 0, 7], 0);
    let eq = a.eq_lanes(&b);
    assert_eq!(eq.bytes[0], 0xFF);
    assert_eq!(eq.bytes[1], 0);
    assert_eq!(eq.to_bitmask(), 0b1000_0000_0000_1101);
    assert_eq!(eq.and(&Lanes::<16>::splat(0x0F)).bytes[0], 0x0F);
}

#[test]
fn staged_load_zero_fills() {
    let src = [9u8, 8, 7];
    let lanes = Lanes::<16>::load_staged(&src, 1);
    assert_eq!(lanes.bytes[0], 8);
    assert_eq!(lanes.bytes[1], 7);
    assert!(lanes.bytes[2..].iter().all(|&b| b == 0));
    let full = Lanes::<16>::load_staged(&[5u8; 20], 2);
    assert!(full.bytes.iter().all(|&b| b == 5));
}

#[test]
fn candidate_mask_of_a_block() {
    let hay = b"xabyyabxabzz";
    let first = Lanes::<16>::splat(b'a');
    let last = Lanes::<16>::splat(b'b');
    let block_first = Lanes::<16>::load_staged(hay, 0);
    let block_last = Lanes::<16>::load_staged(hay, 1);
    // Starts 1, 5 and 8 have 'a' there and 'b' right after.
    let mask = candidates(&first, &last, &block_first, &block_last);
    assert_eq!(mask, (1 << 1) | (1 << 5) | (1 << 8));
}

#[test]
fn wrapping_byte_sum() {
    assert_eq!(byte_sum(b""), 0);
    assert_eq!(byte_sum(b"abc"), 97 + 98 + 99);
    assert_eq!(byte_sum(&[0xFF; 1000]), 255_000);
}

#[test]
fn size_class_table() {
    let table = [
        (1, Interior::Skip),
        (2, Interior::Skip),
        (3, Interior::One),
        (4, Interior::Two),
        (5, Interior::Four),
        (6, Interior::Four),
        (7, Interior::Five),
        (8, Interior::Six),
        (9, Interior::Eight),
        (10, Interior::Eight),
        (11, Interior::Nine),
        (12, Interior::Ten),
        (13, Interior::Eleven),
        (14, Interior::Twelve),
        (15, Interior::Generic),
        (1000, Interior::Generic),
    ];
    for (m, class) in table {
        assert_eq!(Interior::for_len(m), class, "m {}", m);
    }
}

#[test]
fn interior_comparison() {
    let needle = b"abcdefghijklmnop";
    for m in 2..=needle.len() {
        let interior = Interior::for_len(m);
        let mut hay = b"__".to_vec();
        hay.extend_from_slice(&needle[..m]);
        hay.extend_from_slice(b"__");
        assert!(interior.compare(&hay, 2, &needle[..m]), "m {}", m);
        if m >= 3 {
            hay[2 + m / 2] = b'!';
            assert!(!interior.compare(&hay, 2, &needle[..m]), "m {}", m);
        }
    }
    assert!(eq_run(b"xyz", 1, b"yz", 0, 2));
    assert!(!eq_run(b"xyz", 0, b"yz", 0, 2));
}

#[test]
fn one_byte_search_from_an_offset() {
    assert!(contains_byte(b"abcabc", 2, b"a"));
    assert!(!contains_byte(b"abcabc", 4, b"a"));
    assert!(!contains_byte(b"abc", 3, b"a"));
    assert!(contains_byte(b"abc", 0, b"c"));
}

#[test]
fn rolling_search_from_an_offset() {
    let sum = byte_sum(b"cab");
    assert!(rolling_search(b"abcabcabc", 0, b"cab", sum));
    assert!(rolling_search(b"abcabcabc", 5, b"cab", sum));
    assert!(!rolling_search(b"abcabcabc", 6, b"cab", sum));
    assert!(!rolling_search(b"ab", 0, b"cab", sum));
}

#[test]
fn block_scan_reports_first_match_or_remainder() {
    let mut hay = vec![b'.'; 100];
    hay[40..44].copy_from_slice(b"wxyz");
    hay[70..74].copy_from_slice(b"wxyz");
    let first = Lanes::<16>::splat(b'w');
    let last = Lanes::<16>::splat(b'z');
    assert_eq!(scan_blocks(&hay, 0, b"wxyz", &first, &last, Interior::Two), (true, 40));
    assert_eq!(scan_blocks(&hay, 50, b"wxyz", &first, &last, Interior::Two), (true, 70));
    // 97 legal starts: six blocks of 16 are scanned, one start remains.
    let (found, next) = scan_blocks(&vec![b'.'; 100], 0, b"wxyz", &first, &last, Interior::Two);
    assert!(!found);
    assert_eq!(next, 96);
    let wide_first = Lanes::<32>::splat(b'w');
    let wide_last = Lanes::<32>::splat(b'z');
    assert!(scan_staged(&hay, b"wxyz", &wide_first, &wide_last, Interior::Two));
    assert!(scan_staged(&hay[..44], b"wxyz", &wide_first, &wide_last, Interior::Two));
    assert!(!scan_staged(&hay[..43], b"wxyz", &wide_first, &wide_last, Interior::Two));
}
