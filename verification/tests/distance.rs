use std::str::FromStr;
use txlsh::helper::{bit_distance, bit_pairs_diff};
use txlsh::{BitPairsTable, BucketKind, ChecksumKind, TxLsh, TxLshBuilder, Version};

static LOREM: &[u8] = b"Lorem ipsum dolor sit amet, consectetur adipiscing elit, sed do eiusmod tempor incididunt ut labore et dolore magna aliqua. Ut enim ad minim veniam, quis nostrud exercitation ullamco laboris nisi ut aliquip ex ea commodo consequat. Duis aute irure dolor in reprehenderit in voluptate velit esse cillum dolore eu fugiat nulla pariatur. Excepteur sint occaecat cupidatat non proident, sunt in culpa qui officia deserunt mollit anim id est laborum.";

fn small(data: &[u8]) -> TxLsh {
    let mut builder =
        TxLshBuilder::new(BucketKind::Bucket128, ChecksumKind::OneByte, Version::Version4);
    builder.update(data);
    builder.build().unwrap()
}

fn ramp() -> Vec<u8> {
    (0..1024u32).map(|i| ((i * 7 + 3) % 256) as u8).collect()
}

/// A digest of the format without a prefix, with one checksum byte and 128 buckets,
/// whose codes are all zero but the last, which is written first.
fn plain(checksum: &str, len: &str, ratios: &str, first_code: &str) -> TxLsh {
    let text = format!("{}{}{}{}{}", checksum, len, ratios, first_code, "0".repeat(62));
    TxLsh::from_str(&text).unwrap()
}

#[test]
fn distance_to_itself_is_zero() {
    for digest in [small(LOREM), small(&LOREM[..200]), small(&ramp())] {
        assert_eq!(digest.diff(&digest, true), 0);
        assert_eq!(digest.diff(&digest, false), 0);
    }
}

#[test]
fn distance_is_the_same_both_ways() {
    let digests = [small(LOREM), small(&LOREM[..200]), small(&LOREM[..100]), small(&ramp())];
    for a in &digests {
        for b in &digests {
            assert_eq!(a.diff(b, true), b.diff(a, true));
            assert_eq!(a.diff(b, false), b.diff(a, false));
        }
    }
}

#[test]
fn distance_between_streams() {
    let a = small(LOREM);
    let b = small(&LOREM[..200]);
    let c = small(&ramp());
    let d = small(&LOREM[..100]);
    assert_eq!(a.diff(&b, true), 219);
    assert_eq!(a.diff(&b, false), 195);
    assert_eq!(a.diff(&c, true), 333);
    assert_eq!(a.diff(&c, false), 309);
    assert_eq!(b.diff(&c, true), 342);
    assert_eq!(b.diff(&c, false), 294);
    assert_eq!(a.diff(&d, true), 259);
    assert_eq!(a.diff(&d, false), 211);
    assert_eq!(b.diff(&d, true), 108);
    assert_eq!(b.diff(&d, false), 84);
}

#[test]
fn distance_between_similar_streams_is_small() {
    let text = String::from_utf8(LOREM.to_vec()).unwrap();
    let changed = text.replace("dolor", "color");
    let a = small(LOREM);
    let e = small(changed.as_bytes());
    assert_eq!(
        e.hash(),
        "T149F0DC32D20C0B006FE32078B266D5CFD998A0210B05E75AFCAAC98F5441180E4B1A62"
    );
    assert_eq!(a.diff(&e, true), 24);
    assert_eq!(a.diff(&e, false), 24);

    let mut full = TxLshBuilder::new(BucketKind::Bucket256, ChecksumKind::ThreeByte, Version::Version4);
    full.update(LOREM);
    let f = full.build().unwrap();
    full.reset();
    full.update(changed.as_bytes());
    let g = full.build().unwrap();
    assert_eq!(f.diff(&g, true), 43);
    assert_eq!(g.diff(&f, false), 43);
}

#[test]
fn distance_of_length_codes() {
    let base = plain("00", "00", "00", "00");
    // the length code is written with the digit of its lower half first
    assert_eq!(base.diff(&plain("00", "10", "00", "00"), true), 1);
    assert_eq!(base.diff(&plain("00", "20", "00", "00"), true), 24);
    assert_eq!(base.diff(&plain("00", "50", "00", "00"), true), 60);
    assert_eq!(base.diff(&plain("00", "08", "00", "00"), true), 128 * 12);
    assert_eq!(base.diff(&plain("00", "18", "00", "00"), true), 127 * 12);
    assert_eq!(base.diff(&plain("00", "FF", "00", "00"), true), 1);
    assert_eq!(base.diff(&plain("00", "EF", "00", "00"), true), 24);
    assert_eq!(base.diff(&plain("00", "FF", "00", "00"), false), 0);
    assert_eq!(base.diff(&plain("00", "50", "00", "00"), false), 0);
}

#[test]
fn distance_of_ratios() {
    let base = plain("00", "00", "00", "00");
    assert_eq!(base.diff(&plain("00", "00", "10", "00"), true), 1);
    assert_eq!(base.diff(&plain("00", "00", "20", "00"), true), 12);
    assert_eq!(base.diff(&plain("00", "00", "30", "00"), true), 24);
    assert_eq!(base.diff(&plain("00", "00", "80", "00"), true), 84);
    assert_eq!(base.diff(&plain("00", "00", "90", "00"), true), 72);
    assert_eq!(base.diff(&plain("00", "00", "F0", "00"), true), 1);
    assert_eq!(base.diff(&plain("00", "00", "01", "00"), true), 1);
    assert_eq!(base.diff(&plain("00", "00", "03", "00"), true), 24);
    assert_eq!(base.diff(&plain("00", "00", "0F", "00"), true), 1);
    assert_eq!(base.diff(&plain("00", "00", "33", "00"), false), 48);
    assert_eq!(plain("00", "00", "E1", "00").diff(&plain("00", "00", "1E", "00"), false), 48);
}

#[test]
fn distance_of_checksums() {
    let base = plain("00", "00", "00", "00");
    assert_eq!(base.diff(&plain("01", "00", "00", "00"), true), 1);
    assert_eq!(base.diff(&plain("FF", "00", "00", "00"), false), 1);
    let three = |checksum: &str| {
        TxLsh::from_str(&format!("{}{}", checksum, "0".repeat(68))).unwrap()
    };
    let zero = three("000000");
    assert_eq!(zero.diff(&three("000000"), true), 0);
    assert_eq!(zero.diff(&three("100000"), true), 1);
    assert_eq!(zero.diff(&three("000001"), true), 1);
    assert_eq!(zero.diff(&three("FFFFFF"), true), 1);
}

#[test]
fn distance_of_codes() {
    let base = plain("00", "00", "00", "00");
    assert_eq!(base.diff(&plain("00", "00", "00", "01"), true), 1);
    assert_eq!(base.diff(&plain("00", "00", "00", "02"), true), 2);
    assert_eq!(base.diff(&plain("00", "00", "00", "03"), true), 6);
    assert_eq!(base.diff(&plain("00", "00", "00", "0C"), true), 6);
    assert_eq!(base.diff(&plain("00", "00", "00", "FF"), true), 24);
    assert_eq!(base.diff(&plain("00", "00", "00", "1B"), true), 0 + 1 + 2 + 6);
    assert_eq!(plain("00", "00", "00", "55").diff(&plain("00", "00", "00", "AA"), true), 4);
    let all = TxLsh::from_str(&format!("000000{}", "F".repeat(64))).unwrap();
    assert_eq!(base.diff(&all, true), 32 * 24);
    assert_eq!(all.diff(&base, false), 32 * 24);
}

#[test]
fn distance_adds_up() {
    let a = plain("12", "00", "00", "00");
    let b = plain("13", "50", "3F", "03");
    assert_eq!(a.diff(&b, true), 60 + 24 + 1 + 1 + 6);
    assert_eq!(a.diff(&b, false), 24 + 1 + 1 + 6);
    assert_eq!(b.diff(&a, true), 60 + 24 + 1 + 1 + 6);
}

#[test]
fn distance_to_a_digest_with_more_buckets() {
    let short = TxLsh::from_str(&"0".repeat(70)).unwrap();
    let long = TxLsh::from_str(&format!("000000{}{}", "F".repeat(64), "0".repeat(64))).unwrap();
    // the codes are compared from the first on, which is written last
    assert_eq!(short.diff(&long, true), 0);
    let long = TxLsh::from_str(&format!("000000{}{}", "0".repeat(64), "F".repeat(64))).unwrap();
    assert_eq!(short.diff(&long, true), 32 * 24);
}

#[test]
fn table_holds_the_distance_of_each_pair() {
    let table = BitPairsTable::new();
    for row in 0..=255u8 {
        for col in 0..=255u8 {
            assert_eq!(table.get(row, col), bit_pairs_diff(row as usize, col as usize));
            assert_eq!(table.get(row, col), table.get(col, row));
        }
        assert_eq!(table.get(row, row), 0);
    }
    assert_eq!(table.get(0, 3), 6);
    assert_eq!(table.get(0x1B, 0xE4), 14);
    assert_eq!(table.get(0, 255), 24);
}

#[test]
fn table_gives_the_distance_of_code_sequences() {
    let table = BitPairsTable::new();
    let x: Vec<u8> = (0..64u32).map(|i| (i * 37 + 11) as u8).collect();
    let y: Vec<u8> = (0..64u32).map(|i| (i * 101 + 5) as u8).collect();
    assert_eq!(table.bit_distance(&x, &y), bit_distance(&x, &y));
    assert_eq!(table.bit_distance(&x[..10], &y), bit_distance(&x[..10], &y));
    assert_eq!(table.bit_distance(&[], &y), 0);
    assert_eq!(table.bit_distance(&[0, 0, 0], &[1, 2, 3]), 9);
}

#[test]
fn distance_read_from_the_table() {
    let table = BitPairsTable::new();
    let digests = [small(LOREM), small(&LOREM[..200]), small(&LOREM[..100]), small(&ramp())];
    for a in &digests {
        for b in &digests {
            assert_eq!(a.diff_with_table(b, true, &table), a.diff(b, true));
            assert_eq!(a.diff_with_table(b, false, &table), a.diff(b, false));
        }
    }
    assert_eq!(digests[0].diff_with_table(&digests[1], true, &table), 219);
    assert_eq!(digests[0].diff_with_table(&digests[3], false, &table), 309);
}

#[test]
fn digests_that_can_be_compared() {
    let short_one = TxLsh::from_str(&"0".repeat(70)).unwrap();
    let short_three = TxLsh::from_str(&"0".repeat(74)).unwrap();
    let long_one = TxLsh::from_str(&"0".repeat(134)).unwrap();
    let long_three = TxLsh::from_str(&"0".repeat(138)).unwrap();
    for digest in [&short_one, &short_three, &long_one, &long_three] {
        assert!(digest.comparable_with(digest));
    }
    assert!(short_one.comparable_with(&short_three));
    assert!(short_one.comparable_with(&long_one));
    assert!(short_one.comparable_with(&long_three));
    assert!(short_three.comparable_with(&long_three));
    assert!(long_one.comparable_with(&long_three));
    // fewer code bytes on the other side
    assert!(!long_one.comparable_with(&short_one));
    assert!(!long_three.comparable_with(&short_three));
    assert!(!long_three.comparable_with(&short_one));
    // fewer checksum bytes on the other side, and none that differs
    assert!(!short_three.comparable_with(&short_one));
    assert!(!long_three.comparable_with(&long_one));
    // fewer checksum bytes on the other side, of which the first differs
    let other = TxLsh::from_str(&format!("10{}", "0".repeat(68))).unwrap();
    assert!(short_three.comparable_with(&other));
    assert_eq!(short_three.diff(&other, true), 1);
    assert_eq!(other.diff(&short_three, true), 1);
}
