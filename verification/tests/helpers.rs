use txlsh::consts::{TOPVAL, TOPVAL_LEN, V_TABLE};
use txlsh::helper::{
    bit_distance, bit_pairs_diff, hash_len, l_capturing, mod_diff, BUCKET_SIZE, WINDOW_SIZE,
};
use txlsh::{BucketKind, ChecksumKind, TxLshError, Version};

#[test]
fn counts_of_the_kinds() {
    assert_eq!(BucketKind::Bucket128.bucket_count(), 128);
    assert_eq!(BucketKind::Bucket256.bucket_count(), 256);
    assert_eq!(ChecksumKind::OneByte.checksum_len(), 1);
    assert_eq!(ChecksumKind::ThreeByte.checksum_len(), 3);
    assert_eq!(BUCKET_SIZE, 256);
    assert_eq!(WINDOW_SIZE, 5);
}

#[test]
fn prefixes_of_the_versions() {
    assert_eq!(Version::Original.ver(), "");
    assert_eq!(Version::Version4.ver(), "T1");
    assert_eq!(Version::TxLshV1.ver(), "X1");
}

#[test]
fn lengths_of_the_texts() {
    let (small, large) = (BucketKind::Bucket128, BucketKind::Bucket256);
    let (one, three) = (ChecksumKind::OneByte, ChecksumKind::ThreeByte);
    let (first, current, txlsh_v1) =
        (Version::Original, Version::Version4, Version::TxLshV1);
    assert_eq!(hash_len(small, one, first), 70);
    assert_eq!(hash_len(small, one, current), 72);
    assert_eq!(hash_len(small, one, txlsh_v1), 72);
    assert_eq!(hash_len(small, three, first), 74);
    assert_eq!(hash_len(small, three, current), 76);
    assert_eq!(hash_len(small, three, txlsh_v1), 76);
    assert_eq!(hash_len(large, one, first), 134);
    assert_eq!(hash_len(large, one, current), 136);
    assert_eq!(hash_len(large, one, txlsh_v1), 136);
    assert_eq!(hash_len(large, three, first), 138);
    assert_eq!(hash_len(large, three, current), 140);
    assert_eq!(hash_len(large, three, txlsh_v1), 140);
}

#[test]
fn tables_are_whole() {
    let mut seen = [false; 256];
    for entry in V_TABLE {
        assert!(!seen[entry as usize]);
        seen[entry as usize] = true;
    }
    assert_eq!(TOPVAL.len(), TOPVAL_LEN);
    for at in 1..TOPVAL.len() {
        assert!(TOPVAL[at - 1] < TOPVAL[at]);
    }
    assert_eq!(TOPVAL[0], 1);
    assert_eq!(TOPVAL[15], 656);
    assert_eq!(TOPVAL[169], 4224281216);
}

#[test]
fn length_codes_at_the_thresholds() {
    assert_eq!(l_capturing(0), Ok(0));
    assert_eq!(l_capturing(1), Ok(0));
    assert_eq!(l_capturing(2), Ok(1));
    assert_eq!(l_capturing(3), Ok(2));
    assert_eq!(l_capturing(4), Ok(3));
    assert_eq!(l_capturing(5), Ok(3));
    assert_eq!(l_capturing(6), Ok(4));
    assert_eq!(l_capturing(50), Ok(9));
    assert_eq!(l_capturing(437), Ok(14));
    assert_eq!(l_capturing(438), Ok(15));
    assert_eq!(l_capturing(445), Ok(15));
    assert_eq!(l_capturing(656), Ok(15));
    assert_eq!(l_capturing(657), Ok(16));
    assert_eq!(l_capturing(1024), Ok(17));
    for at in 0..TOPVAL.len() {
        let top = TOPVAL[at] as usize;
        assert_eq!(l_capturing(top), Ok(at));
        if at + 1 < TOPVAL.len() {
            assert_eq!(l_capturing(top + 1), Ok(at + 1));
        }
    }
}

#[test]
fn length_codes_grow_with_the_length() {
    let mut last = 0;
    let mut len = 1usize;
    while len < 4_000_000_000 {
        let code = l_capturing(len).unwrap();
        assert!(code >= last);
        last = code;
        len = len + len / 3 + 1;
    }
}

#[test]
fn a_stream_beyond_the_table_is_refused() {
    assert_eq!(l_capturing(4224281216), Ok(169));
    assert_eq!(l_capturing(4224281217), Err(TxLshError::DataLenOverflow));
    assert_eq!(l_capturing(usize::MAX), Err(TxLshError::DataLenOverflow));
}

#[test]
fn distance_on_a_circle() {
    assert_eq!(mod_diff(0, 0, 256), 0);
    assert_eq!(mod_diff(3, 250, 256), 9);
    assert_eq!(mod_diff(250, 3, 256), 9);
    assert_eq!(mod_diff(0, 128, 256), 128);
    assert_eq!(mod_diff(0, 129, 256), 127);
    assert_eq!(mod_diff(255, 0, 256), 1);
    assert_eq!(mod_diff(0, 15, 16), 1);
    assert_eq!(mod_diff(4, 12, 16), 8);
    assert_eq!(mod_diff(4, 13, 16), 7);
    assert_eq!(mod_diff(7, 5, 16), 2);
    for x in 0..16 {
        for y in 0..16 {
            let direct = if x > y { x - y } else { y - x };
            assert_eq!(mod_diff(x, y, 16), direct.min(16 - direct));
            assert_eq!(mod_diff(x, y, 16), mod_diff(y, x, 16));
        }
    }
}

#[test]
fn distance_of_code_bytes() {
    assert_eq!(bit_pairs_diff(0, 0), 0);
    assert_eq!(bit_pairs_diff(0, 1), 1);
    assert_eq!(bit_pairs_diff(0, 2), 2);
    assert_eq!(bit_pairs_diff(0, 3), 6);
    assert_eq!(bit_pairs_diff(3, 0), 6);
    assert_eq!(bit_pairs_diff(1, 3), 2);
    assert_eq!(bit_pairs_diff(0, 4), 1);
    assert_eq!(bit_pairs_diff(0, 12), 6);
    assert_eq!(bit_pairs_diff(0, 48), 6);
    assert_eq!(bit_pairs_diff(0, 192), 6);
    assert_eq!(bit_pairs_diff(0, 255), 24);
    assert_eq!(bit_pairs_diff(0x1B, 0xE4), 6 + 1 + 1 + 6);
    assert_eq!(bit_pairs_diff(0x55, 0xAA), 4);
}

#[test]
fn distance_of_code_bytes_is_the_same_both_ways() {
    for row in 0..256usize {
        for col in 0..256usize {
            let there = bit_pairs_diff(row, col);
            assert_eq!(there, bit_pairs_diff(col, row));
            assert_eq!(there == 0, row == col);
            assert!(there <= 24);
            let mut expected = 0;
            for digit in 0..4 {
                let a = (row >> (2 * digit)) & 3;
                let b = (col >> (2 * digit)) & 3;
                let apart = if a > b { a - b } else { b - a };
                expected += if apart == 3 { 6 } else { apart };
            }
            assert_eq!(there, expected);
        }
    }
}

#[test]
fn distance_of_code_sequences() {
    assert_eq!(bit_distance(&[], &[]), 0);
    assert_eq!(bit_distance(&[], &[1, 2, 3]), 0);
    assert_eq!(bit_distance(&[0], &[3]), 6);
    assert_eq!(bit_distance(&[0, 0, 0], &[1, 2, 3]), 9);
    assert_eq!(bit_distance(&[0, 0], &[1, 2, 3]), 3);
    assert_eq!(bit_distance(&[0xFF; 64], &[0x00; 64]), 64 * 24);
    assert_eq!(bit_distance(&[7, 8, 9], &[7, 8, 9]), 0);
}

#[test]
fn messages_of_the_errors() {
    assert_eq!(
        TxLshError::DataLenOverflow.message(),
        "Input file is too big. Maximal file size is 4GB."
    );
    assert_eq!(TxLshError::InvalidHashValue.message(), "Can't parse hash string");
    assert_eq!(
        TxLshError::MinSizeNotReached.message(),
        "TLSH requires an input of at least 50 bytes."
    );
    assert_eq!(TxLshError::ParseHexFailed.message(), "Can't convert hex string to integer");
    assert_eq!(
        TxLshError::NoValidHash.message(),
        "No valid hash could be computed. See https://github.com/trendmicro/tlsh/issues/79"
    );
}
