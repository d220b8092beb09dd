use std::str::FromStr;
use txlsh::{BucketKind, ChecksumKind, TxLsh, TxLshBuilder, TxLshError, Version};

static LOREM: &[u8] = b"Lorem ipsum dolor sit amet, consectetur adipiscing elit, sed do eiusmod tempor incididunt ut labore et dolore magna aliqua. Ut enim ad minim veniam, quis nostrud exercitation ullamco laboris nisi ut aliquip ex ea commodo consequat. Duis aute irure dolor in reprehenderit in voluptate velit esse cillum dolore eu fugiat nulla pariatur. Excepteur sint occaecat cupidatat non proident, sunt in culpa qui officia deserunt mollit anim id est laborum.";

fn digest_of(data: &[u8], bucket: BucketKind, checksum: ChecksumKind, ver: Version) -> TxLsh {
    let mut builder = TxLshBuilder::new(bucket, checksum, ver);
    builder.update(data);
    builder.build().unwrap()
}

#[test]
fn text_of_each_tlsh_configuration_is_read_back() {
    for bucket in [BucketKind::Bucket128, BucketKind::Bucket256] {
        for checksum in [ChecksumKind::OneByte, ChecksumKind::ThreeByte] {
            for ver in [Version::Original, Version::Version4] {
                let digest = digest_of(LOREM, bucket, checksum, ver);
                let text = digest.hash();
                assert_eq!(TxLsh::from_str(&text), Ok(digest.clone()));
                assert_eq!(text.parse::<TxLsh>(), Ok(digest));
            }
        }
    }
}

#[test]
fn text_in_the_txlsh_format_is_read_as_tlsh() {
    let digest = digest_of(LOREM, BucketKind::Bucket256, ChecksumKind::ThreeByte, Version::TxLshV1);
    let text = digest.hash();
    assert!(text.starts_with("X1"));
    let read = TxLsh::from_str(&text).unwrap();
    assert_ne!(read, digest);
    let again = read.hash();
    assert!(again.starts_with("T1"));
    assert_eq!(again[2..], text[2..]);
}

#[test]
fn text_has_the_length_of_its_configuration() {
    let lengths = [70, 72, 72, 74, 76, 76, 134, 136, 136, 138, 140, 140];
    let mut at = 0;
    for bucket in [BucketKind::Bucket128, BucketKind::Bucket256] {
        for checksum in [ChecksumKind::OneByte, ChecksumKind::ThreeByte] {
            for ver in [Version::Original, Version::Version4, Version::TxLshV1] {
                let text = digest_of(LOREM, bucket, checksum, ver).hash();
                assert_eq!(text.len(), lengths[at]);
                assert_eq!(text.len(), txlsh::helper::hash_len(bucket, checksum, ver));
                at += 1;
            }
        }
    }
}

#[test]
fn text_of_other_configurations() {
    assert_eq!(
        digest_of(LOREM, BucketKind::Bucket128, ChecksumKind::OneByte, Version::Original).hash(),
        "DCF0DC36520C1B007FD32079B226559FD998A0200725E75AFCEAC99F5881184A4B1AA2"
    );
    assert_eq!(
        digest_of(LOREM, BucketKind::Bucket128, ChecksumKind::ThreeByte, Version::Version4).hash(),
        "T1DC33D4F0DC36520C1B007FD32079B226559FD998A0200725E75AFCEAC99F5881184A4B1AA2"
    );
    assert_eq!(
        digest_of(LOREM, BucketKind::Bucket256, ChecksumKind::OneByte, Version::Original).hash(),
        "DCF0DCA405C02AF1D4860CA5894A05301D60E9915198060A7044C608A1E89A11BD2B2836520C1B007FD32079B226559FD998A0200725E75AFCEAC99F5881184A4B1AA2"
    );
}

#[test]
fn text_of_a_stream_of_1024_bytes() {
    let ramp: Vec<u8> = (0..1024u32).map(|i| ((i * 7 + 3) % 256) as u8).collect();
    assert_eq!(
        digest_of(&ramp, BucketKind::Bucket128, ChecksumKind::OneByte, Version::Version4).hash(),
        "T19411953E00A63DF7D144A14C92F36575FB30450AEF5C77D0115B447D4D14C55043D217"
    );
    assert_eq!(
        digest_of(&ramp, BucketKind::Bucket128, ChecksumKind::ThreeByte, Version::Original).hash(),
        "9453F611953E00A63DF7D144A14C92F36575FB30450AEF5C77D0115B447D4D14C55043D217"
    );
    assert_eq!(
        digest_of(&ramp, BucketKind::Bucket256, ChecksumKind::OneByte, Version::Version4).hash(),
        "T194112B1122459491141666421B501ADEC435B22BCA54D675D885B74BDD6A28AF9901643E00A62DF6D144A14C92E26575BB30450AEB5C67D0115B446D4D14C55042D216"
    );
    assert_eq!(
        digest_of(&ramp, BucketKind::Bucket256, ChecksumKind::ThreeByte, Version::Original).hash(),
        "9453F6112B1122459491141666421B501ADEC435B22BCA54D675D885B74BDD6A28AF9901643E00A62DF6D144A14C92E26575BB30450AEB5C67D0115B446D4D14C55042D216"
    );
}

#[test]
fn reading_swaps_the_digits_of_checksum_and_length() {
    // checksum 0xCD, length code 0x0F, ratios 13 and 12
    let text = "T1DCF0DC36520C1B007FD32079B226559FD998A0200725E75AFCEAC99F5881184A4B1AA2";
    let read = TxLsh::from_str(text).unwrap();
    assert_eq!(read.hash(), text);
    // the same digest with another length code only: 0x1F written as F1
    let other = "T1DCF1DC36520C1B007FD32079B226559FD998A0200725E75AFCEAC99F5881184A4B1AA2";
    let other = TxLsh::from_str(other).unwrap();
    assert_eq!(read.diff(&other, false), 0);
    assert_eq!(read.diff(&other, true), 16 * 12);
}

#[test]
fn reading_takes_digits_of_either_case() {
    let upper = "T1DCF0DC36520C1B007FD32079B226559FD998A0200725E75AFCEAC99F5881184A4B1AA2";
    let lower = "T1dcf0dc36520c1b007fd32079b226559fd998a0200725e75afceac99f5881184a4b1aa2";
    assert_eq!(TxLsh::from_str(lower), TxLsh::from_str(upper));
    assert_eq!(TxLsh::from_str(lower).unwrap().hash(), upper);
}

#[test]
fn reading_does_not_look_at_the_prefix() {
    let text = "T1DCF0DC36520C1B007FD32079B226559FD998A0200725E75AFCEAC99F5881184A4B1AA2";
    let odd = "??DCF0DC36520C1B007FD32079B226559FD998A0200725E75AFCEAC99F5881184A4B1AA2";
    assert_eq!(TxLsh::from_str(odd), TxLsh::from_str(text));
}

#[test]
fn reading_refuses_a_text_of_no_configuration() {
    assert_eq!(TxLsh::from_str(""), Err(TxLshError::InvalidHashValue));
    assert_eq!(TxLsh::from_str("T1"), Err(TxLshError::InvalidHashValue));
    let text = "T1DCF0DC36520C1B007FD32079B226559FD998A0200725E75AFCEAC99F5881184A4B1AA2";
    assert_eq!(TxLsh::from_str(&text[..71]), Err(TxLshError::InvalidHashValue));
    assert_eq!(TxLsh::from_str(&format!("{}0", text)), Err(TxLshError::InvalidHashValue));
    for len in 0..200usize {
        let zeros = "0".repeat(len);
        let known = [70, 72, 74, 76, 134, 136, 138, 140].contains(&len);
        assert_eq!(TxLsh::from_str(&zeros).is_ok(), known);
        if !known {
            assert_eq!(TxLsh::from_str(&zeros), Err(TxLshError::InvalidHashValue));
        }
    }
}

#[test]
fn reading_refuses_what_is_not_hexadecimal() {
    let text = "T1DCF0DC36520C1B007FD32079B226559FD998A0200725E75AFCEAC99F5881184A4B1AA2";
    for at in 2..text.len() {
        for bad in ["G", "g", " ", "+", "-", "/", ":", "@", "`", "x"] {
            let mut broken = String::from(&text[..at]);
            broken.push_str(bad);
            broken.push_str(&text[at + 1..]);
            assert_eq!(TxLsh::from_str(&broken), Err(TxLshError::ParseHexFailed));
        }
    }
}

#[test]
fn reading_refuses_bytes_beyond_ascii() {
    // 70 bytes, of which two make one character
    let text = format!("{}\u{e9}", "0".repeat(68));
    assert_eq!(text.len(), 70);
    assert_eq!(TxLsh::from_str(&text), Err(TxLshError::ParseHexFailed));
}

#[test]
fn reading_bytes_is_reading_text() {
    let text = "T1DCF0DC36520C1B007FD32079B226559FD998A0200725E75AFCEAC99F5881184A4B1AA2";
    assert_eq!(TxLsh::from_bytes(text.as_bytes()), TxLsh::from_str(text));
    assert_eq!(TxLsh::from_bytes(b"zz"), Err(TxLshError::InvalidHashValue));
}

#[test]
fn reading_the_smallest_and_the_largest_fields() {
    let zeros = "0".repeat(70);
    let digest = TxLsh::from_str(&zeros).unwrap();
    assert_eq!(digest.hash(), zeros);
    let effs = "F".repeat(140);
    let digest = TxLsh::from_str(&effs).unwrap();
    // a text of 140 characters is matched with the TLSH format
    assert_eq!(digest.hash(), format!("T1{}", "F".repeat(138)));
}

#[test]
fn a_copy_of_a_digest_is_the_digest() {
    let digest = digest_of(LOREM, BucketKind::Bucket256, ChecksumKind::ThreeByte, Version::Version4);
    let copy = digest.clone();
    assert_eq!(copy, digest);
    assert_eq!(copy.hash(), digest.hash());
    assert_eq!(copy.diff(&digest, true), 0);
}
