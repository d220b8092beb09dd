//! The digest and its builder.

use vstd::prelude::*;
use crate::error::TxLshError;
use crate::hash_funcs::{hasher, spec_hasher};
use crate::quartile::{find_quartiles, spec_find_quartiles};
use crate::helper::{
    bit_distance, hash_len, l_capturing, lemma_bit_distance_bounds, mod_diff, spec_bit_distance,
    spec_hash_len, spec_l_capturing, spec_mod_diff, BitPairsTable, BucketKind, ChecksumKind,
    Version, BUCKET_SIZE, WINDOW_SIZE,
};
use crate::hex::{hex_char, hex_digit, hex_pair, hex_value, push_hex};
use vstd::string::{StringExecFns, StringSliceAdditionalSpecFns};

verus! {

/// What a digest holds, as mathematical values.
pub struct DigestModel {
    pub bucket_kind: BucketKind,
    pub checksum_kind: ChecksumKind,
    pub ver: Version,
    /// The checksum bytes.
    pub checksum: Seq<u8>,
    /// The length code: a coarse measure of the length of the stream.
    pub len: int,
    /// The first quartile as a share of the third, modulo 16.
    pub q1ratio: int,
    /// The second quartile as a share of the third, modulo 16.
    pub q2ratio: int,
    /// The code bytes, each for four buckets.
    pub codes: Seq<u8>,
}

impl DigestModel {
    /// The values fit the configuration and the widths of the text format.
    pub open spec fn wf(self) -> bool {
        &&& self.checksum.len() == self.checksum_kind.spec_checksum_len()
        &&& self.codes.len() == self.bucket_kind.spec_bucket_count() / 4
        &&& 0 <= self.len < 256
        &&& 0 <= self.q1ratio < 16
        &&& 0 <= self.q2ratio < 16
    }
}

/// The two digits of a byte, the digit of the lower half first.
pub open spec fn byte_text_reversed(byte: int) -> Seq<char> {
    seq![hex_char(byte % 16), hex_char(byte / 16)]
}

/// The text of the checksum bytes: the bytes in their order, the two digits
/// of each with the digit of the lower half first.
pub open spec fn checksum_text(checksum: Seq<u8>) -> Seq<char> {
    Seq::new(
        2 * checksum.len(),
        |i: int|
            if i % 2 == 0 {
                hex_char(checksum[i / 2] as int % 16)
            } else {
                hex_char(checksum[i / 2] as int / 16)
            },
    )
}

/// The text of the code bytes: the bytes from the last to the first, the two
/// digits of each with the digit of the higher half first.
pub open spec fn codes_text(codes: Seq<u8>) -> Seq<char> {
    Seq::new(
        2 * codes.len(),
        |i: int|
            if i % 2 == 0 {
                hex_char(codes[codes.len() - 1 - i / 2] as int / 16)
            } else {
                hex_char(codes[codes.len() - 1 - i / 2] as int % 16)
            },
    )
}

/// The text of a digest: the prefix of the version, the checksum, the length
/// code with the digit of its lower half first, the digits of the two
/// ratios, and the codes.
pub open spec fn digest_text(digest: DigestModel) -> Seq<char> {
    digest.ver.spec_ver() + checksum_text(digest.checksum) + byte_text_reversed(digest.len)
        + seq![hex_char(digest.q1ratio), hex_char(digest.q2ratio)] + codes_text(digest.codes)
}

/// What a difference of two length codes adds to the distance.
pub open spec fn length_distance(difference: int) -> int {
    if difference <= 1 {
        difference
    } else {
        difference * 12
    }
}

/// What a difference of two ratios adds to the distance.
pub open spec fn ratio_distance(difference: int) -> int {
    if difference <= 1 {
        difference
    } else {
        (difference - 1) * 12
    }
}

/// The two checksums differ at a position that both have.
pub open spec fn checksums_differ(a: Seq<u8>, b: Seq<u8>) -> bool {
    exists|i: int| 0 <= i < a.len() && i < b.len() && a[i] != b[i]
}

/// The distance between two digests. The length codes count only where
/// `with_len` is set.
pub open spec fn spec_diff(a: DigestModel, b: DigestModel, with_len: bool) -> int {
    (if with_len {
        length_distance(spec_mod_diff(a.len, b.len, 256))
    } else {
        0
    }) + ratio_distance(spec_mod_diff(a.q1ratio, b.q1ratio, 16)) + ratio_distance(
        spec_mod_diff(a.q2ratio, b.q2ratio, 16),
    ) + (if checksums_differ(a.checksum, b.checksum) {
        1int
    } else {
        0int
    }) + spec_bit_distance(a.codes, b.codes)
}

/// The digest `a` can be compared with `b`: `b` has a code byte for each of
/// `a`, and either a checksum byte for each of `a` or one that differs.
pub open spec fn comparable(a: DigestModel, b: DigestModel) -> bool {
    &&& a.codes.len() <= b.codes.len()
    &&& a.checksum.len() <= b.checksum.len() || checksums_differ(a.checksum, b.checksum)
}

/// The configuration at a position of the order in which a text is matched
/// against the configurations: by bucket kind, then by checksum kind, then
/// by version.
pub open spec fn config_at(index: int) -> (BucketKind, ChecksumKind, Version) {
    (
        if index / 6 == 0 {
            BucketKind::Bucket128
        } else {
            BucketKind::Bucket256
        },
        if (index / 3) % 2 == 0 {
            ChecksumKind::OneByte
        } else {
            ChecksumKind::ThreeByte
        },
        if index % 3 == 0 {
            Version::Original
        } else if index % 3 == 1 {
            Version::Version4
        } else {
            Version::TxLshV1
        },
    )
}

/// The position of the first configuration from `from` on whose text has
/// `len` characters, or 12 when there is none.
pub open spec fn first_config(len: int, from: int) -> int
    decreases 12 - from,
{
    if from < 0 || from >= 12 {
        12
    } else if spec_hash_len(config_at(from).0, config_at(from).1, config_at(from).2) == len {
        from
    } else {
        first_config(len, from + 1)
    }
}

/// The digest that the digits of a text stand for. The text has the length
/// of the configuration, and all that follows the prefix is hexadecimal.
pub open spec fn decoded(
    bytes: Seq<u8>,
    bucket_kind: BucketKind,
    checksum_kind: ChecksumKind,
    ver: Version,
) -> DigestModel {
    let body = bytes.skip(ver.spec_ver().len() as int);
    let checksum_len = checksum_kind.spec_checksum_len();
    let code_size = bucket_kind.spec_bucket_count() / 4;
    let tail = body.skip(2 * checksum_len + 4);
    DigestModel {
        bucket_kind,
        checksum_kind,
        ver,
        checksum: Seq::new(
            checksum_len as nat,
            |i: int| (16 * hex_digit(body[2 * i + 1]) + hex_digit(body[2 * i])) as u8,
        ),
        len: 16 * hex_digit(body[2 * checksum_len + 1]) + hex_digit(body[2 * checksum_len]),
        q1ratio: hex_digit(body[2 * checksum_len + 2]),
        q2ratio: hex_digit(body[2 * checksum_len + 3]),
        codes: Seq::new(
            code_size as nat,
            |i: int|
                (16 * hex_digit(tail[2 * (code_size - 1 - i)]) + hex_digit(
                    tail[2 * (code_size - 1 - i) + 1],
                )) as u8,
        ),
    }
}

/// All of `bytes` from `start` on are hexadecimal digits.
pub open spec fn hex_from(bytes: Seq<u8>, start: int) -> bool {
    forall|i: int| start <= i < bytes.len() ==> hex_value(#[trigger] bytes[i]).is_some()
}

/// What reading a text gives. The length of the text picks the first
/// configuration that has it; a text of another length is refused. What
/// follows the prefix has to be hexadecimal.
pub open spec fn spec_parse(bytes: Seq<u8>) -> Result<DigestModel, TxLshError> {
    let index = first_config(bytes.len() as int, 0);
    if index >= 12 {
        Err(TxLshError::InvalidHashValue)
    } else {
        let (bucket_kind, checksum_kind, ver) = config_at(index);
        if hex_from(bytes, ver.spec_ver().len() as int) {
            Ok(decoded(bytes, bucket_kind, checksum_kind, ver))
        } else {
            Err(TxLshError::ParseHexFailed)
        }
    }
}

/// The configuration at a position of the order of matching.
fn config_of(index: usize) -> (config: (BucketKind, ChecksumKind, Version))
    requires
        index < 12,
    ensures
        config == config_at(index as int),
{
    let bucket_kind = if index / 6 == 0 {
        BucketKind::Bucket128
    } else {
        BucketKind::Bucket256
    };
    let checksum_kind = if (index / 3) % 2 == 0 {
        ChecksumKind::OneByte
    } else {
        ChecksumKind::ThreeByte
    };
    let ver = if index % 3 == 0 {
        Version::Original
    } else if index % 3 == 1 {
        Version::Version4
    } else {
        Version::TxLshV1
    };
    (bucket_kind, checksum_kind, ver)
}

/// Tells whether the text of the configuration at `index` has `len`
/// characters.
fn config_has_len(index: usize, len: usize) -> (has: bool)
    requires
        index < 12,
    ensures
        has == (spec_hash_len(
            config_at(index as int).0,
            config_at(index as int).1,
            config_at(index as int).2,
        ) == len),
{
    let (bucket_kind, checksum_kind, ver) = config_of(index);
    len == hash_len(bucket_kind, checksum_kind, ver)
}

/// No configuration from `from` up to `index` has a text of `len`
/// characters, and the one at `index`, if there is one, has: then `index` is
/// where the search from `from` ends.
proof fn lemma_first_config(len: int, from: int, index: int)
    requires
        0 <= from <= index <= 12,
        forall|j: int|
            from <= j < index ==> spec_hash_len(config_at(j).0, config_at(j).1, config_at(j).2)
                != len,
        index < 12 ==> spec_hash_len(config_at(index).0, config_at(index).1, config_at(index).2)
            == len,
    ensures
        first_config(len, from) == index,
    decreases index - from,
{
    if from < index {
        lemma_first_config(len, from + 1, index);
    }
}

/// A digest: what is kept of a stream to tell how similar it is to another.
///
/// A digest comes from [`TxLshBuilder::build`] or is read from its text.
#[derive(Debug, PartialEq, Eq, Hash)]
pub struct TxLsh {
    bucket_kind: BucketKind,
    checksum_kind: ChecksumKind,
    ver: Version,
    checksum: Vec<u8>,
    len: usize,
    q1ratio: usize,
    q2ratio: usize,
    codes: Vec<u8>,
}

impl View for TxLsh {
    type V = DigestModel;

    closed spec fn view(&self) -> DigestModel {
        DigestModel {
            bucket_kind: self.bucket_kind,
            checksum_kind: self.checksum_kind,
            ver: self.ver,
            checksum: self.checksum@,
            len: self.len as int,
            q1ratio: self.q1ratio as int,
            q2ratio: self.q2ratio as int,
            codes: self.codes@,
        }
    }
}

impl Clone for TxLsh {
    fn clone(&self) -> (copy: Self)
        ensures
            copy@ == self@,
    {
        proof {
            use_type_invariant(self);
        }
        let checksum = self.checksum.clone();
        let codes = self.codes.clone();
        assert(checksum@ =~= self.checksum@);
        assert(codes@ =~= self.codes@);
        TxLsh {
            bucket_kind: self.bucket_kind,
            checksum_kind: self.checksum_kind,
            ver: self.ver,
            checksum,
            len: self.len,
            q1ratio: self.q1ratio,
            q2ratio: self.q2ratio,
            codes,
        }
    }
}

impl core::str::FromStr for TxLsh {
    type Err = TxLshError;

    /// Reads a digest from its text.
    fn from_str(s: &str) -> (digest: Result<Self, TxLshError>)
        ensures
            match digest {
                Ok(d) => spec_parse(s.spec_bytes()) == Ok::<DigestModel, TxLshError>(d@) && d@.wf(),
                Err(e) => spec_parse(s.spec_bytes()) == Err::<DigestModel, TxLshError>(e),
            },
    {
        TxLsh::from_bytes(s.as_bytes())
    }
}

impl TxLsh {
    #[verifier::type_invariant]
    closed spec fn inv(&self) -> bool {
        self@.wf()
    }

    /// Writes the digest as text.
    pub fn hash(&self) -> (text: String)
        ensures
            text@ == digest_text(self@),
            self@.wf(),
    {
        proof {
            use_type_invariant(self);
        }
        let mut result = String::new();
        result.append(self.ver.ver());
        let ghost prefix = result@;

        let mut ii: usize = 0;
        while ii < self.checksum.len()
            invariant
                ii <= self.checksum@.len(),
                result@ == prefix + checksum_text(self.checksum@).take(2 * ii),
            decreases self.checksum@.len() - ii,
        {
            let byte: u8 = self.checksum[ii];
            push_hex(&mut result, byte % 16);
            push_hex(&mut result, byte / 16);
            ii += 1;
            assert(result@ =~= prefix + checksum_text(self.checksum@).take(2 * ii));
        }
        assert(checksum_text(self.checksum@).take(2 * ii) =~= checksum_text(self.checksum@));
        let len: u8 = self.len as u8;
        push_hex(&mut result, len % 16);
        push_hex(&mut result, len / 16);
        push_hex(&mut result, self.q1ratio as u8);
        push_hex(&mut result, self.q2ratio as u8);
        let ghost head = result@;
        assert(head =~= prefix + checksum_text(self.checksum@) + byte_text_reversed(self.len as int)
            + seq![hex_char(self.q1ratio as int), hex_char(self.q2ratio as int)]);

        let len: usize = self.codes.len();
        let mut ii: usize = 0;
        while ii < len
            invariant
                ii <= len == self.codes@.len(),
                result@ == head + codes_text(self.codes@).take(2 * ii),
            decreases len - ii,
        {
            let byte: u8 = self.codes[len - 1 - ii];
            push_hex(&mut result, byte / 16);
            push_hex(&mut result, byte % 16);
            ii += 1;
            assert(result@ =~= head + codes_text(self.codes@).take(2 * ii));
        }
        assert(codes_text(self.codes@).take(2 * ii) =~= codes_text(self.codes@));
        result
    }

    /// Reads a digest from the bytes of its text. The length of the text
    /// tells the configuration; the prefix is not looked at. A text in the
    /// TxLsh format is as long as one in the current TLSH format and is read
    /// as one of those.
    pub fn from_bytes(bytes: &[u8]) -> (digest: Result<TxLsh, TxLshError>)
        ensures
            match digest {
                Ok(d) => spec_parse(bytes@) == Ok::<DigestModel, TxLshError>(d@) && d@.wf(),
                Err(e) => spec_parse(bytes@) == Err::<DigestModel, TxLshError>(e),
            },
    {
        let total: usize = bytes.len();
        let mut index: usize = 0;
        while index < 12 && !config_has_len(index, total)
            invariant
                index <= 12,
                forall|j: int|
                    0 <= j < index ==> spec_hash_len(
                        config_at(j).0,
                        config_at(j).1,
                        config_at(j).2,
                    ) != total,
            decreases 12 - index,
        {
            index += 1;
        }
        proof {
            lemma_first_config(total as int, 0, index as int);
        }
        if index >= 12 {
            return Err(TxLshError::InvalidHashValue);
        }
        let (bucket_kind, checksum_kind, ver) = config_of(index);
        let start: usize = ver.ver().unicode_len();
        let checksum_len: usize = checksum_kind.checksum_len();
        let code_size: usize = bucket_kind.bucket_count() / 4;
        let ghost body = bytes@.skip(start as int);
        let ghost model = decoded(bytes@, bucket_kind, checksum_kind, ver);
        let mut offset: usize = start;

        let mut checksum: Vec<u8> = vec![0; checksum_len];
        let mut codes: Vec<u8> = vec![0; code_size];

        let mut ii: usize = 0;
        while ii < checksum_len
            invariant
                ii <= checksum_len == checksum@.len(),
                offset == start + 2 * ii,
                total == start + 2 * checksum_len + 4 + 2 * code_size,
                total == bytes@.len(),
                body == bytes@.skip(start as int),
                model.checksum.len() == checksum_len,
                forall|i: int| 0 <= i < ii ==> checksum@[i] == model.checksum[i],
                forall|i: int| start <= i < offset ==> hex_value(bytes@[i]).is_some(),
                !hex_from(bytes@, start as int) ==> spec_parse(bytes@) == Err::<
                    DigestModel,
                    TxLshError,
                >(TxLshError::ParseHexFailed),
                forall|i: int|
                    0 <= i < checksum_len ==> model.checksum[i] == (16 * hex_digit(body[2 * i + 1])
                        + hex_digit(body[2 * i])) as u8,
            decreases checksum_len - ii,
        {
            assert(body[2 * ii] == bytes@[offset as int]);
            assert(body[2 * ii + 1] == bytes@[offset + 1]);
            match hex_pair(bytes[offset + 1], bytes[offset]) {
                Some(byte) => {
                    checksum[ii] = byte;
                },
                None => {
                    assert(hex_value(bytes@[offset as int]).is_none() || hex_value(
                        bytes@[offset + 1],
                    ).is_none());
                    return Err(TxLshError::ParseHexFailed);
                },
            }
            offset += 2;
            ii += 1;
        }
        assert(body[2 * checksum_len] == bytes@[offset as int]);
        assert(body[2 * checksum_len + 1] == bytes@[offset + 1]);
        assert(body[2 * checksum_len + 2] == bytes@[offset + 2]);
        assert(body[2 * checksum_len + 3] == bytes@[offset + 3]);
        let len: usize = match hex_pair(bytes[offset + 1], bytes[offset]) {
            Some(byte) => byte as usize,
            None => {
                return Err(TxLshError::ParseHexFailed);
            },
        };
        offset += 2;
        let qratio: usize = match hex_pair(bytes[offset], bytes[offset + 1]) {
            Some(byte) => byte as usize,
            None => {
                return Err(TxLshError::ParseHexFailed);
            },
        };
        offset += 2;

        let ghost tail = body.skip(2 * checksum_len + 4);
        let mut ii: usize = 0;
        while ii < code_size
            invariant
                ii <= code_size == codes@.len(),
                offset == start + 2 * checksum_len + 4 + 2 * ii,
                total == start + 2 * checksum_len + 4 + 2 * code_size,
                total == bytes@.len(),
                tail == bytes@.skip(start as int).skip(2 * checksum_len + 4),
                model.codes.len() == code_size,
                forall|i: int| code_size - ii <= i < code_size ==> codes@[i] == model.codes[i],
                forall|i: int| start <= i < offset ==> hex_value(bytes@[i]).is_some(),
                !hex_from(bytes@, start as int) ==> spec_parse(bytes@) == Err::<
                    DigestModel,
                    TxLshError,
                >(TxLshError::ParseHexFailed),
                forall|i: int|
                    0 <= i < code_size ==> model.codes[i] == (16 * hex_digit(
                        tail[2 * (code_size - 1 - i)],
                    ) + hex_digit(tail[2 * (code_size - 1 - i) + 1])) as u8,
            decreases code_size - ii,
        {
            assert(tail[2 * ii] == bytes@[offset as int]);
            assert(tail[2 * ii + 1] == bytes@[offset + 1]);
            match hex_pair(bytes[offset], bytes[offset + 1]) {
                Some(byte) => {
                    assert(byte == model.codes[code_size - 1 - ii]);
                    codes[code_size - ii - 1] = byte;
                },
                None => {
                    assert(hex_value(bytes@[offset as int]).is_none() || hex_value(
                        bytes@[offset + 1],
                    ).is_none());
                    return Err(TxLshError::ParseHexFailed);
                },
            }
            offset += 2;
            ii += 1;
        }
        assert(codes@ =~= model.codes);
        assert(checksum@ =~= model.checksum);
        Ok(
            TxLsh {
                bucket_kind,
                checksum_kind,
                ver,
                checksum,
                len,
                q1ratio: qratio / 16,
                q2ratio: qratio % 16,
                codes,
            },
        )
    }

    /// Tells whether this digest can be compared with `other`, as
    /// [`TxLsh::diff`] asks.
    pub fn comparable_with(&self, other: &TxLsh) -> (ok: bool)
        ensures
            ok == comparable(self@, other@),
    {
        if self.codes.len() > other.codes.len() {
            return false;
        }
        if self.checksum.len() <= other.checksum.len() {
            return true;
        }
        let mut ii: usize = 0;
        while ii < other.checksum.len()
            invariant
                self.codes@.len() <= other.codes@.len(),
                ii <= other.checksum@.len() < self.checksum@.len(),
                forall|i: int| 0 <= i < ii ==> self.checksum@[i] == other.checksum@[i],
            decreases other.checksum@.len() - ii,
        {
            if self.checksum[ii] != other.checksum[ii] {
                assert(0 <= ii < self.checksum@.len() && ii < other.checksum@.len()
                    && self.checksum@[ii as int] != other.checksum@[ii as int]);
                return true;
            }
            ii += 1;
        }
        false
    }

    /// Computes what the length codes, the ratios and the checksums add to
    /// the distance between this digest and `other`.
    #[verifier::rlimit(40)]
    fn fields_diff(&self, other: &TxLsh, with_len: bool) -> (distance: usize)
        requires
            comparable(self@, other@),
        ensures
            distance + spec_bit_distance(self@.codes, other@.codes) == spec_diff(
                self@,
                other@,
                with_len,
            ),
            distance <= 128 * 12 + 2 * 7 * 12 + 1,
    {
        proof {
            use_type_invariant(self);
            use_type_invariant(other);
        }
        let mut result: usize = 0;
        if with_len {
            let x = mod_diff(self.len, other.len, 256);
            result = if x <= 1 {
                x
            } else {
                x * 12
            };
        }
        let x = mod_diff(self.q1ratio, other.q1ratio, 16);
        result += if x <= 1 {
            x
        } else {
            (x - 1) * 12
        };
        let x = mod_diff(self.q2ratio, other.q2ratio, 16);
        result += if x <= 1 {
            x
        } else {
            (x - 1) * 12
        };

        let mut ii: usize = 0;
        let mut differ: bool = false;
        while ii < self.checksum.len() && !differ
            invariant
                ii <= self.checksum@.len(),
                !differ ==> ii <= other.checksum@.len(),
                !differ ==> forall|i: int| 0 <= i < ii ==> self.checksum@[i] == other.checksum@[i],
                differ ==> checksums_differ(self.checksum@, other.checksum@),
                comparable(self@, other@),
            decreases self.checksum@.len() - ii + if differ { 0int } else { 1int },
        {
            assert(ii < other.checksum@.len()) by {
                if ii >= other.checksum@.len() {
                    let w = choose|i: int|
                        0 <= i < self.checksum@.len() && i < other.checksum@.len()
                            && self.checksum@[i] != other.checksum@[i];
                    assert(self.checksum@[w] == other.checksum@[w]);
                }
            }
            if self.checksum[ii] != other.checksum[ii] {
                differ = true;
            } else {
                ii += 1;
            }
        }
        if differ {
            result += 1;
        }
        result
    }

    /// Computes the distance between this digest and `other`. The length
    /// codes count only where `with_len` is set.
    ///
    /// The digests are compared field by field, the checksums and the codes
    /// position by position over the positions of this digest. So `other`
    /// has to be [`comparable`]: two digests of one configuration always
    /// are.
    pub fn diff(&self, other: &TxLsh, with_len: bool) -> (distance: usize)
        requires
            comparable(self@, other@),
        ensures
            distance == spec_diff(self@, other@, with_len),
    {
        proof {
            use_type_invariant(self);
            use_type_invariant(other);
            lemma_bit_distance_bounds(self.codes@, other.codes@, self.codes@.len());
        }
        let fields = self.fields_diff(other, with_len);
        fields + bit_distance(self.codes.as_slice(), other.codes.as_slice())
    }

    /// Computes the distance between this digest and `other` as
    /// [`TxLsh::diff`] does, but reads the distances of the code bytes from
    /// a table.
    pub fn diff_with_table(&self, other: &TxLsh, with_len: bool, table: &BitPairsTable) -> (distance:
        usize)
        requires
            comparable(self@, other@),
        ensures
            distance == spec_diff(self@, other@, with_len),
    {
        proof {
            use_type_invariant(self);
            use_type_invariant(other);
            lemma_bit_distance_bounds(self.codes@, other.codes@, self.codes@.len());
        }
        let fields = self.fields_diff(other, with_len);
        fields + table.bit_distance(self.codes.as_slice(), other.codes.as_slice())
    }
}

/// What a builder holds, as mathematical values.
pub struct BuilderModel {
    pub bucket_kind: BucketKind,
    pub checksum_kind: ChecksumKind,
    pub ver: Version,
    /// The histogram: 256 counters of 32 bits, which wrap around.
    pub buckets: Seq<u32>,
    /// The checksum bytes.
    pub checksum: Seq<u8>,
    /// The last four bytes of the stream, the newest first. Where the stream
    /// is shorter, zeros stand for the bytes that are missing.
    pub window: Seq<u8>,
    /// The number of bytes of the stream.
    pub data_len: nat,
}

impl BuilderModel {
    /// The values have the sizes that the configuration gives them.
    pub open spec fn wf(self) -> bool {
        &&& self.buckets.len() == 256
        &&& self.checksum.len() == self.checksum_kind.spec_checksum_len()
        &&& self.window.len() == 4
    }
}

/// A builder that has consumed nothing.
pub open spec fn fresh(bucket_kind: BucketKind, checksum_kind: ChecksumKind, ver: Version)
    -> BuilderModel {
    BuilderModel {
        bucket_kind,
        checksum_kind,
        ver,
        buckets: Seq::new(256, |i: int| 0u32),
        checksum: Seq::new(checksum_kind.spec_checksum_len() as nat, |i: int| 0u8),
        window: Seq::new(4, |i: int| 0u8),
        data_len: 0,
    }
}

/// The histogram with the counter at `slot` one higher. A counter at its
/// maximum goes back to zero.
pub open spec fn bumped(buckets: Seq<u32>, slot: u8) -> Seq<u32> {
    buckets.update(
        slot as int,
        if buckets[slot as int] == u32::MAX {
            0u32
        } else {
            (buckets[slot as int] + 1) as u32
        },
    )
}

/// The histogram after a byte: six triplets of the byte and the window are
/// hashed, each with a salt of its own, and each hash is counted.
pub open spec fn counted(buckets: Seq<u32>, newest: u8, window: Seq<u8>, ver: Version) -> Seq<u32> {
    let b1 = bumped(buckets, spec_hasher(2, newest, window[0], window[1], ver));
    let b2 = bumped(b1, spec_hasher(3, newest, window[0], window[2], ver));
    let b3 = bumped(b2, spec_hasher(5, newest, window[1], window[2], ver));
    let b4 = bumped(b3, spec_hasher(7, newest, window[1], window[3], ver));
    let b5 = bumped(b4, spec_hasher(11, newest, window[0], window[3], ver));
    bumped(b5, spec_hasher(13, newest, window[2], window[3], ver))
}

/// The checksum byte at `index` after a byte: the hash of the newest two
/// bytes of the stream and the checksum byte before, salted with zero for
/// the first checksum byte and with the new checksum byte in front of it
/// for the others.
pub open spec fn chained(checksum: Seq<u8>, newest: u8, previous: u8, ver: Version, index: int)
    -> u8
    decreases index,
{
    if index <= 0 {
        spec_hasher(0, newest, previous, checksum[0], ver)
    } else {
        spec_hasher(
            chained(checksum, newest, previous, ver, index - 1),
            newest,
            previous,
            checksum[index],
            ver,
        )
    }
}

/// The checksum after a byte.
pub open spec fn checked(checksum: Seq<u8>, newest: u8, previous: u8, ver: Version) -> Seq<u8> {
    Seq::new(checksum.len(), |index: int| chained(checksum, newest, previous, ver, index))
}

/// The builder after one more byte. The first four bytes of a stream only
/// fill the window.
pub open spec fn spec_update_byte(builder: BuilderModel, newest: u8) -> BuilderModel {
    BuilderModel {
        buckets: if builder.data_len >= 4 {
            counted(builder.buckets, newest, builder.window, builder.ver)
        } else {
            builder.buckets
        },
        checksum: if builder.data_len >= 4 {
            checked(builder.checksum, newest, builder.window[0], builder.ver)
        } else {
            builder.checksum
        },
        window: seq![newest, builder.window[0], builder.window[1], builder.window[2]],
        data_len: builder.data_len + 1,
        ..builder
    }
}

/// The builder after the bytes of `data`, in their order.
pub open spec fn spec_update(builder: BuilderModel, data: Seq<u8>) -> BuilderModel
    decreases data.len(),
{
    if data.len() == 0 {
        builder
    } else {
        spec_update_byte(spec_update(builder, data.drop_last()), data.last())
    }
}

/// The `len` bytes of `data` from `offset` on.
pub open spec fn spec_chunk(data: Seq<u8>, offset: int, len: int) -> Seq<u8> {
    if len == 0 {
        Seq::empty()
    } else {
        data.subrange(offset, offset + len)
    }
}

/// The code of a counter: how many of the three quartiles are below it.
pub open spec fn spec_symbol(count: u32, q1: u32, q2: u32, q3: u32) -> int {
    if q3 < count {
        3
    } else if q2 < count {
        2
    } else if q1 < count {
        1
    } else {
        0
    }
}

/// The code byte at `index`: the codes of four counters in a row, the first
/// in the lowest two bits.
pub open spec fn spec_code(buckets: Seq<u32>, index: int, q1: u32, q2: u32, q3: u32) -> u8 {
    (spec_symbol(buckets[4 * index], q1, q2, q3) + 4 * spec_symbol(buckets[4 * index + 1], q1, q2, q3)
        + 16 * spec_symbol(buckets[4 * index + 2], q1, q2, q3) + 64 * spec_symbol(
        buckets[4 * index + 3],
        q1,
        q2,
        q3,
    )) as u8
}

/// The worth of the code of the counter at `place` of four in a code byte.
spec fn spec_weight(place: int) -> int {
    if place <= 0 {
        1
    } else if place == 1 {
        4
    } else if place == 2 {
        16
    } else {
        64
    }
}

/// The sum of the codes of the first `places` counters of the four of the
/// code byte at `index`, each times its worth.
spec fn spec_code_upto(buckets: Seq<u32>, index: int, places: int, q1: u32, q2: u32, q3: u32) -> int
    decreases places,
{
    if places <= 0 {
        0
    } else {
        spec_code_upto(buckets, index, places - 1, q1, q2, q3) + spec_weight(places - 1)
            * spec_symbol(buckets[4 * index + places - 1], q1, q2, q3)
    }
}

/// Computes the code of a counter.
fn symbol(count: u32, q1: u32, q2: u32, q3: u32) -> (code: u8)
    ensures
        code == spec_symbol(count, q1, q2, q3),
{
    if q3 < count {
        3
    } else if q2 < count {
        2
    } else if q1 < count {
        1
    } else {
        0
    }
}

/// A quartile as a share of the third, in hundredths, modulo 16.
pub open spec fn spec_ratio(q: u32, q3: u32) -> int {
    (q * 100 / (q3 as int)) % 16
}

/// What finalizing a builder gives. A stream of fewer than 50 bytes is
/// refused, and so are a histogram whose third quartile is zero and a
/// stream that is longer than the length table covers.
pub open spec fn spec_build(builder: BuilderModel) -> Result<DigestModel, TxLshError> {
    let bucket_count = builder.bucket_kind.spec_bucket_count();
    let (q1, q2, q3) = spec_find_quartiles(builder.buckets, bucket_count);
    if builder.data_len < 50 {
        Err(TxLshError::MinSizeNotReached)
    } else if q3 == 0 {
        Err(TxLshError::NoValidHash)
    } else {
        match spec_l_capturing(builder.data_len as int) {
            None => Err(TxLshError::DataLenOverflow),
            Some(code) => Ok(
                DigestModel {
                    bucket_kind: builder.bucket_kind,
                    checksum_kind: builder.checksum_kind,
                    ver: builder.ver,
                    checksum: builder.checksum,
                    len: code,
                    q1ratio: spec_ratio(q1, q3),
                    q2ratio: spec_ratio(q2, q3),
                    codes: Seq::new(
                        (bucket_count / 4) as nat,
                        |index: int| spec_code(builder.buckets, index, q1, q2, q3),
                    ),
                },
            ),
        }
    }
}

/// Counts a hash in the histogram.
fn bump(buckets: &mut [u32; BUCKET_SIZE], slot: u8)
    ensures
        final(buckets)@ == bumped(old(buckets)@, slot),
    no_unwind
{
    let count: u32 = buckets[slot as usize];
    buckets[slot as usize] = if count == u32::MAX {
        0
    } else {
        count + 1
    };
    assert(buckets@ =~= bumped(old(buckets)@, slot));
}

/// Consumes a stream in chunks and finalizes it into digests.
#[derive(Debug, PartialEq, Eq, Hash)]
pub struct TxLshBuilder {
    bucket_kind: BucketKind,
    checksum_kind: ChecksumKind,
    buckets: [u32; BUCKET_SIZE],
    bucket_count: usize,
    checksum: u8,
    checksum_array: Vec<u8>,
    checksum_len: usize,
    code_size: usize,
    data_len: usize,
    slide_window: [u8; WINDOW_SIZE],
    ver: Version,
}

impl View for TxLshBuilder {
    type V = BuilderModel;

    closed spec fn view(&self) -> BuilderModel {
        self.model_at(self.data_len as nat)
    }
}

impl Clone for TxLshBuilder {
    fn clone(&self) -> (copy: Self)
        ensures
            copy@ == self@,
    {
        proof {
            use_type_invariant(self);
        }
        let checksum_array = self.checksum_array.clone();
        assert(checksum_array@ =~= self.checksum_array@);
        let copy = TxLshBuilder {
            bucket_kind: self.bucket_kind,
            checksum_kind: self.checksum_kind,
            buckets: self.buckets,
            bucket_count: self.bucket_count,
            checksum: self.checksum,
            checksum_array,
            checksum_len: self.checksum_len,
            code_size: self.code_size,
            data_len: self.data_len,
            slide_window: self.slide_window,
            ver: self.ver,
        };
        assert(copy@.checksum =~= self@.checksum);
        assert(copy@.window =~= self@.window);
        copy
    }
}

impl TxLshBuilder {
    #[verifier::type_invariant]
    closed spec fn inv(&self) -> bool {
        &&& self.bucket_count == self.bucket_kind.spec_bucket_count()
        &&& self.checksum_len == self.checksum_kind.spec_checksum_len()
        &&& self.code_size == self.bucket_count / 4
        &&& self.checksum_array@.len() == self.checksum_len
    }

    /// The model of a builder whose fields are those of this one and which
    /// has consumed `data_len` bytes. The window is a ring: the newest byte
    /// stands at the position before `data_len` modulo 5.
    closed spec fn model_at(&self, data_len: nat) -> BuilderModel {
        BuilderModel {
            bucket_kind: self.bucket_kind,
            checksum_kind: self.checksum_kind,
            ver: self.ver,
            buckets: self.buckets@,
            checksum: Seq::new(
                self.checksum_len as nat,
                |index: int|
                    if index == 0 {
                        self.checksum
                    } else {
                        self.checksum_array@[index]
                    },
            ),
            window: Seq::new(4, |index: int| self.slide_window@[(data_len + 4 - index) % 5]),
            data_len,
        }
    }

    /// Makes a builder that has consumed nothing.
    pub fn new(bucket: BucketKind, checksum: ChecksumKind, ver: Version) -> (builder: Self)
        ensures
            builder@ == fresh(bucket, checksum, ver),
    {
        let bucket_count = bucket.bucket_count();
        let checksum_len = checksum.checksum_len();
        let builder = Self {
            bucket_kind: bucket,
            checksum_kind: checksum,
            buckets: [0; 256],
            bucket_count,
            checksum: 0,
            checksum_array: vec![0; checksum_len],
            checksum_len,
            code_size: bucket_count / 4,
            data_len: 0,
            slide_window: [0; 5],
            ver,
        };
        assert(builder@.buckets =~= fresh(bucket, checksum, ver).buckets);
        assert(builder@.checksum =~= fresh(bucket, checksum, ver).checksum);
        assert(builder@.window =~= fresh(bucket, checksum, ver).window);
        builder
    }

    /// Returns the number of bytes that the builder has consumed.
    pub fn data_len(&self) -> (len: usize)
        ensures
            len == self@.data_len,
    {
        self.data_len
    }

    /// Consumes one byte. The builder has consumed `fed_len` bytes, and
    /// `j0` to `j4` are the positions in the ring of the new byte and of
    /// the four before it.
    fn slide(
        &mut self,
        newest: u8,
        fed_len: usize,
        j0: usize,
        j1: usize,
        j2: usize,
        j3: usize,
        j4: usize,
    )
        requires
            j0 == fed_len % 5,
            j1 == (fed_len + 4) % 5,
            j2 == (fed_len + 3) % 5,
            j3 == (fed_len + 2) % 5,
            j4 == (fed_len + 1) % 5,
        ensures
            final(self).model_at((fed_len + 1) as nat) == spec_update_byte(
                old(self).model_at(fed_len as nat),
                newest,
            ),
            final(self).data_len == old(self).data_len,
    {
        proof {
            use_type_invariant(&*self);
        }
        let ghost before = self.model_at(fed_len as nat);
        self.slide_window[j0] = newest;
        let previous: u8 = self.slide_window[j1];
        assert(previous == before.window[0]);
        assert(self.slide_window@[j2 as int] == before.window[1]);
        assert(self.slide_window@[j3 as int] == before.window[2]);
        assert(self.slide_window@[j4 as int] == before.window[3]);

        if fed_len >= 4 {
            self.checksum = hasher(0, newest, previous, self.checksum, self.ver);

            if self.checksum_len > 1 {
                self.checksum_array[0] = self.checksum;

                let mut kk: usize = 1;
                while kk < self.checksum_len
                    invariant
                        1 <= kk <= self.checksum_len == self.checksum_array@.len(),
                        self.checksum_len == before.checksum.len(),
                        self.ver == before.ver,
                        self.checksum_array@[0] == self.checksum,
                        forall|i: int|
                            0 <= i < kk ==> self.checksum_array@[i] == chained(
                                before.checksum,
                                newest,
                                previous,
                                before.ver,
                                i,
                            ),
                        forall|i: int|
                            kk <= i < self.checksum_len ==> self.checksum_array@[i]
                                == before.checksum[i],
                        self.bucket_kind == old(self).bucket_kind,
                        self.checksum_kind == old(self).checksum_kind,
                        self.bucket_count == old(self).bucket_count,
                        self.code_size == old(self).code_size,
                        self.data_len == old(self).data_len,
                        self.buckets == old(self).buckets,
                        self.slide_window@ == old(self).slide_window@.update(j0 as int, newest),
                    decreases self.checksum_len - kk,
                {
                    proof {
                        use_type_invariant(&*self);
                    }
                    let salt: u8 = self.checksum_array[kk - 1];
                    let current: u8 = self.checksum_array[kk];
                    self.checksum_array[kk] = hasher(salt, newest, previous, current, self.ver);
                    kk += 1;
                }
            }
            bump(
                &mut self.buckets,
                hasher(2, newest, self.slide_window[j1], self.slide_window[j2], self.ver),
            );
            bump(
                &mut self.buckets,
                hasher(3, newest, self.slide_window[j1], self.slide_window[j3], self.ver),
            );
            bump(
                &mut self.buckets,
                hasher(5, newest, self.slide_window[j2], self.slide_window[j3], self.ver),
            );
            bump(
                &mut self.buckets,
                hasher(7, newest, self.slide_window[j2], self.slide_window[j4], self.ver),
            );
            bump(
                &mut self.buckets,
                hasher(11, newest, self.slide_window[j1], self.slide_window[j4], self.ver),
            );
            bump(
                &mut self.buckets,
                hasher(13, newest, self.slide_window[j3], self.slide_window[j4], self.ver),
            );
        }
        proof {
            let after = self.model_at((fed_len + 1) as nat);
            let wanted = spec_update_byte(before, newest);
            assert(after.window =~= wanted.window);
            assert(after.checksum =~= wanted.checksum);
            assert(after.buckets =~= wanted.buckets);
        }
    }

    /// Consumes the `len` bytes of `data` from `offset` on. The bytes have to
    /// lie within `data`, and the number of bytes consumed in all has to fit
    /// a `usize`.
    pub fn update_from(&mut self, data: &[u8], offset: usize, len: usize)
        requires
            len == 0 || offset + len <= data.len(),
            old(self)@.data_len + len <= usize::MAX,
        ensures
            final(self)@ == spec_update(old(self)@, spec_chunk(data@, offset as int, len as int)),
    {
        if len == 0 {
            return ;
        }
        let mut j0: usize = self.data_len % WINDOW_SIZE;
        let mut j1: usize = (j0 + WINDOW_SIZE - 1) % WINDOW_SIZE;
        let mut j2: usize = (j0 + WINDOW_SIZE - 2) % WINDOW_SIZE;
        let mut j3: usize = (j0 + WINDOW_SIZE - 3) % WINDOW_SIZE;
        let mut j4: usize = (j0 + WINDOW_SIZE - 4) % WINDOW_SIZE;

        let mut fed_len: usize = self.data_len;
        let end: usize = offset + len;
        let mut ii: usize = offset;
        while ii < end
            invariant
                offset <= ii <= end,
                end == offset + len,
                end <= data@.len(),
                fed_len == old(self).data_len + (ii - offset),
                old(self).data_len + len <= usize::MAX,
                self.data_len == old(self).data_len,
                j0 == fed_len % 5,
                j1 == (fed_len + 4) % 5,
                j2 == (fed_len + 3) % 5,
                j3 == (fed_len + 2) % 5,
                j4 == (fed_len + 1) % 5,
                self.model_at(fed_len as nat) == spec_update(
                    old(self)@,
                    data@.subrange(offset as int, ii as int),
                ),
            decreases end - ii,
        {
            let ghost consumed = data@.subrange(offset as int, ii as int);
            self.slide(data[ii], fed_len, j0, j1, j2, j3, j4);
            proof {
                let more = data@.subrange(offset as int, ii + 1);
                assert(more.drop_last() =~= consumed);
                assert(more.last() == data@[ii as int]);
            }
            fed_len += 1;

            let tmp = j4;
            j4 = j3;
            j3 = j2;
            j2 = j1;
            j1 = j0;
            j0 = tmp;
            ii += 1;
        }
        proof {
            use_type_invariant(&*self);
        }
        self.data_len += len;
    }

    /// Consumes all of `data`. The number of bytes consumed in all has to fit
    /// a `usize`.
    pub fn update(&mut self, data: &[u8])
        requires
            old(self)@.data_len + data.len() <= usize::MAX,
        ensures
            final(self)@ == spec_update(old(self)@, data@),
    {
        assert(spec_chunk(data@, 0, data@.len() as int) =~= data@);
        self.update_from(data, 0, data.len());
    }

    /// Forgets what was consumed: the histogram, the checksum, the window
    /// and the length. The configuration stays.
    pub fn reset(&mut self)
        ensures
            final(self)@ == fresh(old(self)@.bucket_kind, old(self)@.checksum_kind, old(self)@.ver),
    {
        proof {
            use_type_invariant(&*self);
        }
        self.buckets = [0; 256];
        self.checksum = 0;
        self.checksum_array = vec![0; self.checksum_len];
        self.data_len = 0;
        self.slide_window = [0; 5];
        proof {
            let wanted = fresh(old(self)@.bucket_kind, old(self)@.checksum_kind, old(self)@.ver);
            assert(self@.buckets =~= wanted.buckets);
            assert(self@.checksum =~= wanted.checksum);
            assert(self@.window =~= wanted.window);
        }
    }

    /// Finalizes what was consumed so far into a digest. The builder stays
    /// as it is and can consume more.
    ///
    /// There is no digest of a stream of fewer than 50 bytes, of a stream
    /// whose histogram has a third quartile of zero, nor of a stream that is
    /// longer than the length table covers.
    pub fn build(&self) -> (digest: Result<TxLsh, TxLshError>)
        ensures
            match digest {
                Ok(d) => spec_build(self@) == Ok::<DigestModel, TxLshError>(d@) && d@.wf(),
                Err(e) => spec_build(self@) == Err::<DigestModel, TxLshError>(e),
            },
    {
        proof {
            use_type_invariant(self);
        }
        if self.data_len < 50 {
            return Err(TxLshError::MinSizeNotReached);
        }
        let (q1, q2, q3) = find_quartiles(self.buckets.as_slice(), self.bucket_count);
        if q3 == 0 {
            return Err(TxLshError::NoValidHash);
        }
        let mut tmp: Vec<u8> = vec![0; self.code_size];
        let mut ii: usize = 0;
        while ii < self.code_size
            invariant
                ii <= self.code_size == tmp@.len(),
                4 * self.code_size <= 256,
                self.buckets@.len() == 256,
                forall|i: int| 0 <= i < ii ==> tmp@[i] == spec_code(self.buckets@, i, q1, q2, q3),
            decreases self.code_size - ii,
        {
            let mut h: u8 = 0;
            let mut weight: u8 = 1;
            let mut jj: usize = 0;
            while jj < 4
                invariant
                    jj <= 4,
                    4 * ii + 3 < 256 == self.buckets@.len(),
                    weight == spec_weight(jj as int),
                    jj < 4 ==> h < weight,
                    h == spec_code_upto(self.buckets@, ii as int, jj as int, q1, q2, q3),
                decreases 4 - jj,
            {
                let code: u8 = symbol(self.buckets[4 * ii + jj], q1, q2, q3);
                assert(code * weight <= 3 * weight && code * weight == weight * code)
                    by (nonlinear_arith)
                    requires
                        code <= 3,
                        weight >= 0,
                ;
                assert(spec_code_upto(self.buckets@, ii as int, jj + 1, q1, q2, q3)
                    == spec_code_upto(self.buckets@, ii as int, jj as int, q1, q2, q3) + weight
                    * code);
                h += code * weight;
                if jj < 3 {
                    weight = weight * 4;
                }
                jj += 1;
            }
            assert(h == spec_code(self.buckets@, ii as int, q1, q2, q3)) by {
                reveal_with_fuel(spec_code_upto, 5);
            }
            tmp[ii] = h;
            ii += 1;
        }
        let len: usize = match l_capturing(self.data_len) {
            Ok(code) => code,
            Err(e) => {
                return Err(e);
            },
        };
        let q1ratio: usize = ((q1 as u64 * 100 / q3 as u64) % 16) as usize;
        let q2ratio: usize = ((q2 as u64 * 100 / q3 as u64) % 16) as usize;

        let mut checksum: Vec<u8> = Vec::new();
        checksum.push(self.checksum);
        let mut kk: usize = 1;
        while kk < self.checksum_len
            invariant
                1 <= kk <= self.checksum_len == self.checksum_array@.len(),
                checksum@.len() == kk,
                checksum@[0] == self.checksum,
                forall|i: int| 1 <= i < kk ==> checksum@[i] == self.checksum_array@[i],
            decreases self.checksum_len - kk,
        {
            checksum.push(self.checksum_array[kk]);
            kk += 1;
        }
        proof {
            let wanted = spec_build(self@);
            assert(checksum@ =~= self@.checksum);
            assert(tmp@ =~= wanted->Ok_0.codes);
        }
        Ok(
            TxLsh {
                bucket_kind: self.bucket_kind,
                checksum_kind: self.checksum_kind,
                ver: self.ver,
                checksum,
                len,
                q1ratio,
                q2ratio,
                codes: tmp,
            },
        )
    }
}

} // verus!
