//! What holds of the functions of this library taken together.

use vstd::prelude::*;
use crate::error::TxLshError;
use crate::helper::{
    bit_distance_upto, digits_diff, lemma_length_code_bounds, spec_bit_pairs_diff, spec_hash_len,
    BucketKind, ChecksumKind, Version,
};
use crate::hash_funcs::spec_hasher;
use crate::quartile::{lemma_rank_is_zero, lemma_sorted_copy, spec_find_quartiles};
use crate::hex::{hex_char, hex_code, hex_value, lemma_hex_value_of_code};
use crate::txlsh_mod::{
    byte_text_reversed, checksum_text, checksums_differ, codes_text, config_at, decoded,
    digest_text, first_config, fresh, hex_from, spec_build, spec_diff, spec_parse, spec_update,
    spec_update_byte, BuilderModel, DigestModel,
};
use vstd::utf8::{encode_utf8, is_ascii_chars, is_ascii_chars_encode_utf8};

verus! {

/// Consuming a stream in two chunks leaves a builder as consuming the whole
/// stream at once does, and so the digests are the same. By repetition this
/// holds of any number of chunks.
pub proof fn lemma_chunks_are_immaterial(builder: BuilderModel, first: Seq<u8>, second: Seq<u8>)
    ensures
        spec_update(spec_update(builder, first), second) == spec_update(builder, first + second),
        spec_build(spec_update(spec_update(builder, first), second)) == spec_build(
            spec_update(builder, first + second),
        ),
    decreases second.len(),
{
    if second.len() == 0 {
        assert(first + second =~= first);
    } else {
        lemma_chunks_are_immaterial(builder, first, second.drop_last());
        assert((first + second).drop_last() =~= first + second.drop_last());
        assert((first + second).last() == second.last());
    }
}

/// A builder that consumes a stream has seen as many bytes more as the stream
/// is long, and keeps its configuration.
pub proof fn lemma_update_counts_bytes(builder: BuilderModel, data: Seq<u8>)
    ensures
        spec_update(builder, data).data_len == builder.data_len + data.len(),
        spec_update(builder, data).bucket_kind == builder.bucket_kind,
        spec_update(builder, data).checksum_kind == builder.checksum_kind,
        spec_update(builder, data).ver == builder.ver,
    decreases data.len(),
{
    if data.len() > 0 {
        lemma_update_counts_bytes(builder, data.drop_last());
    }
}

/// A builder that consumes a stream keeps the sizes of what it holds.
pub proof fn lemma_update_keeps_wf(builder: BuilderModel, data: Seq<u8>)
    requires
        builder.wf(),
    ensures
        spec_update(builder, data).wf(),
    decreases data.len(),
{
    if data.len() > 0 {
        lemma_update_keeps_wf(builder, data.drop_last());
    }
}

/// A digest comes only of a stream of 50 bytes or more whose histogram has a
/// third quartile above zero. Its fields have the sizes of the
/// configuration, and its length code is below 170.
pub proof fn lemma_digests_are_wf(builder: BuilderModel)
    requires
        builder.wf(),
    ensures
        match spec_build(builder) {
            Ok(digest) => {
                &&& digest.wf()
                &&& digest.len < 170
                &&& builder.data_len >= 50
                &&& spec_find_quartiles(
                    builder.buckets,
                    builder.bucket_kind.spec_bucket_count(),
                ).2 > 0
            },
            Err(_) => true,
        },
{
    lemma_length_code_bounds(builder.data_len as int, 0);
}

/// A stream of fewer than 50 bytes is refused for its size, whatever the
/// configuration and however the stream was cut into chunks.
pub proof fn lemma_short_stream_is_refused(
    bucket_kind: BucketKind,
    checksum_kind: ChecksumKind,
    ver: Version,
    data: Seq<u8>,
)
    requires
        data.len() < 50,
    ensures
        spec_build(spec_update(fresh(bucket_kind, checksum_kind, ver), data)) == Err::<
            DigestModel,
            TxLshError,
        >(TxLshError::MinSizeNotReached),
{
    lemma_update_counts_bytes(fresh(bucket_kind, checksum_kind, ver), data);
}

/// The first quartile is at most the second, and the second at most the
/// third.
pub proof fn lemma_quartiles_are_ordered(buckets: Seq<u32>, bucket_count: int)
    requires
        4 <= bucket_count <= buckets.len(),
    ensures
        spec_find_quartiles(buckets, bucket_count).0 <= spec_find_quartiles(buckets, bucket_count).1
            <= spec_find_quartiles(buckets, bucket_count).2,
{
    lemma_sorted_copy(buckets.take(4 * (bucket_count / 4)));
}

/// The distance between two code bytes does not depend on their order, and
/// is zero between a byte and itself.
pub proof fn lemma_bit_pairs_diff_symmetric(row: int, col: int)
    ensures
        spec_bit_pairs_diff(row, col) == spec_bit_pairs_diff(col, row),
        spec_bit_pairs_diff(row, row) == 0,
{
    reveal_with_fuel(digits_diff, 5);
}

/// The distance between two sequences of code bytes of one length does not
/// depend on their order, and is zero between a sequence and itself.
pub proof fn lemma_bit_distance_symmetric(x: Seq<u8>, y: Seq<u8>, upto: nat)
    ensures
        bit_distance_upto(x, y, upto) == bit_distance_upto(y, x, upto),
        bit_distance_upto(x, x, upto) == 0,
    decreases upto,
{
    if upto > 0 {
        lemma_bit_distance_symmetric(x, y, (upto - 1) as nat);
        lemma_bit_pairs_diff_symmetric(x[upto - 1] as int, y[upto - 1] as int);
        lemma_bit_pairs_diff_symmetric(x[upto - 1] as int, x[upto - 1] as int);
    }
}

/// The distance between a digest and itself is zero, with the length codes
/// and without.
pub proof fn lemma_distance_to_itself(digest: DigestModel, with_len: bool)
    ensures
        spec_diff(digest, digest, with_len) == 0,
{
    lemma_bit_distance_symmetric(digest.codes, digest.codes, digest.codes.len());
}

/// The distance between two digests with the same number of buckets does not
/// depend on their order, with the length codes and without.
pub proof fn lemma_distance_is_symmetric(a: DigestModel, b: DigestModel, with_len: bool)
    requires
        a.codes.len() == b.codes.len(),
    ensures
        spec_diff(a, b, with_len) == spec_diff(b, a, with_len),
{
    lemma_bit_distance_symmetric(a.codes, b.codes, a.codes.len());
    if checksums_differ(a.checksum, b.checksum) {
        let i = choose|i: int|
            0 <= i < a.checksum.len() && i < b.checksum.len() && a.checksum[i] != b.checksum[i];
        assert(0 <= i < b.checksum.len() && i < a.checksum.len() && b.checksum[i] != a.checksum[i]);
    }
    if checksums_differ(b.checksum, a.checksum) {
        let i = choose|i: int|
            0 <= i < b.checksum.len() && i < a.checksum.len() && b.checksum[i] != a.checksum[i];
        assert(0 <= i < a.checksum.len() && i < b.checksum.len() && a.checksum[i] != b.checksum[i]);
    }
}

/// Two different code bytes are a distance apart.
pub proof fn lemma_bit_pairs_diff_zero(row: u8, col: u8)
    ensures
        spec_bit_pairs_diff(row as int, col as int) >= 0,
        spec_bit_pairs_diff(row as int, col as int) == 0 <==> row == col,
{
    reveal_with_fuel(digits_diff, 5);
}

/// The first `upto` code bytes of two sequences are no distance apart only
/// where they are the same.
pub proof fn lemma_bit_distance_zero(x: Seq<u8>, y: Seq<u8>, upto: nat)
    requires
        upto <= x.len(),
        upto <= y.len(),
    ensures
        bit_distance_upto(x, y, upto) >= 0,
        bit_distance_upto(x, y, upto) == 0 <==> x.take(upto as int) =~= y.take(upto as int),
    decreases upto,
{
    if upto > 0 {
        lemma_bit_distance_zero(x, y, (upto - 1) as nat);
        lemma_bit_pairs_diff_zero(x[upto - 1], y[upto - 1]);
        if x.take(upto as int) =~= y.take(upto as int) {
            assert(x.take(upto - 1) =~= x.take(upto as int).take(upto - 1));
            assert(y.take(upto - 1) =~= y.take(upto as int).take(upto - 1));
            assert(x[upto - 1] == x.take(upto as int)[upto - 1]);
            assert(y[upto - 1] == y.take(upto as int)[upto - 1]);
        }
        if bit_distance_upto(x, y, upto) == 0 {
            assert(x.take(upto - 1) =~= y.take(upto - 1));
            assert forall|i: int| 0 <= i < upto implies x.take(upto as int)[i] == y.take(
                upto as int,
            )[i] by {
                if i < upto - 1 {
                    assert(x.take(upto - 1)[i] == y.take(upto - 1)[i]);
                }
            }
        }
    }
}

/// The distance between two digests of one configuration is not negative,
/// and it is zero only where the ratios, the checksums and the codes are the
/// same, and the length codes too where they count.
pub proof fn lemma_distance_is_zero_between_equals(a: DigestModel, b: DigestModel, with_len: bool)
    requires
        a.wf(),
        b.wf(),
        a.bucket_kind == b.bucket_kind,
        a.checksum_kind == b.checksum_kind,
    ensures
        spec_diff(a, b, with_len) >= 0,
        spec_diff(a, b, with_len) == 0 <==> (with_len ==> a.len == b.len) && a.q1ratio == b.q1ratio
            && a.q2ratio == b.q2ratio && a.checksum == b.checksum && a.codes == b.codes,
{
    lemma_bit_distance_zero(a.codes, b.codes, a.codes.len());
    assert(a.codes.take(a.codes.len() as int) =~= a.codes);
    assert(b.codes.take(a.codes.len() as int) =~= b.codes);
    if !checksums_differ(a.checksum, b.checksum) {
        assert forall|i: int| 0 <= i < a.checksum.len() implies a.checksum[i] == b.checksum[i] by {
            if a.checksum[i] != b.checksum[i] {
                assert(0 <= i < a.checksum.len() && i < b.checksum.len() && a.checksum[i]
                    != b.checksum[i]);
            }
        }
        assert(a.checksum =~= b.checksum);
    }
}

/// The digest that the text of `digest` is read as. A text in the TxLsh
/// format is as long as one in the current TLSH format, and is read as one
/// of those.
pub open spec fn as_read(digest: DigestModel) -> DigestModel {
    DigestModel {
        ver: if digest.ver == Version::TxLshV1 {
            Version::Version4
        } else {
            digest.ver
        },
        ..digest
    }
}

/// The characters of the text of a digest: its length, the digits of the
/// length code and of the ratios, and the digits of the checksum byte and
/// of the code byte at `i`, where there is one.
proof fn lemma_text_chars(digest: DigestModel, i: int)
    requires
        digest.wf(),
        0 <= i,
    ensures
        ({
            let text = digest_text(digest);
            let start = digest.ver.spec_ver().len() as int;
            let checksum_len = digest.checksum.len() as int;
            let code_size = digest.codes.len() as int;
            let codes_start = start + 2 * checksum_len + 4;
            &&& text.len() == codes_start + 2 * code_size
            &&& i < start ==> text[i] == digest.ver.spec_ver()[i]
            &&& i < checksum_len ==> text[start + 2 * i] == hex_char(digest.checksum[i] as int % 16)
                && text[start + 2 * i + 1] == hex_char(digest.checksum[i] as int / 16)
            &&& text[start + 2 * checksum_len] == hex_char(digest.len % 16)
            &&& text[start + 2 * checksum_len + 1] == hex_char(digest.len / 16)
            &&& text[start + 2 * checksum_len + 2] == hex_char(digest.q1ratio)
            &&& text[start + 2 * checksum_len + 3] == hex_char(digest.q2ratio)
            &&& i < code_size ==> text[codes_start + 2 * i] == hex_char(
                digest.codes[code_size - 1 - i] as int / 16,
            ) && text[codes_start + 2 * i + 1] == hex_char(
                digest.codes[code_size - 1 - i] as int % 16,
            )
        }),
{
    let text = digest_text(digest);
    let prefix = digest.ver.spec_ver();
    let head = prefix + checksum_text(digest.checksum);
    let upto_len = head + byte_text_reversed(digest.len);
    let upto_ratios = upto_len + seq![hex_char(digest.q1ratio), hex_char(digest.q2ratio)];
    assert(text == upto_ratios + codes_text(digest.codes));
    if i < digest.checksum.len() {
        assert(text[prefix.len() + 2 * i] == checksum_text(digest.checksum)[2 * i]);
        assert(text[prefix.len() + 2 * i + 1] == checksum_text(digest.checksum)[2 * i + 1]);
    }
    if i < digest.codes.len() {
        assert(text[upto_ratios.len() + 2 * i] == codes_text(digest.codes)[2 * i]);
        assert(text[upto_ratios.len() + 2 * i + 1] == codes_text(digest.codes)[2 * i + 1]);
    }
}

/// The text of a digest is made of ASCII characters.
pub proof fn lemma_text_is_ascii(digest: DigestModel)
    requires
        digest.wf(),
    ensures
        is_ascii_chars(digest_text(digest)),
{
    let text = digest_text(digest);
    let start = digest.ver.spec_ver().len() as int;
    let checksum_len = digest.checksum.len() as int;
    lemma_text_chars(digest, 0);
    assert forall|k: int| 0 <= k < text.len() implies '\0' <= #[trigger] text[k] <= '\u{7f}' by {
        if k < start {
            lemma_text_chars(digest, k);
        } else if k < start + 2 * checksum_len {
            let i = (k - start) / 2;
            lemma_text_chars(digest, i);
            assert(k == start + 2 * i || k == start + 2 * i + 1);
        } else if k < start + 2 * checksum_len + 4 {
        } else {
            let i = (k - start - 2 * checksum_len - 4) / 2;
            lemma_text_chars(digest, i);
            assert(k == start + 2 * checksum_len + 4 + 2 * i || k == start + 2 * checksum_len + 4
                + 2 * i + 1);
        }
    }
}

/// The bytes of the text of a digest: their number, the digits of the
/// length code and of the ratios, and the digits of the checksum byte and
/// of the code byte at `i`, where there is one.
proof fn lemma_text_bytes(digest: DigestModel, i: int)
    requires
        digest.wf(),
        0 <= i,
    ensures
        ({
            let bytes = encode_utf8(digest_text(digest));
            let start = digest.ver.spec_ver().len() as int;
            let checksum_len = digest.checksum.len() as int;
            let code_size = digest.codes.len() as int;
            let codes_start = start + 2 * checksum_len + 4;
            &&& bytes.len() == codes_start + 2 * code_size
            &&& i < checksum_len ==> bytes[start + 2 * i] == hex_code(
                digest.checksum[i] as int % 16,
            ) && bytes[start + 2 * i + 1] == hex_code(digest.checksum[i] as int / 16)
            &&& bytes[start + 2 * checksum_len] == hex_code(digest.len % 16)
            &&& bytes[start + 2 * checksum_len + 1] == hex_code(digest.len / 16)
            &&& bytes[start + 2 * checksum_len + 2] == hex_code(digest.q1ratio)
            &&& bytes[start + 2 * checksum_len + 3] == hex_code(digest.q2ratio)
            &&& i < code_size ==> bytes[codes_start + 2 * i] == hex_code(
                digest.codes[code_size - 1 - i] as int / 16,
            ) && bytes[codes_start + 2 * i + 1] == hex_code(
                digest.codes[code_size - 1 - i] as int % 16,
            )
        }),
{
    let text = digest_text(digest);
    let bytes = encode_utf8(text);
    let start = digest.ver.spec_ver().len() as int;
    let checksum_len = digest.checksum.len() as int;
    let code_size = digest.codes.len() as int;
    let codes_start = start + 2 * checksum_len + 4;
    lemma_text_is_ascii(digest);
    is_ascii_chars_encode_utf8(text);
    lemma_text_chars(digest, i);
    assert(bytes[start + 2 * checksum_len] == text[start + 2 * checksum_len] as u8);
    assert(bytes[start + 2 * checksum_len + 1] == text[start + 2 * checksum_len + 1] as u8);
    assert(bytes[start + 2 * checksum_len + 2] == text[start + 2 * checksum_len + 2] as u8);
    assert(bytes[start + 2 * checksum_len + 3] == text[start + 2 * checksum_len + 3] as u8);
    if i < checksum_len {
        assert(bytes[start + 2 * i] == text[start + 2 * i] as u8);
        assert(bytes[start + 2 * i + 1] == text[start + 2 * i + 1] as u8);
    }
    if i < code_size {
        assert(bytes[codes_start + 2 * i] == text[codes_start + 2 * i] as u8);
        assert(bytes[codes_start + 2 * i + 1] == text[codes_start + 2 * i + 1] as u8);
    }
}

/// A text as long as that of a configuration is matched with the
/// configuration, or with its like in the current TLSH format where the
/// configuration is in the TxLsh format: but for these two formats, the
/// length of a text tells its configuration.
pub proof fn lemma_config_of_len(bucket_kind: BucketKind, checksum_kind: ChecksumKind, ver: Version)
    ensures
        ({
            let read_ver = if ver == Version::TxLshV1 {
                Version::Version4
            } else {
                ver
            };
            let index = first_config(spec_hash_len(bucket_kind, checksum_kind, ver), 0);
            index < 12 && config_at(index) == (bucket_kind, checksum_kind, read_ver)
        }),
{
    reveal_with_fuel(first_config, 13);
}

/// What follows the prefix in the text of a digest are hexadecimal digits.
proof fn lemma_text_is_hex(digest: DigestModel)
    requires
        digest.wf(),
    ensures
        hex_from(encode_utf8(digest_text(digest)), digest.ver.spec_ver().len() as int),
{
    let bytes = encode_utf8(digest_text(digest));
    let start = digest.ver.spec_ver().len() as int;
    let checksum_len = digest.checksum.len() as int;
    lemma_text_bytes(digest, 0);
    assert forall|k: int| start <= k < bytes.len() implies hex_value(#[trigger] bytes[k]).is_some() by {
        if k < start + 2 * checksum_len {
            let i = (k - start) / 2;
            lemma_text_bytes(digest, i);
            assert(k == start + 2 * i || k == start + 2 * i + 1);
            lemma_hex_value_of_code(digest.checksum[i] as int % 16);
            lemma_hex_value_of_code(digest.checksum[i] as int / 16);
        } else if k < start + 2 * checksum_len + 4 {
            lemma_hex_value_of_code(digest.len % 16);
            lemma_hex_value_of_code(digest.len / 16);
            lemma_hex_value_of_code(digest.q1ratio);
            lemma_hex_value_of_code(digest.q2ratio);
        } else {
            let i = (k - start - 2 * checksum_len - 4) / 2;
            lemma_text_bytes(digest, i);
            assert(k == start + 2 * checksum_len + 4 + 2 * i || k == start + 2 * checksum_len + 4
                + 2 * i + 1);
            let code = digest.codes[digest.codes.len() - 1 - i];
            lemma_hex_value_of_code(code as int % 16);
            lemma_hex_value_of_code(code as int / 16);
        }
    }
}

/// The digits of the text of a digest stand for the digest.
#[verifier::rlimit(40)]
proof fn lemma_text_is_decoded(digest: DigestModel)
    requires
        digest.wf(),
    ensures
        decoded(
            encode_utf8(digest_text(digest)),
            digest.bucket_kind,
            digest.checksum_kind,
            as_read(digest).ver,
        ) == as_read(digest),
{
    let bytes = encode_utf8(digest_text(digest));
    let read = as_read(digest);
    let start = digest.ver.spec_ver().len() as int;
    let checksum_len = digest.checksum.len() as int;
    let code_size = digest.codes.len() as int;
    let found = decoded(bytes, read.bucket_kind, read.checksum_kind, read.ver);
    let body = bytes.skip(start);
    let tail = body.skip(2 * checksum_len + 4);
    lemma_text_bytes(digest, 0);
    assert(read.ver.spec_ver().len() == start);
    assert forall|i: int| 0 <= i < checksum_len implies found.checksum[i] == digest.checksum[i] by {
        lemma_text_bytes(digest, i);
        assert(body[2 * i] == bytes[start + 2 * i]);
        assert(body[2 * i + 1] == bytes[start + 2 * i + 1]);
        lemma_hex_value_of_code(digest.checksum[i] as int % 16);
        lemma_hex_value_of_code(digest.checksum[i] as int / 16);
    }
    assert(found.checksum =~= digest.checksum);
    assert forall|i: int| 0 <= i < code_size implies found.codes[i] == digest.codes[i] by {
        let j = code_size - 1 - i;
        lemma_text_bytes(digest, j);
        assert(tail[2 * j] == bytes[start + 2 * checksum_len + 4 + 2 * j]);
        assert(tail[2 * j + 1] == bytes[start + 2 * checksum_len + 4 + 2 * j + 1]);
        lemma_hex_value_of_code(digest.codes[i] as int % 16);
        lemma_hex_value_of_code(digest.codes[i] as int / 16);
    }
    assert(found.codes =~= digest.codes);
    assert(body[2 * checksum_len] == bytes[start + 2 * checksum_len]);
    assert(body[2 * checksum_len + 1] == bytes[start + 2 * checksum_len + 1]);
    assert(body[2 * checksum_len + 2] == bytes[start + 2 * checksum_len + 2]);
    assert(body[2 * checksum_len + 3] == bytes[start + 2 * checksum_len + 3]);
    lemma_hex_value_of_code(digest.len % 16);
    lemma_hex_value_of_code(digest.len / 16);
    lemma_hex_value_of_code(digest.q1ratio);
    lemma_hex_value_of_code(digest.q2ratio);
}

/// The text of a digest has the length of its configuration, in characters
/// and in bytes.
pub proof fn lemma_text_len(digest: DigestModel)
    requires
        digest.wf(),
    ensures
        digest_text(digest).len() == spec_hash_len(
            digest.bucket_kind,
            digest.checksum_kind,
            digest.ver,
        ),
        encode_utf8(digest_text(digest)).len() == digest_text(digest).len(),
{
    lemma_text_chars(digest, 0);
    lemma_text_bytes(digest, 0);
}

/// Reading the text of a digest gives the digest back, but for the version
/// of a digest in the TxLsh format, which is read as the current TLSH
/// format.
pub proof fn lemma_text_is_read_back(digest: DigestModel)
    requires
        digest.wf(),
    ensures
        spec_parse(encode_utf8(digest_text(digest))) == Ok::<DigestModel, TxLshError>(
            as_read(digest),
        ),
{
    let bytes = encode_utf8(digest_text(digest));
    let read = as_read(digest);
    lemma_text_len(digest);
    lemma_config_of_len(digest.bucket_kind, digest.checksum_kind, digest.ver);
    let index = first_config(bytes.len() as int, 0);
    assert(index < 12);
    assert(config_at(index) == (read.bucket_kind, read.checksum_kind, read.ver));
    assert(read.ver.spec_ver().len() == digest.ver.spec_ver().len());
    lemma_text_is_hex(digest);
    assert(hex_from(bytes, read.ver.spec_ver().len() as int));
    lemma_text_is_decoded(digest);
    assert(decoded(bytes, read.bucket_kind, read.checksum_kind, read.ver) == read);
}

/// Reading the text of a digest gives the digest back, for a digest of
/// either TLSH format.
pub proof fn lemma_text_round_trip(digest: DigestModel)
    requires
        digest.wf(),
        digest.ver != Version::TxLshV1,
    ensures
        spec_parse(encode_utf8(digest_text(digest))) == Ok::<DigestModel, TxLshError>(digest),
{
    lemma_text_is_read_back(digest);
}

/// The six buckets in which a stream of one repeated byte is counted.
spec fn constant_marks(byte: u8, ver: Version) -> Seq<int> {
    seq![
        spec_hasher(2, byte, byte, byte, ver) as int,
        spec_hasher(3, byte, byte, byte, ver) as int,
        spec_hasher(5, byte, byte, byte, ver) as int,
        spec_hasher(7, byte, byte, byte, ver) as int,
        spec_hasher(11, byte, byte, byte, ver) as int,
        spec_hasher(13, byte, byte, byte, ver) as int,
    ]
}

/// A builder that has consumed nothing but one repeated byte has counted in
/// six buckets at most.
proof fn lemma_constant_stream(
    bucket_kind: BucketKind,
    checksum_kind: ChecksumKind,
    ver: Version,
    byte: u8,
    len: nat,
)
    ensures
        ({
            let builder = spec_update(
                fresh(bucket_kind, checksum_kind, ver),
                Seq::new(len, |i: int| byte),
            );
            &&& builder.data_len == len
            &&& builder.bucket_kind == bucket_kind
            &&& builder.buckets.len() == 256
            &&& builder.window.len() == 4
            &&& forall|i: int| 0 <= i < 4 && i < len ==> builder.window[i] == byte
            &&& forall|i: int|
                0 <= i < 256 && builder.buckets[i] != 0 ==> constant_marks(byte, ver).contains(i)
        }),
    decreases len,
{
    let start = fresh(bucket_kind, checksum_kind, ver);
    let stream = Seq::new(len, |i: int| byte);
    lemma_update_counts_bytes(start, stream);
    if len > 0 {
        let shorter = Seq::new((len - 1) as nat, |i: int| byte);
        assert(stream.drop_last() =~= shorter);
        lemma_constant_stream(bucket_kind, checksum_kind, ver, byte, (len - 1) as nat);
        lemma_update_counts_bytes(start, shorter);
        let before = spec_update(start, shorter);
        let after = spec_update(start, stream);
        assert(after == spec_update_byte(before, byte));
        let marks = constant_marks(byte, ver);
        assert(marks[0] == spec_hasher(2, byte, byte, byte, ver));
        assert(marks[1] == spec_hasher(3, byte, byte, byte, ver));
        assert(marks[2] == spec_hasher(5, byte, byte, byte, ver));
        assert(marks[3] == spec_hasher(7, byte, byte, byte, ver));
        assert(marks[4] == spec_hasher(11, byte, byte, byte, ver));
        assert(marks[5] == spec_hasher(13, byte, byte, byte, ver));
        assert forall|i: int| 0 <= i < 256 && after.buckets[i] != 0 implies marks.contains(i) by {
            if before.buckets[i] == 0 {
                assert(i == marks[0] || i == marks[1] || i == marks[2] || i == marks[3] || i
                    == marks[4] || i == marks[5]);
            }
        }
    }
}

/// A stream of at least 50 bytes that repeats one byte is refused for its
/// histogram: the third quartile is zero.
pub proof fn lemma_constant_stream_is_refused(
    bucket_kind: BucketKind,
    checksum_kind: ChecksumKind,
    ver: Version,
    byte: u8,
    len: nat,
)
    requires
        len >= 50,
    ensures
        spec_build(
            spec_update(fresh(bucket_kind, checksum_kind, ver), Seq::new(len, |i: int| byte)),
        ) == Err::<DigestModel, TxLshError>(TxLshError::NoValidHash),
{
    let builder = spec_update(fresh(bucket_kind, checksum_kind, ver), Seq::new(len, |i: int| byte));
    lemma_constant_stream(bucket_kind, checksum_kind, ver, byte, len);
    let bucket_count = bucket_kind.spec_bucket_count();
    let counted = builder.buckets.take(4 * (bucket_count / 4));
    let marks = constant_marks(byte, ver);
    assert forall|i: int| 0 <= i < counted.len() && counted[i] != 0 implies marks.contains(i) by {
        assert(counted[i] == builder.buckets[i]);
    }
    lemma_rank_is_zero(counted, marks, 3 * (bucket_count / 4) - 1);
}

} // verus!
