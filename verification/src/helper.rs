//! The configuration of a digest, its length code, and the distances between
//! the parts of two digests.

use vstd::prelude::*;
use crate::consts::{TOPVAL, TOPVAL_LEN};
use crate::error::TxLshError;

verus! {

/// Number of histogram slots that a builder keeps, whatever its bucket kind.
pub const BUCKET_SIZE: usize = 256;

/// Number of bytes in the sliding window.
pub const WINDOW_SIZE: usize = 5;

/// How many histogram buckets a digest is computed from.
#[derive(Clone, Copy, Debug, Hash, PartialEq, Eq, Structural)]
pub enum BucketKind {
    /// 128 buckets.
    Bucket128,
    /// 256 buckets, the "full hash".
    Bucket256,
}

impl BucketKind {
    /// The number of buckets, as a mathematical integer.
    pub open spec fn spec_bucket_count(self) -> int {
        match self {
            BucketKind::Bucket128 => 128,
            BucketKind::Bucket256 => 256,
        }
    }

    /// Returns the number of buckets.
    pub fn bucket_count(&self) -> (n: usize)
        ensures
            n == self.spec_bucket_count(),
    {
        match self {
            BucketKind::Bucket128 => 128,
            BucketKind::Bucket256 => 256,
        }
    }
}

/// How many checksum bytes a digest carries.
#[derive(Clone, Copy, Debug, Hash, PartialEq, Eq, Structural)]
pub enum ChecksumKind {
    /// One byte; two unrelated inputs collide with probability 1/24.
    OneByte,
    /// Three bytes; two unrelated inputs collide with probability 1/5800.
    ThreeByte,
}

impl ChecksumKind {
    /// The number of checksum bytes, as a mathematical integer.
    pub open spec fn spec_checksum_len(self) -> int {
        match self {
            ChecksumKind::OneByte => 1,
            ChecksumKind::ThreeByte => 3,
        }
    }

    /// Returns the number of checksum bytes.
    pub fn checksum_len(&self) -> (n: usize)
        ensures
            n == self.spec_checksum_len(),
    {
        match self {
            ChecksumKind::OneByte => 1,
            ChecksumKind::ThreeByte => 3,
        }
    }
}

/// The format version of a digest. It fixes the prefix of the digest's text
/// and the hash primitive that the builder uses.
#[derive(Clone, Copy, Debug, Hash, PartialEq, Eq, Structural)]
pub enum Version {
    /// The first TLSH format, without a prefix.
    Original,
    /// The current TLSH format, with the prefix `T1`.
    Version4,
    /// The TxLsh format, with the prefix `X1`.
    TxLshV1,
}

impl Version {
    /// The prefix that the version puts in front of a digest's text.
    pub open spec fn spec_ver(self) -> Seq<char> {
        match self {
            Version::Original => seq![],
            Version::Version4 => seq!['T', '1'],
            Version::TxLshV1 => seq!['X', '1'],
        }
    }

    /// Returns the prefix that the version puts in front of a digest's text.
    pub fn ver(&self) -> (prefix: &'static str)
        ensures
            prefix@ == self.spec_ver(),
    {
        proof {
            reveal_strlit("");
            reveal_strlit("T1");
            reveal_strlit("X1");
        }
        match self {
            Version::Original => {
                assert(""@ =~= seq![]);
                ""
            },
            Version::Version4 => {
                assert("T1"@ =~= seq!['T', '1']);
                "T1"
            },
            Version::TxLshV1 => {
                assert("X1"@ =~= seq!['X', '1']);
                "X1"
            },
        }
    }
}

/// Length of the text of a digest with the given configuration.
pub open spec fn spec_hash_len(bucket: BucketKind, checksum: ChecksumKind, ver: Version) -> int {
    bucket.spec_bucket_count() / 2 + checksum.spec_checksum_len() * 2 + ver.spec_ver().len() + 4
}

/// Returns the length of the text of a digest with the given configuration.
pub fn hash_len(bucket: BucketKind, checksum: ChecksumKind, ver: Version) -> (n: usize)
    ensures
        n == spec_hash_len(bucket, checksum, ver),
{
    bucket.bucket_count() / 2 + checksum.checksum_len() * 2 + ver.ver().unicode_len() + 4
}

/// The threshold at index `i` of the length table.
#[verifier::opaque]
pub open spec fn threshold(i: int) -> int {
    TOPVAL[i] as int
}

/// The index of the first threshold from `from` on that is at least `len`,
/// or 170 when there is none.
pub open spec fn length_code_from(len: int, from: int) -> int
    decreases 170 - from,
{
    if from < 0 || from >= 170 {
        170
    } else if len <= threshold(from) {
        from
    } else {
        length_code_from(len, from + 1)
    }
}

/// The length code of a stream of `len` bytes: the index of the first
/// threshold that is at least `len`. There is none for a stream that is
/// longer than the last threshold.
pub open spec fn spec_l_capturing(len: int) -> Option<int> {
    let code = length_code_from(len, 0);
    if code < 170 {
        Some(code)
    } else {
        None
    }
}

/// The thresholds from `from` up to `code` are below `len` and the one at
/// `code`, if there is one, is not: then `code` is where the search from
/// `from` ends.
pub proof fn lemma_length_code_from(len: int, from: int, code: int)
    requires
        0 <= from <= code <= 170,
        forall|j: int| from <= j < code ==> threshold(j) < len,
        code < 170 ==> len <= threshold(code),
    ensures
        length_code_from(len, from) == code,
    decreases code - from,
{
    if from < code {
        lemma_length_code_from(len, from + 1, code);
    }
}

/// A search from `from` ends at `from` or behind it, and at 170 at the
/// latest.
pub proof fn lemma_length_code_bounds(len: int, from: int)
    requires
        0 <= from <= 170,
    ensures
        from <= length_code_from(len, from) <= 170,
    decreases 170 - from,
{
    if from < 170 && len > threshold(from) {
        lemma_length_code_bounds(len, from + 1);
    }
}

/// A longer stream has no lower length code.
pub proof fn lemma_length_code_is_monotonic(shorter: int, longer: int, from: int)
    requires
        shorter <= longer,
        0 <= from <= 170,
    ensures
        length_code_from(shorter, from) <= length_code_from(longer, from),
    decreases 170 - from,
{
    lemma_length_code_bounds(longer, from);
    if from < 170 && shorter > threshold(from) {
        lemma_length_code_is_monotonic(shorter, longer, from + 1);
    }
}

/// Each threshold is below the next one.
proof fn lemma_threshold_step()
    ensures
        forall|i: int| 0 <= i < 169 ==> threshold(i) < #[trigger] threshold(i + 1),
{
    reveal(threshold);
}

/// The thresholds increase strictly.
pub proof fn lemma_threshold_increasing(i: int, j: int)
    requires
        0 <= i < j < 170,
    ensures
        threshold(i) < threshold(j),
    decreases j - i,
{
    lemma_threshold_step();
    if i + 1 < j {
        lemma_threshold_increasing(i, j - 1);
        assert(threshold(j - 1) < threshold(j - 1 + 1));
    } else {
        assert(threshold(i) < threshold(i + 1));
    }
}

/// Reads the threshold at index `idx` of the length table.
fn threshold_at(idx: usize) -> (t: u32)
    requires
        idx < 170,
    ensures
        t == threshold(idx as int),
{
    proof {
        reveal(threshold);
    }
    TOPVAL[idx]
}

/// Finds the length code of a stream of `len` bytes by binary search in the
/// threshold table.
pub fn l_capturing(len: usize) -> (code: Result<usize, TxLshError>)
    ensures
        match code {
            Ok(c) => spec_l_capturing(len as int) == Some(c as int),
            Err(e) => e == TxLshError::DataLenOverflow && spec_l_capturing(len as int).is_none(),
        },
{
    let len64: u64 = len as u64;
    if len64 > threshold_at(TOPVAL_LEN - 1) as u64 {
        proof {
            assert forall|j: int| 0 <= j < 170 implies threshold(j) < len by {
                if j < 169 {
                    lemma_threshold_increasing(j, 169);
                }
            }
            lemma_length_code_from(len as int, 0, 170);
        }
        return Err(TxLshError::DataLenOverflow);
    }
    let mut bottom: usize = 0;
    let mut top: usize = TOPVAL_LEN - 1;
    while bottom < top
        invariant
            0 <= bottom <= top <= 169,
            len64 == len,
            len64 <= threshold(top as int),
            forall|j: int| 0 <= j < bottom ==> threshold(j) < len64,
        decreases top - bottom,
    {
        let idx: usize = (bottom + top) / 2;
        if len64 <= threshold_at(idx) as u64 {
            top = idx;
        } else {
            proof {
                assert forall|j: int| 0 <= j < idx + 1 implies threshold(j) < len64 by {
                    if j < idx {
                        lemma_threshold_increasing(j, idx as int);
                    }
                }
            }
            bottom = idx + 1;
        }
    }
    proof {
        lemma_length_code_from(len as int, 0, bottom as int);
    }
    Ok(bottom)
}

/// The distance between `x` and `y` on a circle of `circ_q` points: the
/// shorter of the two ways round.
pub open spec fn spec_mod_diff(x: int, y: int, circ_q: int) -> int {
    let direct = if x >= y {
        x - y
    } else {
        y - x
    };
    if direct <= circ_q - direct {
        direct
    } else {
        circ_q - direct
    }
}

/// Computes the distance between `x` and `y` on a circle of `circ_q` points.
/// The two may not be further apart than `circ_q`.
pub fn mod_diff(x: usize, y: usize, circ_q: usize) -> (d: usize)
    requires
        x <= y + circ_q,
        y <= x + circ_q,
        if x >= y {
            y + circ_q <= usize::MAX
        } else {
            x + circ_q <= usize::MAX
        },
    ensures
        d == spec_mod_diff(x as int, y as int, circ_q as int),
{
    let (dl, dr) = if x >= y {
        (x - y, y + circ_q - x)
    } else {
        (y - x, x + circ_q - y)
    };
    if dl <= dr {
        dl
    } else {
        dr
    }
}

/// The distance between the lowest base-4 digits of `x` and `y`. Digits at
/// the two ends of the range, 0 and 3, are 6 apart.
pub open spec fn digit_diff(x: int, y: int) -> int {
    let a = x % 4;
    let b = y % 4;
    let d = if a >= b {
        a - b
    } else {
        b - a
    };
    if d == 3 {
        6
    } else {
        d
    }
}

/// The sum of the digit distances of the lowest `digits` base-4 digits of
/// `x` and `y`.
pub open spec fn digits_diff(x: int, y: int, digits: nat) -> int
    decreases digits,
{
    if digits == 0 {
        0
    } else {
        digit_diff(x, y) + digits_diff(x / 4, y / 4, (digits - 1) as nat)
    }
}

/// The distance between two code bytes: the sum of the distances of their
/// four base-4 digits.
pub open spec fn spec_bit_pairs_diff(row: int, col: int) -> int {
    digits_diff(row, col, 4)
}

/// Computes the distance between two code bytes.
pub fn bit_pairs_diff(row: usize, col: usize) -> (diff: usize)
    requires
        row < 256,
        col < 256,
    ensures
        diff == spec_bit_pairs_diff(row as int, col as int),
        diff <= 24,
{
    let mut x: usize = row;
    let mut y: usize = col;
    let mut diff: usize = 0;
    let mut done: usize = 0;
    while done < 4
        invariant
            done <= 4,
            diff <= 6 * done,
            diff + digits_diff(x as int, y as int, (4 - done) as nat) == spec_bit_pairs_diff(
                row as int,
                col as int,
            ),
        decreases 4 - done,
    {
        let a: usize = x % 4;
        let b: usize = y % 4;
        let d: usize = if a >= b {
            a - b
        } else {
            b - a
        };
        diff += if d == 3 {
            6
        } else {
            d
        };
        x /= 4;
        y /= 4;
        done += 1;
    }
    diff
}

/// The sum of the distances of the first `upto` code bytes of `x` and `y`.
pub open spec fn bit_distance_upto(x: Seq<u8>, y: Seq<u8>, upto: nat) -> int
    decreases upto,
{
    if upto == 0 {
        0
    } else {
        bit_distance_upto(x, y, (upto - 1) as nat) + spec_bit_pairs_diff(
            x[upto - 1] as int,
            y[upto - 1] as int,
        )
    }
}

/// The distance between two sequences of code bytes: the sum, over the
/// positions of `x`, of the distances of the bytes of `x` and `y` there.
pub open spec fn spec_bit_distance(x: Seq<u8>, y: Seq<u8>) -> int {
    bit_distance_upto(x, y, x.len())
}

/// A code byte pair is at most 24 apart.
pub proof fn lemma_bit_pairs_diff_bounds(row: int, col: int)
    ensures
        0 <= spec_bit_pairs_diff(row, col) <= 24,
{
    reveal_with_fuel(digits_diff, 5);
}

/// The first `upto` code bytes are at most `24 * upto` apart.
pub proof fn lemma_bit_distance_bounds(x: Seq<u8>, y: Seq<u8>, upto: nat)
    ensures
        0 <= bit_distance_upto(x, y, upto) <= 24 * upto,
    decreases upto,
{
    if upto > 0 {
        lemma_bit_distance_bounds(x, y, (upto - 1) as nat);
        lemma_bit_pairs_diff_bounds(x[upto - 1] as int, y[upto - 1] as int);
    }
}

/// Computes the distance between two sequences of code bytes, of which the
/// second is at least as long as the first.
pub fn bit_distance(x: &[u8], y: &[u8]) -> (distance: usize)
    requires
        x@.len() <= y@.len(),
        24 * x@.len() <= usize::MAX,
    ensures
        distance == spec_bit_distance(x@, y@),
{
    let mut result: usize = 0;
    let mut ii: usize = 0;
    while ii < x.len()
        invariant
            ii <= x@.len() <= y@.len(),
            24 * x@.len() <= usize::MAX,
            result == bit_distance_upto(x@, y@, ii as nat),
            result <= 24 * ii,
        decreases x@.len() - ii,
    {
        result += bit_pairs_diff(x[ii] as usize, y[ii] as usize);
        ii += 1;
    }
    result
}

/// The distances between all pairs of code bytes, in a table of 256 rows and
/// 256 columns. A table is made once and read from then on; it never
/// changes, so one table serves any number of readers.
pub struct BitPairsTable {
    cells: Vec<u8>,
}

/// The cell of a table, kept row by row, at `row` and `col`.
pub open spec fn cell_of(cells: Seq<u8>, row: int, col: int) -> int {
    cells[256 * row + col] as int
}

impl BitPairsTable {
    #[verifier::type_invariant]
    closed spec fn inv(&self) -> bool {
        &&& self.cells@.len() == 256 * 256
        &&& forall|row: int, col: int|
            0 <= row < 256 && 0 <= col < 256 ==> #[trigger] cell_of(self.cells@, row, col)
                == spec_bit_pairs_diff(row, col)
    }

    /// The entry of the table at `row` and `col`.
    pub closed spec fn entry(&self, row: int, col: int) -> int {
        cell_of(self.cells@, row, col)
    }

    /// Makes the table: computes the distance of each pair of code bytes.
    pub fn new() -> (table: Self)
        ensures
            forall|row: int, col: int|
                0 <= row < 256 && 0 <= col < 256 ==> #[trigger] table.entry(row, col)
                    == spec_bit_pairs_diff(row, col),
    {
        let mut cells: Vec<u8> = Vec::new();
        let mut row: usize = 0;
        while row < 256
            invariant
                row <= 256,
                cells@.len() == 256 * row,
                forall|r: int, c: int|
                    0 <= r < row && 0 <= c < 256 ==> #[trigger] cell_of(cells@, r, c)
                        == spec_bit_pairs_diff(r, c),
            decreases 256 - row,
        {
            let mut col: usize = 0;
            while col < 256
                invariant
                    row < 256,
                    col <= 256,
                    cells@.len() == 256 * row + col,
                    forall|r: int, c: int|
                        0 <= r < row && 0 <= c < 256 ==> #[trigger] cell_of(cells@, r, c)
                            == spec_bit_pairs_diff(r, c),
                    forall|c: int|
                        0 <= c < col ==> #[trigger] cell_of(cells@, row as int, c)
                            == spec_bit_pairs_diff(row as int, c),
                decreases 256 - col,
            {
                let ghost before = cells@;
                let diff: usize = bit_pairs_diff(row, col);
                cells.push(diff as u8);
                proof {
                    assert forall|r: int, c: int| 0 <= r < row && 0 <= c < 256 implies cell_of(
                        cells@,
                        r,
                        c,
                    ) == spec_bit_pairs_diff(r, c) by {
                        assert(cell_of(cells@, r, c) == cell_of(before, r, c));
                    }
                    assert forall|c: int| 0 <= c < col + 1 implies cell_of(cells@, row as int, c)
                        == spec_bit_pairs_diff(row as int, c) by {
                        if c < col {
                            assert(cell_of(cells@, row as int, c) == cell_of(before, row as int, c));
                        }
                    }
                }
                col += 1;
            }
            proof {
                assert forall|r: int, c: int| 0 <= r < row + 1 && 0 <= c < 256 implies cell_of(
                    cells@,
                    r,
                    c,
                ) == spec_bit_pairs_diff(r, c) by {}
            }
            row += 1;
        }
        BitPairsTable { cells }
    }

    /// Reads the distance between two code bytes from the table.
    pub fn get(&self, row: u8, col: u8) -> (diff: usize)
        ensures
            diff == spec_bit_pairs_diff(row as int, col as int),
            diff == self.entry(row as int, col as int),
    {
        proof {
            use_type_invariant(self);
            assert(cell_of(self.cells@, row as int, col as int) == spec_bit_pairs_diff(
                row as int,
                col as int,
            ));
        }
        self.cells[256 * (row as usize) + col as usize] as usize
    }

    /// Computes the distance between two sequences of code bytes, of which
    /// the second is at least as long as the first, from the entries of the
    /// table.
    pub fn bit_distance(&self, x: &[u8], y: &[u8]) -> (distance: usize)
        requires
            x@.len() <= y@.len(),
            24 * x@.len() <= usize::MAX,
        ensures
            distance == spec_bit_distance(x@, y@),
    {
        let mut result: usize = 0;
        let mut ii: usize = 0;
        while ii < x.len()
            invariant
                ii <= x@.len() <= y@.len(),
                24 * x@.len() <= usize::MAX,
                result == bit_distance_upto(x@, y@, ii as nat),
                result <= 24 * ii,
            decreases x@.len() - ii,
        {
            proof {
                lemma_bit_pairs_diff_bounds(x@[ii as int] as int, y@[ii as int] as int);
            }
            result += self.get(x[ii], y[ii]);
            ii += 1;
        }
        result
    }
}

} // verus!
