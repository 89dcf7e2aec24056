//! The line index of a buffer: where its newlines are, how many lines it
//! holds, and how consecutive lines are grouped into batches.

use crate::text::{find_byte, lemma_find_either_is, NEWLINE};
use vstd::prelude::*;

verus! {

/// `offsets` lists every index of `haystack` that holds `needle`, each once,
/// in ascending order.
pub open spec fn is_offsets_of(offsets: Seq<usize>, needle: u8, haystack: Seq<u8>) -> bool {
    &&& forall|i: int, j: int| 0 <= i < j < offsets.len() ==> offsets[i] < offsets[j]
    &&& forall|i: int|
        0 <= i < offsets.len() ==> #[trigger] offsets[i] < haystack.len()
            && haystack[offsets[i] as int] == needle
    &&& forall|at: int|
        0 <= at < haystack.len() && #[trigger] haystack[at] == needle ==> exists|i: int|
            0 <= i < offsets.len() && #[trigger] offsets[i] == at
}

/// `memchr::memchr_iter`, gathered into a vector: the offsets of all the
/// bytes of `haystack` that equal `needle`, from the first to the last.
#[verifier::external_body]
pub(crate) fn find_all(needle: u8, haystack: &[u8]) -> (offsets: Vec<usize>)
    ensures
        is_offsets_of(offsets@, needle, haystack@),
{
    memchr::memchr_iter(needle, haystack).collect()
}

/// How many bytes of `bytes` equal `needle`.
pub open spec fn count_byte(bytes: Seq<u8>, needle: u8) -> nat
    decreases bytes.len(),
{
    if bytes.len() == 0 {
        0
    } else {
        count_byte(bytes.drop_last(), needle) + if bytes.last() == needle {
            1nat
        } else {
            0nat
        }
    }
}

/// A buffer that is not empty and does not end in a newline ends in a line
/// that no newline closes.
pub open spec fn ends_unterminated(bytes: Seq<u8>) -> bool {
    bytes.len() > 0 && bytes.last() != NEWLINE
}

/// The number of lines in `bytes`: one for each newline, and one more for a
/// last line that no newline closes.
pub open spec fn line_count(bytes: Seq<u8>) -> nat {
    count_byte(bytes, NEWLINE) + if ends_unterminated(bytes) {
        1nat
    } else {
        0nat
    }
}

/// The start of the line that the `k`-th newline closes: the start of the
/// buffer, or the byte after the newline before.
pub open spec fn line_start(offsets: Seq<usize>, k: int) -> int {
    if k <= 0 {
        0
    } else {
        offsets[k - 1] + 1
    }
}

/// Counting over two runs of bytes, one after the other, adds up.
pub proof fn lemma_count_byte_add(a: Seq<u8>, b: Seq<u8>, needle: u8)
    ensures
        count_byte(a + b, needle) == count_byte(a, needle) + count_byte(b, needle),
    decreases b.len(),
{
    if b.len() == 0 {
        assert(a + b =~= a);
    } else {
        assert((a + b).drop_last() =~= a + b.drop_last());
        lemma_count_byte_add(a, b.drop_last(), needle);
    }
}

/// A run of bytes without `needle` counts zero.
pub proof fn lemma_count_byte_none(bytes: Seq<u8>, needle: u8)
    requires
        forall|i: int| 0 <= i < bytes.len() ==> bytes[i] != needle,
    ensures
        count_byte(bytes, needle) == 0,
    decreases bytes.len(),
{
    if bytes.len() > 0 {
        lemma_count_byte_none(bytes.drop_last(), needle);
    }
}

/// A list of all the offsets of `needle` is as long as the count of `needle`.
pub proof fn lemma_offsets_count(offsets: Seq<usize>, needle: u8, haystack: Seq<u8>)
    requires
        is_offsets_of(offsets, needle, haystack),
    ensures
        offsets.len() == count_byte(haystack, needle),
    decreases haystack.len(),
{
    if haystack.len() == 0 {
        if offsets.len() > 0 {
            assert(offsets[0] < haystack.len());
        }
    } else {
        let shorter = haystack.drop_last();
        let end = haystack.len() - 1;
        if haystack.last() == needle {
            let i = choose|i: int| 0 <= i < offsets.len() && #[trigger] offsets[i] == end;
            if i < offsets.len() - 1 {
                assert(offsets[i] < offsets[offsets.len() - 1]);
                assert(offsets[offsets.len() - 1] < haystack.len());
            }
            let fewer = offsets.drop_last();
            assert forall|at: int|
                0 <= at < shorter.len() && #[trigger] shorter[at] == needle implies exists|j: int|
                0 <= j < fewer.len() && #[trigger] fewer[j] == at by {
                assert(haystack[at] == needle);
                let j = choose|j: int| 0 <= j < offsets.len() && #[trigger] offsets[j] == at;
                assert(fewer[j] == at);
            }
            assert forall|j: int| 0 <= j < fewer.len() implies #[trigger] fewer[j] < shorter.len()
                && shorter[fewer[j] as int] == needle by {
                assert(offsets[j] < offsets[offsets.len() - 1]);
            }
            assert(is_offsets_of(fewer, needle, shorter));
            lemma_offsets_count(fewer, needle, shorter);
        } else {
            assert forall|j: int| 0 <= j < offsets.len() implies #[trigger] offsets[j]
                < shorter.len() && shorter[offsets[j] as int] == needle by {
                assert(haystack[offsets[j] as int] == needle);
            }
            assert forall|at: int|
                0 <= at < shorter.len() && #[trigger] shorter[at] == needle implies exists|j: int|
                0 <= j < offsets.len() && #[trigger] offsets[j] == at by {
                assert(haystack[at] == needle);
            }
            assert(is_offsets_of(offsets, needle, shorter));
            lemma_offsets_count(offsets, needle, shorter);
        }
    }
}

/// The `k`-th offset is the first `needle` at or after the start of its line,
/// and after the last offset there is none.
pub proof fn lemma_next_offset(offsets: Seq<usize>, haystack: Seq<u8>, k: int)
    requires
        is_offsets_of(offsets, NEWLINE, haystack),
        0 <= k <= offsets.len(),
    ensures
        line_start(offsets, k) <= haystack.len(),
        find_byte(haystack, line_start(offsets, k), NEWLINE) == if k < offsets.len() {
            offsets[k] as int
        } else {
            haystack.len() as int
        },
{
    let start = line_start(offsets, k);
    let at = if k < offsets.len() {
        offsets[k] as int
    } else {
        haystack.len() as int
    };
    if k > 0 {
        assert(offsets[k - 1] < haystack.len());
        if k < offsets.len() {
            assert(offsets[k - 1] < offsets[k]);
        }
    }
    if k < offsets.len() {
        assert(offsets[k] < haystack.len());
    }
    assert forall|j: int| start <= j < at implies haystack[j] != NEWLINE by {
        if haystack[j] == NEWLINE {
            let i = choose|i: int| 0 <= i < offsets.len() && #[trigger] offsets[i] == j;
            if i < k {
                if i < k - 1 {
                    assert(offsets[i] < offsets[k - 1]);
                }
            } else if i > k {
                assert(offsets[k] < offsets[i]);
            }
        }
    }
    lemma_find_either_is(haystack, start, NEWLINE, NEWLINE, at);
}

/// Before the `m`-th offset stand `m` bytes that equal `needle`, and one more
/// up to and with it.
pub proof fn lemma_count_before_offset(
    offsets: Seq<usize>,
    needle: u8,
    haystack: Seq<u8>,
    m: int,
)
    requires
        is_offsets_of(offsets, needle, haystack),
        0 <= m < offsets.len(),
    ensures
        offsets[m] < haystack.len(),
        count_byte(haystack.subrange(0, offsets[m] as int), needle) == m,
        count_byte(haystack.subrange(0, offsets[m] + 1), needle) == m + 1,
{
    let at = offsets[m] as int;
    let before = haystack.subrange(0, at);
    let fewer = offsets.take(m);
    assert(offsets[m] < haystack.len());
    assert forall|i: int| 0 <= i < fewer.len() implies #[trigger] fewer[i] < before.len()
        && before[fewer[i] as int] == needle by {
        assert(offsets[i] < offsets[m]);
        assert(haystack[offsets[i] as int] == needle);
    }
    assert forall|k: int| 0 <= k < before.len() && #[trigger] before[k] == needle implies exists|
        i: int,
    | 0 <= i < fewer.len() && #[trigger] fewer[i] == k by {
        assert(haystack[k] == needle);
        let i = choose|i: int| 0 <= i < offsets.len() && #[trigger] offsets[i] == k;
        if i > m {
            assert(offsets[m] < offsets[i]);
        }
        assert(fewer[i] == k);
    }
    assert(is_offsets_of(fewer, needle, before));
    lemma_offsets_count(fewer, needle, before);
    let mark = seq![needle];
    assert(haystack.subrange(0, at + 1) =~= before + mark);
    lemma_count_byte_add(before, mark, needle);
    assert(count_byte(mark, needle) == 1) by {
        assert(mark.drop_last() =~= Seq::<u8>::empty());
        reveal_with_fuel(count_byte, 2);
    }
}

/// The count in a stretch of bytes is the count up to its end less the count
/// up to its start.
pub proof fn lemma_count_byte_between(bytes: Seq<u8>, needle: u8, from: int, to: int)
    requires
        0 <= from <= to <= bytes.len(),
    ensures
        count_byte(bytes.subrange(from, to), needle) == count_byte(bytes.subrange(0, to), needle)
            - count_byte(bytes.subrange(0, from), needle),
{
    assert(bytes.subrange(0, to) =~= bytes.subrange(0, from) + bytes.subrange(from, to));
    lemma_count_byte_add(bytes.subrange(0, from), bytes.subrange(from, to), needle);
}

/// Finds every newline of `bytes`: the line boundaries, in ascending order.
pub fn line_positions(bytes: &[u8]) -> (positions: Vec<usize>)
    ensures
        is_offsets_of(positions@, NEWLINE, bytes@),
        positions@.len() == count_byte(bytes@, NEWLINE),
{
    let positions = find_all(NEWLINE, bytes);
    proof {
        lemma_offsets_count(positions@, NEWLINE, bytes@);
    }
    positions
}

/// Counts the lines of `bytes`, a last line without a newline included.
pub fn total_lines(bytes: &[u8]) -> (lines: usize)
    ensures
        lines == line_count(bytes@),
{
    let positions = line_positions(bytes);
    let len = bytes.len();
    if len > 0 && bytes[len - 1] != NEWLINE {
        proof {
            lemma_count_byte_none(seq![bytes@.last()], NEWLINE);
            assert(bytes@ =~= bytes@.drop_last() + seq![bytes@.last()]);
            lemma_count_byte_add(bytes@.drop_last(), seq![bytes@.last()], NEWLINE);
            lemma_count_byte_bound(bytes@.drop_last(), NEWLINE);
        }
        positions.len() + 1
    } else {
        positions.len()
    }
}

/// No more bytes equal `needle` than there are bytes.
pub proof fn lemma_count_byte_bound(bytes: Seq<u8>, needle: u8)
    ensures
        count_byte(bytes, needle) <= bytes.len(),
    decreases bytes.len(),
{
    if bytes.len() > 0 {
        lemma_count_byte_bound(bytes.drop_last(), needle);
    }
}

/// A run of consecutive lines, as the bytes `start..end` of the buffer.
#[derive(Debug, Clone, Copy, PartialEq, Eq, Structural)]
pub struct Batch {
    /// The first byte of the batch.
    pub start: usize,
    /// The byte after the last one of the batch.
    pub end: usize,
}

/// `positions` can be the line boundaries of a buffer of `len` bytes: they
/// ascend and lie inside the buffer.
pub open spec fn are_boundaries(positions: Seq<usize>, len: int) -> bool {
    &&& forall|i: int, j: int| 0 <= i < j < positions.len() ==> positions[i] < positions[j]
    &&& forall|i: int| 0 <= i < positions.len() ==> #[trigger] positions[i] < len
}

/// The batch of the group of boundaries that starts with boundary `first`.
///
/// It starts at the first boundary of the group, the first batch of all at
/// the start of the buffer. It ends with the byte of the last boundary of the
/// group, a group of fewer than `batch_size` boundaries at the end of the
/// buffer.
pub open spec fn batch_from(positions: Seq<usize>, batch_size: int, len: int, first: int) -> Batch {
    Batch {
        start: if first == 0 {
            0
        } else {
            positions[first]
        },
        end: if first + batch_size <= positions.len() {
            (positions[first + batch_size - 1] + 1) as usize
        } else {
            len as usize
        },
    }
}

/// The batches of the groups from boundary `first` on.
pub open spec fn batches_from(positions: Seq<usize>, batch_size: int, len: int, first: int) -> Seq<
    Batch,
>
    decreases
        if first <= positions.len() {
            positions.len() - first
        } else {
            0
        },
{
    if first < 0 || first >= positions.len() || batch_size <= 0 {
        Seq::empty()
    } else {
        seq![batch_from(positions, batch_size, len, first)] + batches_from(
            positions,
            batch_size,
            len,
            first + batch_size,
        )
    }
}

/// The batches of a buffer: one for each group of `batch_size` consecutive
/// boundaries, and one batch that is the whole buffer where there is no
/// boundary at all.
pub open spec fn batches_of(positions: Seq<usize>, batch_size: int, len: int) -> Seq<Batch> {
    if positions.len() == 0 {
        seq![Batch { start: 0, end: len as usize }]
    } else {
        batches_from(positions, batch_size, len, 0)
    }
}

/// Groups the line boundaries of a buffer of `len` bytes into batches of
/// `batch_size` lines.
pub fn batches(positions: &[usize], batch_size: usize, len: usize) -> (groups: Vec<Batch>)
    requires
        batch_size > 0,
        are_boundaries(positions@, len as int),
    ensures
        groups@ == batches_of(positions@, batch_size as int, len as int),
        forall|k: int|
            0 <= k < groups@.len() ==> (#[trigger] groups@[k]).start <= groups@[k].end
                && groups@[k].end <= len,
        positions@.len() < batch_size ==> groups@ == seq![Batch { start: 0, end: len }],
{
    let n = positions.len();
    let mut groups: Vec<Batch> = Vec::new();
    if n == 0 {
        groups.push(Batch { start: 0, end: len });
        assert(groups@ =~= seq![Batch { start: 0, end: len }]);
        return groups;
    }
    let mut first: usize = 0;
    assert(groups@ + batches_from(positions@, batch_size as int, len as int, 0) =~= batches_of(
        positions@,
        batch_size as int,
        len as int,
    ));
    while first < n
        invariant
            n == positions@.len(),
            n > 0,
            batch_size > 0,
            first <= n,
            are_boundaries(positions@, len as int),
            groups@ + batches_from(positions@, batch_size as int, len as int, first as int)
                == batches_of(positions@, batch_size as int, len as int),
            forall|k: int|
                0 <= k < groups@.len() ==> (#[trigger] groups@[k]).start <= groups@[k].end
                    && groups@[k].end <= len,
            first == 0 ==> groups@.len() == 0,
            n < batch_size ==> first == 0 || first == n,
            n < batch_size && first > 0 ==> groups@ == seq![Batch { start: 0, end: len }],
        decreases n - first,
    {
        let start = if first == 0 {
            0
        } else {
            positions[first]
        };
        let full = n - first >= batch_size;
        let end = if full {
            positions[first + batch_size - 1] + 1
        } else {
            len
        };
        let next = if full {
            first + batch_size
        } else {
            n
        };
        proof {
            let group = batch_from(positions@, batch_size as int, len as int, first as int);
            assert(group == Batch { start, end });
            if full && first < first + batch_size - 1 {
                assert(positions@[first as int] < positions@[first + batch_size - 1]);
            }
            assert(positions@[first as int] < len);
            let rest = batches_from(positions@, batch_size as int, len as int, next as int);
            if !full {
                assert(batches_from(
                    positions@,
                    batch_size as int,
                    len as int,
                    first + batch_size,
                ) =~= rest);
            }
            assert(groups@.push(group) + rest =~= groups@ + (seq![group] + rest));
            if n < batch_size {
                assert(groups@.push(group) =~= seq![Batch { start: 0, end: len }]);
            }
        }
        groups.push(Batch { start, end });
        first = next;
    }
    assert(groups@ + Seq::<Batch>::empty() =~= groups@);
    groups
}

} // verus!
