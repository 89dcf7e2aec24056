//! One run over a buffer: what each batch gives, and why the order in which
//! the batches are worked off does not change what the run gives.

use crate::config::{views, LogEntry, LogEntryView};
use crate::lines::{
    batch_from, batches_from, batches_of, count_byte, ends_unterminated, is_offsets_of,
    lemma_count_before_offset, lemma_count_byte_between, lemma_offsets_count, line_count, Batch,
};
use crate::normalizer::normalize;
use crate::parsers::scan::{chunk_entries, lemma_entries_at_most_lines, parse_format};
use crate::parsers::Format;
use crate::text::NEWLINE;
use vstd::multiset::Multiset;
use vstd::prelude::*;
use vstd::seq_lib::{lemma_fold_right_permutation, lemma_multiset_commutative};

verus! {

/// The entries of one batch of a buffer.
pub open spec fn batch_entries(format: Format, bytes: Seq<u8>, batch: Batch) -> Seq<LogEntryView> {
    chunk_entries(format, bytes.subrange(batch.start as int, batch.end as int))
}

/// What the batches of a run give, batch by batch.
pub open spec fn batch_outputs(format: Format, bytes: Seq<u8>, groups: Seq<Batch>) -> Seq<
    Seq<LogEntryView>,
> {
    groups.map_values(|batch: Batch| batch_entries(format, bytes, batch))
}

/// The entries of a run, in no order: those of all of its batches.
pub open spec fn run_entries(outputs: Seq<Seq<LogEntryView>>) -> Multiset<LogEntryView> {
    outputs.flatten().to_multiset()
}

/// Parses and normalizes one batch of a buffer.
pub fn process_batch(format: Format, bytes: &[u8], batch: Batch) -> (entries: Vec<LogEntry>)
    requires
        batch.start <= batch.end <= bytes@.len(),
    ensures
        views(entries@) == batch_entries(format, bytes@, batch),
        entries@.len() <= line_count(bytes@.subrange(batch.start as int, batch.end as int)),
{
    normalize(parse_format(format, &bytes[batch.start..batch.end]))
}

/// Adds the entries of one batch to a bag of entries.
pub open spec fn add_batch(part: Seq<LogEntryView>, bag: Multiset<LogEntryView>) -> Multiset<
    LogEntryView,
> {
    part.to_multiset().add(bag)
}

/// Folding the batches into a bag gives the bag of all their entries.
proof fn lemma_fold_is_bag(outputs: Seq<Seq<LogEntryView>>, bag: Multiset<LogEntryView>)
    ensures
        outputs.fold_right(
            |part: Seq<LogEntryView>, bag: Multiset<LogEntryView>| add_batch(part, bag),
            bag,
        ) == run_entries(outputs).add(bag),
    decreases outputs.len(),
{
    broadcast use vstd::seq_lib::group_to_multiset_ensures;

    let f = |part: Seq<LogEntryView>, bag: Multiset<LogEntryView>| add_batch(part, bag);
    if outputs.len() == 0 {
        assert(outputs.flatten() =~= Seq::<LogEntryView>::empty());
        assert(run_entries(outputs).add(bag) =~= bag);
    } else {
        let before = outputs.drop_last();
        let last = outputs.last();
        lemma_fold_is_bag(before, f(last, bag));
        assert(outputs =~= before.push(last));
        before.lemma_flatten_push(last);
        lemma_multiset_commutative(before.flatten(), last);
        assert(run_entries(before).add(last.to_multiset().add(bag)) =~= run_entries(outputs).add(
            bag,
        ));
    }
}

/// Two runs over the same buffer, with the same format and the same batches,
/// give the same entries, in whatever order the batches of each run arrive.
pub proof fn lemma_order_of_arrival(
    format: Format,
    bytes: Seq<u8>,
    groups: Seq<Batch>,
    first: Seq<Seq<LogEntryView>>,
    second: Seq<Seq<LogEntryView>>,
)
    requires
        first.to_multiset() == batch_outputs(format, bytes, groups).to_multiset(),
        second.to_multiset() == batch_outputs(format, bytes, groups).to_multiset(),
    ensures
        run_entries(first) == run_entries(second),
        run_entries(first) == run_entries(batch_outputs(format, bytes, groups)),
{
    let f = |part: Seq<LogEntryView>, bag: Multiset<LogEntryView>| add_batch(part, bag);
    let none = Multiset::<LogEntryView>::empty();
    let outputs = batch_outputs(format, bytes, groups);
    assert forall|x: Seq<LogEntryView>, y: Seq<LogEntryView>, v: Multiset<LogEntryView>|
        #[trigger] f(x, f(y, v)) == f(y, f(x, v)) by {
        assert(x.to_multiset().add(y.to_multiset().add(v)) =~= y.to_multiset().add(
            x.to_multiset().add(v),
        ));
    }
    lemma_fold_right_permutation(first, outputs, f, none);
    lemma_fold_right_permutation(second, outputs, f, none);
    lemma_fold_is_bag(first, none);
    lemma_fold_is_bag(second, none);
    lemma_fold_is_bag(outputs, none);
    assert(run_entries(first).add(none) =~= run_entries(first));
    assert(run_entries(second).add(none) =~= run_entries(second));
    assert(run_entries(outputs).add(none) =~= run_entries(outputs));
}

/// The lines of the batch that starts with boundary `first`: as many as the
/// group has boundaries, and in a group that is not full also the last line
/// of the buffer where no newline closes it.
proof fn lemma_batch_lines(bytes: Seq<u8>, positions: Seq<usize>, batch_size: int, first: int)
    requires
        is_offsets_of(positions, NEWLINE, bytes),
        bytes.len() <= usize::MAX,
        batch_size > 0,
        0 <= first < positions.len(),
    ensures
        ({
            let batch = batch_from(positions, batch_size, bytes.len() as int, first);
            &&& batch.start <= batch.end <= bytes.len()
            &&& line_count(bytes.subrange(batch.start as int, batch.end as int)) == if first
                + batch_size <= positions.len() {
                batch_size
            } else {
                positions.len() - first + if ends_unterminated(bytes) {
                    1int
                } else {
                    0int
                }
            }
        }),
{
    let len = bytes.len() as int;
    let n = positions.len() as int;
    let batch = batch_from(positions, batch_size, len, first);
    let start = batch.start as int;
    let end = batch.end as int;
    lemma_count_before_offset(positions, NEWLINE, bytes, first);
    if first == 0 {
        assert(bytes.subrange(0, 0) =~= Seq::<u8>::empty());
    }
    assert(count_byte(bytes.subrange(0, start), NEWLINE) == first);
    if first + batch_size <= n {
        let last = first + batch_size - 1;
        lemma_count_before_offset(positions, NEWLINE, bytes, last);
        if first < last {
            assert(positions[first] < positions[last]);
        }
        lemma_count_byte_between(bytes, NEWLINE, start, end);
        assert(bytes.subrange(start, end).last() == bytes[positions[last] as int]);
    } else {
        assert(bytes.subrange(0, len) =~= bytes);
        lemma_offsets_count(positions, NEWLINE, bytes);
        lemma_count_byte_between(bytes, NEWLINE, start, end);
        assert(bytes.subrange(start, end).last() == bytes.last());
    }
}

/// The batches from boundary `first` on give no more entries than the
/// boundaries from there on, and one more for a last line that no newline
/// closes.
proof fn lemma_batches_at_most_lines(
    format: Format,
    bytes: Seq<u8>,
    positions: Seq<usize>,
    batch_size: int,
    first: int,
)
    requires
        is_offsets_of(positions, NEWLINE, bytes),
        bytes.len() <= usize::MAX,
        batch_size > 0,
        0 <= first,
    ensures
        batch_outputs(
            format,
            bytes,
            batches_from(positions, batch_size, bytes.len() as int, first),
        ).flatten().len() <= if first < positions.len() {
            positions.len() - first + if ends_unterminated(bytes) {
                1int
            } else {
                0int
            }
        } else {
            0int
        },
    decreases
        if first <= positions.len() {
            positions.len() - first
        } else {
            0
        },
{
    let len = bytes.len() as int;
    let groups = batches_from(positions, batch_size, len, first);
    let outputs = batch_outputs(format, bytes, groups);
    if first < positions.len() {
        let batch = batch_from(positions, batch_size, len, first);
        let later = batches_from(positions, batch_size, len, first + batch_size);
        lemma_batch_lines(bytes, positions, batch_size, first);
        lemma_entries_at_most_lines(format, bytes.subrange(batch.start as int, batch.end as int));
        lemma_batches_at_most_lines(format, bytes, positions, batch_size, first + batch_size);
        assert(groups.drop_first() =~= later);
        assert(outputs.drop_first() =~= batch_outputs(format, bytes, later));
        assert(outputs.first() == batch_entries(format, bytes, batch));
    } else {
        assert(outputs.flatten() =~= Seq::<LogEntryView>::empty());
    }
}

/// A run gives no more entries than the buffer has lines, whatever the size
/// of its batches.
pub proof fn lemma_run_at_most_lines(
    format: Format,
    bytes: Seq<u8>,
    positions: Seq<usize>,
    batch_size: int,
)
    requires
        is_offsets_of(positions, NEWLINE, bytes),
        bytes.len() <= usize::MAX,
        batch_size > 0,
    ensures
        batch_outputs(
            format,
            bytes,
            batches_of(positions, batch_size, bytes.len() as int),
        ).flatten().len() <= line_count(bytes),
{
    let len = bytes.len() as int;
    let groups = batches_of(positions, batch_size, len);
    let outputs = batch_outputs(format, bytes, groups);
    if positions.len() == 0 {
        assert(bytes.subrange(0, len) =~= bytes);
        lemma_entries_at_most_lines(format, bytes);
        assert(outputs.drop_first().flatten() =~= Seq::<LogEntryView>::empty());
        assert(outputs.first() == chunk_entries(format, bytes));
    } else {
        lemma_offsets_count(positions, NEWLINE, bytes);
        lemma_batches_at_most_lines(format, bytes, positions, batch_size, 0);
    }
}

} // verus!
