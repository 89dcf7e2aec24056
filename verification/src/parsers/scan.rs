//! The scan that all formats share: a chunk of bytes is cut into lines, each
//! line is read by the format's line parser, and a large input is first cut
//! into sub-chunks that end on line boundaries, hold no more bytes than a
//! budget allows, and are read in parallel.

use crate::config::{lemma_views_add, lemma_views_push, views, LogEntry, LogEntryView};
use crate::lines::{
    count_byte, is_offsets_of, lemma_count_byte_add, lemma_count_byte_none, lemma_next_offset,
    line_count, line_positions, line_start,
};
use crate::parsers::Format;
use crate::text::{
    find_byte, find_last, lemma_cut_at_ascii, lemma_find_byte_in_prefix, lemma_find_byte_in_tail,
    lemma_find_either, lemma_find_either_is, lemma_find_last, scan_back, scan_byte, NEWLINE,
};
use rayon::prelude::{IntoParallelRefIterator, ParallelIterator};
use vstd::prelude::*;
use vstd::utf8::valid_utf8;

verus! {

/// The byte budget of a sub-chunk: an input of more bytes is cut into
/// sub-chunks, none of which holds more unless it is one line that is longer.
pub const CHUNK_BYTES: usize = 4194304;

/// What one line adds to the result: its entry, unless the line is shorter
/// than the format's minimum or gives no entry.
#[verifier::opaque]
pub open spec fn line_entries(format: Format, line: Seq<u8>) -> Seq<LogEntryView> {
    if line.len() >= format.min_line_len() {
        match format.line_entry(line) {
            Some(entry) => seq![entry],
            None => Seq::empty(),
        }
    } else {
        Seq::empty()
    }
}

/// What follows the first line of `bytes`, given the index `nl` at which that
/// line ends.
pub open spec fn after_line(bytes: Seq<u8>, nl: int) -> Seq<u8> {
    if 0 <= nl < bytes.len() {
        bytes.subrange(nl + 1, bytes.len() as int)
    } else {
        Seq::empty()
    }
}

/// The entries of a chunk of bytes: those of its first line, which ends
/// before the first newline or at the end, then those of the rest.
pub open spec fn chunk_entries(format: Format, bytes: Seq<u8>) -> Seq<LogEntryView>
    decreases bytes.len(),
{
    if bytes.len() == 0 {
        Seq::empty()
    } else {
        let nl = find_byte(bytes, 0, NEWLINE);
        line_entries(format, bytes.subrange(0, nl)) + chunk_entries(format, after_line(bytes, nl))
    }
}

/// Where the sub-chunk that starts at `start` ends.
///
/// What is left of the input is taken whole where it is no longer than
/// `budget`. Otherwise the sub-chunk ends after the last newline among its
/// first `budget` bytes, so that it holds as many whole lines as the budget
/// allows. Where those bytes hold no newline, the first line alone is longer
/// than the budget, and the sub-chunk is that line.
pub open spec fn chunk_end(bytes: Seq<u8>, start: int, budget: int) -> int {
    if start + budget < bytes.len() {
        let back = find_last(bytes, start, start + budget, NEWLINE);
        if back >= start {
            back + 1
        } else {
            let nl = find_byte(bytes, start + budget, NEWLINE);
            if nl < bytes.len() {
                nl + 1
            } else {
                bytes.len() as int
            }
        }
    } else {
        bytes.len() as int
    }
}

/// `ranges` cuts `bytes` into its sub-chunks: they follow one another from
/// the start to the end, none is empty, and each ends where `chunk_end` says.
pub open spec fn is_sub_chunking(ranges: Seq<(usize, usize)>, bytes: Seq<u8>, budget: int) -> bool {
    &&& ranges.len() == 0 <==> bytes.len() == 0
    &&& ranges.len() > 0 ==> ranges[0].0 == 0 && ranges.last().1 == bytes.len()
    &&& forall|i: int|
        0 <= i < ranges.len() ==> (#[trigger] ranges[i]).0 < ranges[i].1 && ranges[i].1
            == chunk_end(bytes, ranges[i].0 as int, budget)
    &&& forall|i: int| 0 <= i < ranges.len() - 1 ==> (#[trigger] ranges[i + 1]).0 == ranges[i].1
}

/// A chunk may be cut after any of its newlines: the entries of the whole are
/// those of the part before the cut, then those of the part after it.
pub proof fn lemma_chunk_entries_split(format: Format, bytes: Seq<u8>, cut: int)
    requires
        0 <= cut <= bytes.len(),
        cut > 0 ==> bytes[cut - 1] == NEWLINE,
    ensures
        chunk_entries(format, bytes) == chunk_entries(format, bytes.subrange(0, cut))
            + chunk_entries(format, bytes.subrange(cut, bytes.len() as int)),
    decreases bytes.len(),
{
    let len = bytes.len() as int;
    let before = bytes.subrange(0, cut);
    let after = bytes.subrange(cut, len);
    if cut == 0 {
        assert(after =~= bytes);
        assert(chunk_entries(format, bytes) =~= chunk_entries(format, before) + chunk_entries(
            format,
            after,
        ));
    } else {
        let nl = find_byte(bytes, 0, NEWLINE);
        lemma_find_either(bytes, 0, NEWLINE, NEWLINE);
        assert(nl < cut);
        lemma_find_byte_in_prefix(bytes, cut, NEWLINE);
        let rest = after_line(bytes, nl);
        let inner = cut - nl - 1;
        assert(before.subrange(0, nl) =~= bytes.subrange(0, nl));
        assert(after_line(before, nl) =~= rest.subrange(0, inner));
        assert(rest.subrange(inner, rest.len() as int) =~= after);
        if inner > 0 {
            assert(rest[inner - 1] == bytes[cut - 1]);
        }
        lemma_chunk_entries_split(format, rest, inner);
        assert(chunk_entries(format, bytes) =~= chunk_entries(format, before) + chunk_entries(
            format,
            after,
        ));
    }
}

/// The first line of well-formed text is well-formed text, and so is what
/// follows it: every line of a string is read as text.
pub proof fn lemma_lines_of_text(bytes: Seq<u8>)
    requires
        valid_utf8(bytes),
    ensures
        valid_utf8(bytes.subrange(0, find_byte(bytes, 0, NEWLINE))),
        valid_utf8(after_line(bytes, find_byte(bytes, 0, NEWLINE))),
{
    let nl = find_byte(bytes, 0, NEWLINE);
    lemma_find_either(bytes, 0, NEWLINE, NEWLINE);
    if nl < bytes.len() {
        lemma_cut_at_ascii(bytes, nl);
    } else {
        assert(bytes.subrange(0, nl) =~= bytes);
        assert(valid_utf8(Seq::<u8>::empty()));
    }
}

/// The number of lines of a buffer that is not empty: one for its first
/// line, and those of the rest.
pub proof fn lemma_line_count_step(bytes: Seq<u8>)
    requires
        bytes.len() > 0,
    ensures
        line_count(bytes) == 1 + line_count(after_line(bytes, find_byte(bytes, 0, NEWLINE))),
{
    let len = bytes.len() as int;
    let nl = find_byte(bytes, 0, NEWLINE);
    lemma_find_either(bytes, 0, NEWLINE, NEWLINE);
    let line = bytes.subrange(0, nl);
    lemma_count_byte_none(line, NEWLINE);
    if nl < len {
        let rest = after_line(bytes, nl);
        let mark = seq![NEWLINE];
        assert(bytes =~= line + mark + rest);
        lemma_count_byte_add(line + mark, rest, NEWLINE);
        lemma_count_byte_add(line, mark, NEWLINE);
        assert(count_byte(mark, NEWLINE) == 1) by {
            assert(mark.drop_last() =~= Seq::<u8>::empty());
            reveal_with_fuel(count_byte, 2);
        }
        if rest.len() > 0 {
            assert(rest.last() == bytes.last());
        }
    } else {
        assert(line =~= bytes);
    }
}

/// A chunk gives at most one entry for each of its lines.
pub proof fn lemma_entries_at_most_lines(format: Format, bytes: Seq<u8>)
    ensures
        chunk_entries(format, bytes).len() <= line_count(bytes),
    decreases bytes.len(),
{
    if bytes.len() > 0 {
        let nl = find_byte(bytes, 0, NEWLINE);
        reveal(line_entries);
        assert(line_entries(format, bytes.subrange(0, nl)).len() <= 1);
        lemma_line_count_step(bytes);
        lemma_entries_at_most_lines(format, after_line(bytes, nl));
    }
}

/// The entries of the tail of a chunk that starts at `start`: those of the
/// line that ends at `nl`, then those of the tail after it.
pub proof fn lemma_chunk_entries_step(format: Format, bytes: Seq<u8>, start: int, nl: int)
    requires
        0 <= start <= nl < bytes.len(),
        find_byte(bytes, start, NEWLINE) == nl,
    ensures
        chunk_entries(format, bytes.subrange(start, bytes.len() as int)) == line_entries(
            format,
            bytes.subrange(start, nl),
        ) + chunk_entries(format, bytes.subrange(nl + 1, bytes.len() as int)),
{
    let len = bytes.len() as int;
    let tail = bytes.subrange(start, len);
    lemma_find_byte_in_tail(bytes, start, NEWLINE);
    assert(tail.subrange(0, nl - start) =~= bytes.subrange(start, nl));
    assert(after_line(tail, nl - start) =~= bytes.subrange(nl + 1, len));
}

/// The entries of a tail without a newline are those of its one line.
pub proof fn lemma_chunk_entries_last(format: Format, bytes: Seq<u8>, start: int)
    requires
        0 <= start <= bytes.len(),
        find_byte(bytes, start, NEWLINE) == bytes.len(),
    ensures
        chunk_entries(format, bytes.subrange(start, bytes.len() as int)) == if start
            < bytes.len() {
            line_entries(format, bytes.subrange(start, bytes.len() as int))
        } else {
            Seq::empty()
        },
{
    let len = bytes.len() as int;
    let tail = bytes.subrange(start, len);
    lemma_find_byte_in_tail(bytes, start, NEWLINE);
    if start < len {
        assert(tail.subrange(0, tail.len() as int) =~= tail);
        assert(chunk_entries(format, after_line(tail, tail.len() as int)) =~= Seq::<
            LogEntryView,
        >::empty());
        assert(chunk_entries(format, tail) =~= line_entries(format, tail));
    }
}

/// Reads one line and, where it gives an entry, adds the entry to `out`.
pub fn push_line(format: Format, line: &[u8], out: &mut Vec<LogEntry>)
    ensures
        views(final(out)@) == views(old(out)@) + line_entries(format, line@),
{
    reveal(line_entries);
    if line.len() >= format.shortest_line() {
        match format.parse_line(line) {
            Some(entry) => {
                proof {
                    lemma_views_push(out@, entry);
                    assert(views(out@).push(entry@) =~= views(out@) + seq![entry@]);
                }
                out.push(entry);
            },
            None => {
                assert(views(out@) + Seq::<LogEntryView>::empty() =~= views(out@));
            },
        }
    } else {
        assert(views(out@) + Seq::<LogEntryView>::empty() =~= views(out@));
    }
}

/// Reads a chunk line by line and adds the entries of its lines to `out`, in
/// the order of the lines.
pub fn parse_chunk(format: Format, bytes: &[u8], out: &mut Vec<LogEntry>)
    ensures
        views(final(out)@) == views(old(out)@) + chunk_entries(format, bytes@),
{
    let positions = line_positions(bytes);
    let len = bytes.len();
    let ghost before = views(out@);
    let mut start: usize = 0;
    let mut k: usize = 0;
    assert(bytes@.subrange(0, len as int) =~= bytes@);
    while k < positions.len()
        invariant
            is_offsets_of(positions@, NEWLINE, bytes@),
            len == bytes@.len(),
            k <= positions.len(),
            start == line_start(positions@, k as int),
            start <= len,
            views(out@) + chunk_entries(format, bytes@.subrange(start as int, len as int))
                == before + chunk_entries(format, bytes@),
        decreases positions.len() - k,
    {
        let nl = positions[k];
        let ghost sofar = views(out@);
        proof {
            lemma_next_offset(positions@, bytes@, k as int);
            lemma_find_either(bytes@, start as int, NEWLINE, NEWLINE);
            lemma_chunk_entries_step(format, bytes@, start as int, nl as int);
        }
        push_line(format, &bytes[start..nl], out);
        proof {
            let line = line_entries(format, bytes@.subrange(start as int, nl as int));
            let rest = chunk_entries(format, bytes@.subrange(nl + 1, len as int));
            assert((sofar + line) + rest =~= sofar + (line + rest));
        }
        start = nl + 1;
        k += 1;
    }
    proof {
        lemma_next_offset(positions@, bytes@, k as int);
        lemma_chunk_entries_last(format, bytes@, start as int);
    }
    if start < len {
        push_line(format, &bytes[start..len], out);
    } else {
        assert(views(out@) + Seq::<LogEntryView>::empty() =~= views(out@));
    }
}

/// Reads a chunk in one piece.
pub fn parse_single(format: Format, bytes: &[u8]) -> (entries: Vec<LogEntry>)
    ensures
        views(entries@) == chunk_entries(format, bytes@),
{
    let mut out: Vec<LogEntry> = Vec::with_capacity(bytes.len() / 80);
    assert(views(out@) =~= Seq::<LogEntryView>::empty());
    parse_chunk(format, bytes, &mut out);
    assert(Seq::<LogEntryView>::empty() + chunk_entries(format, bytes@) =~= chunk_entries(
        format,
        bytes@,
    ));
    out
}

/// Reads the bytes from `start` up to `end` as a chunk of their own.
pub fn parse_range(format: Format, bytes: &[u8], start: usize, end: usize) -> (entries: Vec<
    LogEntry,
>)
    requires
        start <= end <= bytes@.len(),
    ensures
        views(entries@) == chunk_entries(format, bytes@.subrange(start as int, end as int)),
{
    parse_single(format, &bytes[start..end])
}

/// Cuts an input into sub-chunks of at most `budget` bytes that end on line
/// boundaries; a line that is longer than the budget is a sub-chunk of its
/// own.
pub fn split_ranges(bytes: &[u8], budget: usize) -> (ranges: Vec<(usize, usize)>)
    ensures
        is_sub_chunking(ranges@, bytes@, budget as int),
{
    let len = bytes.len();
    let mut ranges: Vec<(usize, usize)> = Vec::new();
    let mut start: usize = 0;
    while start < len
        invariant
            len == bytes@.len(),
            start <= len,
            ranges@.len() == 0 <==> start == 0,
            ranges@.len() > 0 ==> ranges@[0].0 == 0 && ranges@.last().1 == start,
            forall|i: int|
                0 <= i < ranges@.len() ==> (#[trigger] ranges@[i]).0 < ranges@[i].1 && ranges@[i].1
                    == chunk_end(bytes@, ranges@[i].0 as int, budget as int),
            forall|i: int|
                0 <= i < ranges@.len() - 1 ==> (#[trigger] ranges@[i + 1]).0 == ranges@[i].1,
        decreases len - start,
    {
        proof {
            lemma_find_either(bytes@, start + budget, NEWLINE, NEWLINE);
            lemma_find_last(bytes@, start as int, start + budget, NEWLINE);
        }
        let end = if len - start > budget {
            match scan_back(bytes, start, start + budget, NEWLINE) {
                Some(nl) => nl + 1,
                None => {
                    let nl = scan_byte(bytes, start + budget, NEWLINE);
                    if nl < len {
                        nl + 1
                    } else {
                        len
                    }
                },
            }
        } else {
            len
        };
        ranges.push((start, end));
        start = end;
    }
    ranges
}

/// rayon's `par_iter().map(..).collect()` over `ranges`: each range is read by
/// `parse_range`, on whatever thread, and the results come back in the order
/// of the ranges, one for each.
#[verifier::external_body]
fn parse_ranges(format: Format, bytes: &[u8], ranges: &Vec<(usize, usize)>) -> (parts: Vec<
    Vec<LogEntry>,
>)
    requires
        forall|i: int|
            0 <= i < ranges@.len() ==> (#[trigger] ranges@[i]).0 <= ranges@[i].1 && ranges@[i].1
                <= bytes@.len(),
    ensures
        parts@.len() == ranges@.len(),
        forall|i: int|
            0 <= i < ranges@.len() ==> views((#[trigger] parts@[i])@) == chunk_entries(
                format,
                bytes@.subrange(ranges@[i].0 as int, ranges@[i].1 as int),
            ),
{
    ranges.par_iter().map(|r| parse_range(format, bytes, r.0, r.1)).collect()
}

/// The end of the `k`-th sub-chunk is a line boundary.
pub proof fn lemma_sub_chunk_ends_line(
    ranges: Seq<(usize, usize)>,
    bytes: Seq<u8>,
    budget: int,
    k: int,
)
    requires
        is_sub_chunking(ranges, bytes, budget),
        0 <= budget,
        0 <= k < ranges.len(),
    ensures
        ranges[k].1 <= bytes.len(),
        ranges[k].1 < bytes.len() ==> bytes[ranges[k].1 - 1] == NEWLINE,
{
    let start = ranges[k].0 as int;
    if start + budget < bytes.len() {
        lemma_find_either(bytes, start + budget, NEWLINE, NEWLINE);
        lemma_find_last(bytes, start, start + budget, NEWLINE);
    }
}

/// A sub-chunk holds no more bytes than the budget, unless it is a single
/// line: then no newline stands in it before its last byte.
pub proof fn lemma_sub_chunk_capped(
    ranges: Seq<(usize, usize)>,
    bytes: Seq<u8>,
    budget: int,
    k: int,
)
    requires
        is_sub_chunking(ranges, bytes, budget),
        0 <= budget,
        0 <= k < ranges.len(),
    ensures
        ranges[k].1 - ranges[k].0 <= budget || find_byte(bytes, ranges[k].0 as int, NEWLINE)
            >= ranges[k].1 - 1,
{
    let start = ranges[k].0 as int;
    if start + budget < bytes.len() {
        let back = find_last(bytes, start, start + budget, NEWLINE);
        lemma_find_last(bytes, start, start + budget, NEWLINE);
        if back < start {
            let nl = find_byte(bytes, start + budget, NEWLINE);
            lemma_find_either(bytes, start + budget, NEWLINE, NEWLINE);
            lemma_find_either_is(bytes, start, NEWLINE, NEWLINE, nl);
        }
    }
}

/// Reads an input in sub-chunks of at most `budget` bytes, in parallel, and
/// puts the results together in the order of the sub-chunks: the entries are
/// those of the input read in one piece.
pub fn parse_parallel(format: Format, bytes: &[u8], budget: usize) -> (entries: Vec<LogEntry>)
    ensures
        views(entries@) == chunk_entries(format, bytes@),
{
    let ranges = split_ranges(bytes, budget);
    proof {
        assert forall|i: int| 0 <= i < ranges@.len() implies (#[trigger] ranges@[i]).0
            <= ranges@[i].1 && ranges@[i].1 <= bytes@.len() by {
            lemma_sub_chunk_ends_line(ranges@, bytes@, budget as int, i);
        }
    }
    let parts = parse_ranges(format, bytes, &ranges);
    let mut result: Vec<LogEntry> = Vec::new();
    let ghost whole = bytes@;
    let ghost cuts = ranges@;
    assert(views(result@) =~= chunk_entries(format, whole.subrange(0, 0)));
    for part in it: parts
        invariant
            it.seq() == parts@,
            parts@.len() == cuts.len(),
            is_sub_chunking(cuts, whole, budget as int),
            forall|i: int|
                0 <= i < cuts.len() ==> views((#[trigger] parts@[i])@) == chunk_entries(
                    format,
                    whole.subrange(cuts[i].0 as int, cuts[i].1 as int),
                ),
            views(result@) == chunk_entries(
                format,
                whole.subrange(
                    0,
                    if it.index() == 0 {
                        0
                    } else {
                        cuts[it.index() - 1].1 as int
                    },
                ),
            ),
    {
        let mut part = part;
        proof {
            let k = it.index();
            let from = cuts[k].0 as int;
            let to = cuts[k].1 as int;
            lemma_sub_chunk_ends_line(cuts, whole, budget as int, k);
            if k > 0 {
                lemma_sub_chunk_ends_line(cuts, whole, budget as int, k - 1);
                assert(cuts[k - 1 + 1].0 == cuts[k - 1].1);
            }
            let upto = whole.subrange(0, to);
            assert(upto.subrange(0, from) =~= whole.subrange(0, from));
            assert(upto.subrange(from, to) =~= whole.subrange(from, to));
            if from > 0 {
                assert(upto[from - 1] == whole[from - 1]);
            }
            lemma_chunk_entries_split(format, upto, from);
            lemma_views_add(result@, part@);
            assert(part@ == parts@[k]@);
        }
        result.append(&mut part);
    }
    proof {
        if cuts.len() > 0 {
            assert(whole.subrange(0, whole.len() as int) =~= whole);
        } else {
            assert(whole.subrange(0, 0) =~= whole);
        }
    }
    result
}

/// Reads an input of the given format: in one piece up to `CHUNK_BYTES`
/// bytes, in parallel sub-chunks of that budget above that. Either way the entries are those
/// of the lines of the input, in the order of the lines, and there are no
/// more of them than lines.
pub fn parse_format(format: Format, bytes: &[u8]) -> (entries: Vec<LogEntry>)
    ensures
        views(entries@) == chunk_entries(format, bytes@),
        entries@.len() <= line_count(bytes@),
{
    let entries = if bytes.len() > CHUNK_BYTES {
        parse_parallel(format, bytes, CHUNK_BYTES)
    } else {
        parse_single(format, bytes)
    };
    proof {
        lemma_entries_at_most_lines(format, bytes@);
    }
    entries
}

} // verus!
