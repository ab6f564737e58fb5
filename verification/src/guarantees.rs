//! What holds of every scan, stated over the mathematical model and proved.

use crate::error::Failure;
use crate::matcher::{start_boundary, KEYWORD};
use crate::output::{output_of, output_path, planned, split, OutputText};
use crate::scanner::{
    consistent, initial, is_end_boundary, lemma_run_concat, run, step, transition, ScanModel,
    END_MARKER,
};
use crate::store::{has_name, ModuleText};
use crate::text::terminated;
use vstd::prelude::*;
use vstd::seq_lib::lemma_flatten_concat;

verus! {

/// The text of `lines`, each followed by its line feed, in one piece.
pub open spec fn text_of_lines(lines: Seq<Seq<char>>) -> Seq<char> {
    lines.map_values(|line: Seq<char>| terminated(line)).flatten()
}

/// Lines between modules: none of them is a start boundary.
pub open spec fn is_gap(lines: Seq<Seq<char>>) -> bool {
    forall|i: int| 0 <= i < lines.len() ==> start_boundary(#[trigger] lines[i]) is None
}

/// Lines none of which is an end boundary.
pub open spec fn no_end_boundary(lines: Seq<Seq<char>>) -> bool {
    forall|i: int| 0 <= i < lines.len() ==> !is_end_boundary(#[trigger] lines[i])
}

/// A well-formed module block: a start boundary, then lines that are not
/// end boundaries, then the end boundary.
pub open spec fn is_block(lines: Seq<Seq<char>>) -> bool {
    &&& lines.len() >= 2
    &&& start_boundary(lines.first()) is Some
    &&& no_end_boundary(lines.subrange(1, lines.len() - 1))
    &&& is_end_boundary(lines.last())
}

/// The record that a well-formed block becomes: the name that its first
/// line captures, and its lines from the first through the last.
pub open spec fn record_of(block: Seq<Seq<char>>) -> ModuleText {
    ModuleText { name: start_boundary(block.first())->Some_0, body: text_of_lines(block) }
}

/// A stretch of input: lines that belong to no module, then one module
/// block.
pub struct Section {
    pub gap: Seq<Seq<char>>,
    pub block: Seq<Seq<char>>,
}

/// Every section is a gap followed by a well-formed block.
pub open spec fn well_formed(sections: Seq<Section>) -> bool {
    forall|i: int|
        0 <= i < sections.len() ==> is_gap((#[trigger] sections[i]).gap) && is_block(
            sections[i].block,
        )
}

/// The blocks of `sections` carry pairwise distinct names.
pub open spec fn distinct_blocks(sections: Seq<Section>) -> bool {
    forall|i: int, j: int|
        0 <= i < j < sections.len() ==> record_of((#[trigger] sections[i]).block).name
            != record_of((#[trigger] sections[j]).block).name
}

/// The records of the blocks of `sections`, in order.
pub open spec fn records_of(sections: Seq<Section>) -> Seq<ModuleText> {
    sections.map_values(|s: Section| record_of(s.block))
}

/// The lines of `sections` in order, followed by `tail`.
pub open spec fn stream(sections: Seq<Section>, tail: Seq<Seq<char>>) -> Seq<Seq<char>> {
    sections.map_values(|s: Section| s.gap + s.block).flatten() + tail
}

/// The text of two runs of lines, one after the other, is the two texts one
/// after the other.
pub proof fn lemma_text_concat(head: Seq<Seq<char>>, tail: Seq<Seq<char>>)
    ensures
        text_of_lines(head + tail) == text_of_lines(head) + text_of_lines(tail),
{
    let ended = |line: Seq<char>| terminated(line);
    assert((head + tail).map_values(ended) =~= head.map_values(ended) + tail.map_values(ended));
    lemma_flatten_concat(head.map_values(ended), tail.map_values(ended));
}

/// The text of a single line is the line with its line feed.
pub proof fn lemma_text_single(line: Seq<char>)
    ensures
        text_of_lines(seq![line]) == terminated(line),
{
    let ended = |line: Seq<char>| terminated(line);
    assert(seq![line].map_values(ended) =~= seq![terminated(line)]);
    seq![terminated(line)].lemma_flatten_one_element();
}

/// The lines of sections one after the other are the lines of the first
/// sections, then the lines of the others.
pub proof fn lemma_stream_concat(front: Seq<Section>, back: Seq<Section>, tail: Seq<Seq<char>>)
    ensures
        stream(front + back, tail) == stream(front, Seq::empty()) + stream(back, tail),
{
    let lines = |s: Section| s.gap + s.block;
    assert((front + back).map_values(lines) =~= front.map_values(lines) + back.map_values(lines));
    lemma_flatten_concat(front.map_values(lines), back.map_values(lines));
    assert(stream(front + back, tail) =~= stream(front, Seq::empty()) + stream(back, tail));
}

/// The lines of one section are its gap and then its block.
pub proof fn lemma_stream_single(section: Section)
    ensures
        stream(seq![section], Seq::empty()) == section.gap + section.block,
{
    let lines = |s: Section| s.gap + s.block;
    assert(seq![section].map_values(lines) =~= seq![section.gap + section.block]);
    seq![section.gap + section.block].lemma_flatten_one_element();
    assert(stream(seq![section], Seq::empty()) =~= section.gap + section.block);
}

/// Every move keeps a consistent state consistent, and leaves the sealed
/// records in place: a record, once sealed, keeps its position and its text.
pub proof fn step_keeps_consistency(m: ScanModel, line: Seq<char>, opens: Option<Seq<char>>)
    requires
        consistent(m),
        transition(m, line, opens) is Ok,
    ensures
        consistent(transition(m, line, opens)->Ok_0),
        m.sealed.is_prefix_of(transition(m, line, opens)->Ok_0.sealed),
{
    let next = transition(m, line, opens)->Ok_0;
    if m.open is Some && is_end_boundary(line) {
        let grown = next.sealed.last();
        assert forall|i: int, j: int| 0 <= i < j < next.sealed.len() implies (
        #[trigger] next.sealed[i]).name != (#[trigger] next.sealed[j]).name by {
            if j == m.sealed.len() {
                assert(m.sealed[i].name != grown.name);
            } else {
                assert(m.sealed[i].name != m.sealed[j].name);
            }
        }
    }
}

/// Every run from a consistent state ends in a consistent state, with the
/// records that were sealed before still in front: names in the store stay
/// unique, and the order of sealing is the order of the store.
pub proof fn run_keeps_consistency(m: ScanModel, lines: Seq<Seq<char>>)
    requires
        consistent(m),
        run(m, lines) is Ok,
    ensures
        consistent(run(m, lines)->Ok_0),
        m.sealed.is_prefix_of(run(m, lines)->Ok_0.sealed),
    decreases lines.len(),
{
    if lines.len() > 0 {
        step_keeps_consistency(m, lines.first(), start_boundary(lines.first()));
        let next = step(m, lines.first())->Ok_0;
        run_keeps_consistency(next, lines.drop_first());
    }
}

/// Between modules, a line that is no start boundary leaves no trace: the
/// state after it is the state before it.
pub proof fn gap_leaves_no_trace(m: ScanModel, gap: Seq<Seq<char>>)
    requires
        m.open is None,
        is_gap(gap),
    ensures
        run(m, gap) == Ok::<ScanModel, Seq<char>>(m),
    decreases gap.len(),
{
    if gap.len() > 0 {
        assert(start_boundary(gap[0]) is None);
        assert forall|i: int| 0 <= i < gap.drop_first().len() implies start_boundary(
            #[trigger] gap.drop_first()[i],
        ) is None by {
            assert(gap.drop_first()[i] == gap[i + 1]);
        }
        gap_leaves_no_trace(m, gap.drop_first());
    }
}

/// A line that is met between modules and is no start boundary can be taken
/// out of the input without any change to the outcome: it is in no record.
pub proof fn dropped_line_changes_nothing(
    m: ScanModel,
    before: Seq<Seq<char>>,
    line: Seq<char>,
    after: Seq<Seq<char>>,
)
    requires
        run(m, before) is Ok,
        run(m, before)->Ok_0.open is None,
        start_boundary(line) is None,
    ensures
        run(m, before + seq![line] + after) == run(m, before + after),
{
    let mid = run(m, before)->Ok_0;
    assert(is_gap(seq![line]));
    gap_leaves_no_trace(mid, seq![line]);
    lemma_run_concat(mid, seq![line], after);
    lemma_run_concat(m, before, seq![line] + after);
    lemma_run_concat(m, before, after);
    assert(before + seq![line] + after =~= before + (seq![line] + after));
}

/// A start boundary that indentation has moved off column zero, be it by a
/// single space, is none: the line opens no module, and between modules it
/// leaves no trace.
pub proof fn indented_start_opens_nothing(m: ScanModel, indent: Seq<char>, line: Seq<char>)
    requires
        m.open is None,
        indent.len() > 0,
        indent[0] != KEYWORD@[0],
    ensures
        start_boundary(indent + line) is None,
        step(m, indent + line) == Ok::<ScanModel, Seq<char>>(m),
{
    reveal_strlit("module");
    let moved = indent + line;
    if KEYWORD@.is_prefix_of(moved) {
        assert(moved.subrange(0, KEYWORD@.len() as int)[0] == KEYWORD@[0]);
    }
}

/// Inside a module, lines that are not the end boundary join the body and
/// do nothing else, whatever they look like.
pub proof fn body_lines_join_the_record(m: ScanModel, lines: Seq<Seq<char>>)
    requires
        m.open is Some,
        no_end_boundary(lines),
    ensures
        run(m, lines) == Ok::<ScanModel, Seq<char>>(
            ScanModel {
                sealed: m.sealed,
                open: Some(
                    ModuleText {
                        name: m.open->Some_0.name,
                        body: m.open->Some_0.body + text_of_lines(lines),
                    },
                ),
            },
        ),
    decreases lines.len(),
{
    let rec = m.open->Some_0;
    if lines.len() == 0 {
        assert(text_of_lines(lines) =~= Seq::<char>::empty());
        assert(rec.body + text_of_lines(lines) =~= rec.body);
    } else {
        assert(!is_end_boundary(lines[0]));
        let next = step(m, lines.first())->Ok_0;
        assert forall|i: int| 0 <= i < lines.drop_first().len() implies !is_end_boundary(
            #[trigger] lines.drop_first()[i],
        ) by {
            assert(lines.drop_first()[i] == lines[i + 1]);
        }
        body_lines_join_the_record(next, lines.drop_first());
        assert(lines =~= seq![lines.first()] + lines.drop_first());
        lemma_text_concat(seq![lines.first()], lines.drop_first());
        lemma_text_single(lines.first());
        assert((rec.body + terminated(lines.first())) + text_of_lines(lines.drop_first())
            =~= rec.body + text_of_lines(lines));
    }
}

/// The end marker with anything behind it is no end boundary: in a module
/// it is body text like any other line, and the module stays open.
pub proof fn marker_with_trailing_text_is_body(m: ScanModel, extra: Seq<char>)
    requires
        m.open is Some,
        extra.len() > 0,
    ensures
        !is_end_boundary(END_MARKER@ + extra),
        step(m, END_MARKER@ + extra) == Ok::<ScanModel, Seq<char>>(
            ScanModel {
                sealed: m.sealed,
                open: Some(
                    ModuleText {
                        name: m.open->Some_0.name,
                        body: m.open->Some_0.body + terminated(END_MARKER@ + extra),
                    },
                ),
            },
        ),
{
    assert((END_MARKER@ + extra).len() != END_MARKER@.len());
}

/// A well-formed block whose name is not yet sealed becomes one record,
/// sealed behind the others: the captured name and the block's own lines.
pub proof fn block_becomes_record(m: ScanModel, block: Seq<Seq<char>>)
    requires
        m.open is None,
        is_block(block),
        !has_name(m.sealed, record_of(block).name),
    ensures
        run(m, block) == Ok::<ScanModel, Seq<char>>(
            ScanModel { sealed: m.sealed.push(record_of(block)), open: None },
        ),
{
    let name = record_of(block).name;
    let head = seq![block.first()];
    let middle = block.subrange(1, block.len() - 1);
    let foot = seq![block.last()];
    assert(block =~= head + (middle + foot));
    let opened = ScanModel {
        sealed: m.sealed,
        open: Some(ModuleText { name, body: terminated(block.first()) }),
    };
    assert(run(m, head) == Ok::<ScanModel, Seq<char>>(opened)) by {
        assert(head.drop_first() =~= Seq::<Seq<char>>::empty());
        assert(step(m, head.first()) == Ok::<ScanModel, Seq<char>>(opened));
        assert(run(opened, head.drop_first()) == Ok::<ScanModel, Seq<char>>(opened));
    }
    body_lines_join_the_record(opened, middle);
    let filled = run(opened, middle)->Ok_0;
    let sealed = ScanModel { sealed: m.sealed.push(record_of(block)), open: None };
    assert(run(filled, foot) == Ok::<ScanModel, Seq<char>>(sealed)) by {
        assert(foot.drop_first() =~= Seq::<Seq<char>>::empty());
        lemma_text_concat(head, middle + foot);
        lemma_text_concat(middle, foot);
        lemma_text_single(block.first());
        lemma_text_single(block.last());
        assert(filled.open->Some_0.body + terminated(block.last()) =~= text_of_lines(block));
        assert(step(filled, foot.first()) == Ok::<ScanModel, Seq<char>>(sealed));
        assert(run(sealed, foot.drop_first()) == Ok::<ScanModel, Seq<char>>(sealed));
    }
    lemma_run_concat(opened, middle, foot);
    lemma_run_concat(m, head, middle + foot);
}

/// Input made of gaps and well-formed blocks, scanned from a state with no
/// module open: if the block names differ from one another and from the
/// names sealed before, each block becomes one record, in the order of the
/// blocks, and the lines of the gaps and of `tail` are in none of them.
pub proof fn sections_become_records(m: ScanModel, sections: Seq<Section>, tail: Seq<Seq<char>>)
    requires
        m.open is None,
        well_formed(sections),
        is_gap(tail),
        distinct_blocks(sections),
        forall|i: int|
            0 <= i < sections.len() ==> !has_name(
                m.sealed,
                record_of((#[trigger] sections[i]).block).name,
            ),
    ensures
        run(m, stream(sections, tail)) == Ok::<ScanModel, Seq<char>>(
            ScanModel { sealed: m.sealed + records_of(sections), open: None },
        ),
    decreases sections.len(),
{
    if sections.len() == 0 {
        assert(stream(sections, tail) =~= tail);
        gap_leaves_no_trace(m, tail);
        assert(m.sealed + records_of(sections) =~= m.sealed);
    } else {
        let first = sections.first();
        let rest = sections.drop_first();
        let record = record_of(first.block);
        let next = ScanModel { sealed: m.sealed.push(record), open: None };
        assert(is_gap(first.gap) && is_block(first.block));
        gap_leaves_no_trace(m, first.gap);
        block_becomes_record(m, first.block);
        assert forall|i: int| 0 <= i < rest.len() implies !has_name(
            next.sealed,
            record_of((#[trigger] rest[i]).block).name,
        ) by {
            assert(rest[i] == sections[i + 1]);
            let name = record_of(rest[i].block).name;
            assert(record_of(sections[0].block).name != record_of(sections[i + 1].block).name);
            if has_name(next.sealed, name) {
                let k = choose|k: int|
                    0 <= k < next.sealed.len() && (#[trigger] next.sealed[k]).name == name;
                if k < m.sealed.len() {
                    assert(m.sealed[k].name == name);
                }
            }
        }
        assert(well_formed(rest)) by {
            assert forall|i: int| 0 <= i < rest.len() implies is_gap((#[trigger] rest[i]).gap)
                && is_block(rest[i].block) by {
                assert(rest[i] == sections[i + 1]);
            }
        }
        assert(distinct_blocks(rest)) by {
            assert forall|i: int, j: int| 0 <= i < j < rest.len() implies record_of(
                (#[trigger] rest[i]).block,
            ).name != record_of((#[trigger] rest[j]).block).name by {
                assert(rest[i] == sections[i + 1]);
                assert(rest[j] == sections[j + 1]);
            }
        }
        sections_become_records(next, rest, tail);
        assert(sections =~= seq![first] + rest);
        lemma_stream_concat(seq![first], rest, tail);
        lemma_stream_single(first);
        lemma_run_concat(m, first.gap, first.block + stream(rest, tail));
        lemma_run_concat(m, first.block, stream(rest, tail));
        assert(first.gap + first.block + stream(rest, tail) =~= first.gap + (first.block + stream(
            rest,
            tail,
        )));
        assert(next.sealed + records_of(rest) =~= m.sealed + records_of(sections));
    }
}

/// `N` distinct, well-formed module blocks, spread over one or more source
/// units with any lines that are no start boundaries between and after
/// them, give exactly `N` files: one per block, in the order of the blocks,
/// named after the block and holding the block's text from its start
/// boundary through its end boundary.
pub proof fn well_formed_input_splits_exactly(
    units: Seq<Seq<Seq<char>>>,
    dir: Seq<char>,
    sections: Seq<Section>,
    tail: Seq<Seq<char>>,
)
    requires
        units.len() > 0,
        units.flatten() == stream(sections, tail),
        well_formed(sections),
        is_gap(tail),
        distinct_blocks(sections),
    ensures
        split(units, dir) == Ok::<Seq<OutputText>, Failure>(
            sections.map_values(|s: Section| output_of(dir, record_of(s.block))),
        ),
        split(units, dir)->Ok_0.len() == sections.len(),
{
    let m = initial();
    assert forall|i: int| 0 <= i < sections.len() implies !has_name(
        m.sealed,
        record_of((#[trigger] sections[i]).block).name,
    ) by {}
    sections_become_records(m, sections, tail);
    assert(m.sealed + records_of(sections) =~= records_of(sections));
    assert(planned(dir, records_of(sections)) =~= sections.map_values(
        |s: Section| output_of(dir, record_of(s.block)),
    ));
}

/// Where `j` is the first block that carries the name of an earlier block,
/// the run ends at that block's start boundary with the repeated name, and
/// no file is laid out.
pub proof fn first_repeated_name_aborts(
    units: Seq<Seq<Seq<char>>>,
    dir: Seq<char>,
    sections: Seq<Section>,
    tail: Seq<Seq<char>>,
    i: int,
    j: int,
)
    requires
        units.len() > 0,
        units.flatten() == stream(sections, tail),
        well_formed(sections),
        0 <= i < j < sections.len(),
        record_of(sections[i].block).name == record_of(sections[j].block).name,
        distinct_blocks(sections.take(j)),
    ensures
        run(initial(), stream(sections, tail)) == Err::<ScanModel, Seq<char>>(
            record_of(sections[j].block).name,
        ),
        split(units, dir) == Err::<Seq<OutputText>, Failure>(
            Failure::DuplicateModule(record_of(sections[j].block).name),
        ),
{
    let m = initial();
    let before = sections.take(j);
    let name = record_of(sections[j].block).name;
    assert(well_formed(before)) by {
        assert forall|k: int| 0 <= k < before.len() implies is_gap((#[trigger] before[k]).gap)
            && is_block(before[k].block) by {
            assert(before[k] == sections[k]);
        }
    }
    assert(is_gap(Seq::<Seq<char>>::empty()));
    sections_become_records(m, before, Seq::empty());
    let mid = ScanModel { sealed: m.sealed + records_of(before), open: None };
    assert(has_name(mid.sealed, name)) by {
        assert(before[i] == sections[i]);
        assert(mid.sealed[i] == record_of(sections[i].block));
    }
    let after = sections.skip(j);
    assert(sections =~= before + after);
    assert(after =~= seq![after.first()] + after.drop_first());
    lemma_stream_concat(before, after, tail);
    lemma_stream_concat(seq![after.first()], after.drop_first(), tail);
    lemma_stream_single(after.first());
    let rest = stream(after.drop_first(), tail);
    let gap = after.first().gap;
    let block = after.first().block;
    assert(after.first() == sections[j]);
    assert(is_gap(gap) && is_block(block));
    gap_leaves_no_trace(mid, gap);
    assert(run(mid, block + rest) == Err::<ScanModel, Seq<char>>(name)) by {
        assert((block + rest).first() == block.first());
    }
    lemma_run_concat(mid, gap, block + rest);
    assert(gap + block + rest =~= gap + (block + rest));
    lemma_run_concat(m, stream(before, Seq::empty()), stream(after, tail));
}

/// Two blocks that share a name, anywhere in the input, end the run with a
/// duplicate: the name that comes back is one that two blocks share, and no file is
/// laid out.
pub proof fn repeated_name_aborts(
    units: Seq<Seq<Seq<char>>>,
    dir: Seq<char>,
    sections: Seq<Section>,
    tail: Seq<Seq<char>>,
    i: int,
    j: int,
)
    requires
        units.len() > 0,
        units.flatten() == stream(sections, tail),
        well_formed(sections),
        0 <= i < j < sections.len(),
        record_of(sections[i].block).name == record_of(sections[j].block).name,
    ensures
        split(units, dir) is Err,
        exists|a: int, b: int|
            0 <= a < b <= j && record_of((#[trigger] sections[a]).block).name == record_of(
                (#[trigger] sections[b]).block,
            ).name && split(units, dir)->Err_0 == Failure::DuplicateModule(
                record_of(sections[b].block).name,
            ),
    decreases j,
{
    let before = sections.take(j);
    if distinct_blocks(before) {
        first_repeated_name_aborts(units, dir, sections, tail, i, j);
    } else {
        let (a, b) = choose|a: int, b: int|
            0 <= a < b < before.len() && record_of((#[trigger] before[a]).block).name == record_of(
                (#[trigger] before[b]).block,
            ).name;
        assert(before[a] == sections[a]);
        assert(before[b] == sections[b]);
        repeated_name_aborts(units, dir, sections, tail, a, b);
    }
}

/// A start boundary met between modules whose name is sealed already ends
/// the run, whatever follows.
pub proof fn sealed_name_stops_the_run(m: ScanModel, line: Seq<char>, after: Seq<Seq<char>>)
    requires
        m.open is None,
        start_boundary(line) is Some,
        has_name(m.sealed, start_boundary(line)->Some_0),
    ensures
        run(m, seq![line] + after) == Err::<ScanModel, Seq<char>>(start_boundary(line)->Some_0),
{
    assert((seq![line] + after).first() == line);
}

/// Whether `name` is taken in the state `m`: a sealed record carries it, or
/// the open one does.
pub open spec fn known(m: ScanModel, name: Seq<char>) -> bool {
    has_name(m.sealed, name) || (m.open matches Some(rec) && rec.name == name)
}

/// A name that is taken stays taken: whatever lines follow, the module that
/// carries it stays open or is sealed, and a sealed record stays.
pub proof fn name_stays_known(m: ScanModel, lines: Seq<Seq<char>>, name: Seq<char>)
    requires
        known(m, name),
        run(m, lines) is Ok,
    ensures
        known(run(m, lines)->Ok_0, name),
    decreases lines.len(),
{
    if lines.len() > 0 {
        let next = step(m, lines.first())->Ok_0;
        assert(known(next, name)) by {
            if has_name(m.sealed, name) {
                let k = choose|k: int| 0 <= k < m.sealed.len() && (#[trigger] m.sealed[k]).name == name;
                if next.sealed.len() > m.sealed.len() {
                    assert(next.sealed[k] == m.sealed[k]);
                }
            } else if is_end_boundary(lines.first()) {
                assert(next.sealed[m.sealed.len() as int].name == name);
            }
        }
        name_stays_known(next, lines.drop_first(), name);
    }
}

/// A name that is captured twice ends the run, whatever the input looks
/// like otherwise: `opener` and `repeat` are start boundaries with the same
/// name, each met while no module is open. If nothing ends the run before
/// `repeat`, it ends there, with that name.
pub proof fn second_capture_aborts(
    m: ScanModel,
    first: Seq<Seq<char>>,
    opener: Seq<char>,
    between: Seq<Seq<char>>,
    repeat: Seq<char>,
    after: Seq<Seq<char>>,
)
    requires
        run(m, first) is Ok,
        run(m, first)->Ok_0.open is None,
        start_boundary(opener) is Some,
        start_boundary(repeat) == start_boundary(opener),
        run(m, first + seq![opener] + between) is Ok ==> run(
            m,
            first + seq![opener] + between,
        )->Ok_0.open is None,
    ensures
        run(m, first + seq![opener] + between + seq![repeat] + after) is Err,
        run(m, first + seq![opener] + between) is Ok ==> run(
            m,
            first + seq![opener] + between + seq![repeat] + after,
        ) == Err::<ScanModel, Seq<char>>(start_boundary(opener)->Some_0),
{
    let name = start_boundary(opener)->Some_0;
    let start = run(m, first)->Ok_0;
    let head = first + seq![opener] + between;
    let whole = head + seq![repeat] + after;
    assert(whole =~= head + (seq![repeat] + after));
    assert(head =~= first + (seq![opener] + between));
    lemma_run_concat(m, head, seq![repeat] + after);
    lemma_run_concat(m, first, seq![opener] + between);
    assert((seq![opener] + between).first() == opener);
    assert((seq![opener] + between).drop_first() =~= between);
    if !has_name(start.sealed, name) {
        let opened = step(start, opener)->Ok_0;
        assert(known(opened, name));
        if run(opened, between) is Ok {
            name_stays_known(opened, between, name);
            sealed_name_stops_the_run(run(opened, between)->Ok_0, repeat, after);
        }
    }
}

/// Two modules that share a captured name, anywhere in the input and
/// whatever stands around them, end the run with a duplicate, and no file
/// is laid out: `opener` and `repeat` are the two start boundaries, each met
/// while no module is open.
pub proof fn name_captured_twice_aborts(
    units: Seq<Seq<Seq<char>>>,
    dir: Seq<char>,
    first: Seq<Seq<char>>,
    opener: Seq<char>,
    between: Seq<Seq<char>>,
    repeat: Seq<char>,
    after: Seq<Seq<char>>,
)
    requires
        units.len() > 0,
        units.flatten() == first + seq![opener] + between + seq![repeat] + after,
        run(initial(), first) is Ok,
        run(initial(), first)->Ok_0.open is None,
        start_boundary(opener) is Some,
        start_boundary(repeat) == start_boundary(opener),
        run(initial(), first + seq![opener] + between) is Ok ==> run(
            initial(),
            first + seq![opener] + between,
        )->Ok_0.open is None,
    ensures
        split(units, dir) is Err,
        split(units, dir)->Err_0 is DuplicateModule,
        run(initial(), first + seq![opener] + between) is Ok ==> split(units, dir) == Err::<
            Seq<OutputText>,
            Failure,
        >(Failure::DuplicateModule(start_boundary(opener)->Some_0)),
{
    second_capture_aborts(initial(), first, opener, between, repeat, after);
}

/// The path of an output file tells the module's name: below one
/// directory, two names never share a file.
pub proof fn output_path_tells_name(dir: Seq<char>, a: Seq<char>, b: Seq<char>)
    requires
        output_path(dir, a) == output_path(dir, b),
    ensures
        a == b,
{
    let prefix = dir + "/"@;
    let suffix = "."@ + crate::output::OUTPUT_EXTENSION@;
    let pa = output_path(dir, a);
    let pb = output_path(dir, b);
    assert(pa =~= prefix + a + suffix);
    assert(pb =~= prefix + b + suffix);
    assert(pa.len() == prefix.len() + a.len() + suffix.len());
    assert(pb.len() == prefix.len() + b.len() + suffix.len());
    assert(a.len() == b.len());
    assert forall|k: int| 0 <= k < a.len() implies a[k] == b[k] by {
        assert(pa[prefix.len() + k] == a[k]);
        assert(pb[prefix.len() + k] == b[k]);
    }
    assert(a =~= b);
}

/// A module that is still open when the input ends gives no output file:
/// its name is in no sealed record, and no file of the outcome carries its
/// path.
pub proof fn open_module_gives_no_file(units: Seq<Seq<Seq<char>>>, dir: Seq<char>)
    requires
        units.len() > 0,
        run(initial(), units.flatten()) is Ok,
        run(initial(), units.flatten())->Ok_0.open is Some,
    ensures
        ({
            let last = run(initial(), units.flatten())->Ok_0;
            let name = last.open->Some_0.name;
            &&& !has_name(last.sealed, name)
            &&& split(units, dir) is Ok
            &&& forall|k: int|
                0 <= k < split(units, dir)->Ok_0.len() ==> (#[trigger] split(units, dir)->Ok_0[k]).path
                    != output_path(dir, name)
        }),
{
    let last = run(initial(), units.flatten())->Ok_0;
    let name = last.open->Some_0.name;
    let files = planned(dir, last.sealed);
    run_keeps_consistency(initial(), units.flatten());
    assert forall|k: int| 0 <= k < files.len() implies (#[trigger] files[k]).path != output_path(
        dir,
        name,
    ) by {
        if files[k].path == output_path(dir, name) {
            output_path_tells_name(dir, last.sealed[k].name, name);
        }
    }
}

/// Where the lines of one unit end and those of the next begin makes no
/// difference: the outcome depends on the lines in their order alone.
pub proof fn unit_borders_do_not_matter(
    a: Seq<Seq<Seq<char>>>,
    b: Seq<Seq<Seq<char>>>,
    dir: Seq<char>,
)
    requires
        a.len() > 0,
        b.len() > 0,
        a.flatten() == b.flatten(),
    ensures
        split(a, dir) == split(b, dir),
{
}

} // verus!
