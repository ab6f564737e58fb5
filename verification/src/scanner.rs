//! The two-state machine that walks the lines of all source units as one
//! stream and seals one record per module.

use crate::error::{Failure, SplitError};
use crate::matcher::{start_boundary, BoundaryMatcher};
use crate::store::{distinct_names, has_name, ModuleRecord, ModuleStore, ModuleText};
use crate::text::{same_text, terminated};
use vstd::prelude::*;

verus! {

/// The one line that closes a module.
pub const END_MARKER: &'static str = "endmodule";

/// Whether `line` is an end boundary: the marker and nothing else.
pub open spec fn is_end_boundary(line: Seq<char>) -> bool {
    line == END_MARKER@
}

/// The mathematical state of a scan: the records sealed so far, in order,
/// and the record that is open, if a module is.
pub struct ScanModel {
    pub sealed: Seq<ModuleText>,
    pub open: Option<ModuleText>,
}

/// The state before the first line: nothing sealed, no module open.
pub open spec fn initial() -> ScanModel {
    ScanModel { sealed: Seq::empty(), open: None }
}

/// What a state must satisfy: sealed names are pairwise distinct, and the
/// open module's name is none of them.
pub open spec fn consistent(m: ScanModel) -> bool {
    &&& distinct_names(m.sealed)
    &&& m.open matches Some(rec) ==> !has_name(m.sealed, rec.name)
}

/// One move of the machine on `line`, where `opens` says which module the
/// line opens, if it is a start boundary. The error is the name that was
/// captured a second time.
///
/// With no module open, a line that is no start boundary leaves no trace, and
/// a start boundary opens a record that begins with this line, unless its
/// name is sealed already. With a module open, the line joins the body, and
/// if it is the end boundary the record is sealed behind the others.
pub open spec fn transition(m: ScanModel, line: Seq<char>, opens: Option<Seq<char>>) -> Result<
    ScanModel,
    Seq<char>,
> {
    match m.open {
        None => match opens {
            None => Ok(m),
            Some(name) => if has_name(m.sealed, name) {
                Err(name)
            } else {
                Ok(
                    ScanModel {
                        sealed: m.sealed,
                        open: Some(ModuleText { name, body: terminated(line) }),
                    },
                )
            },
        },
        Some(rec) => {
            let grown = ModuleText { name: rec.name, body: rec.body + terminated(line) };
            if is_end_boundary(line) {
                Ok(ScanModel { sealed: m.sealed.push(grown), open: None })
            } else {
                Ok(ScanModel { sealed: m.sealed, open: Some(grown) })
            }
        },
    }
}

/// One move of the machine on `line`, the line classified by the boundary
/// pattern.
pub open spec fn step(m: ScanModel, line: Seq<char>) -> Result<ScanModel, Seq<char>> {
    transition(m, line, start_boundary(line))
}

/// The machine run over `lines` from state `m`: the state after the last
/// line, or the first name that was captured twice.
pub open spec fn run(m: ScanModel, lines: Seq<Seq<char>>) -> Result<ScanModel, Seq<char>>
    decreases lines.len(),
{
    if lines.len() == 0 {
        Ok(m)
    } else {
        match step(m, lines.first()) {
            Ok(next) => run(next, lines.drop_first()),
            Err(name) => Err(name),
        }
    }
}

/// Whether a scan is between modules or inside one.
#[derive(Debug)]
pub enum ScanState {
    /// No module is open.
    AwaitingBoundary,
    /// A module is open; the record holds what was read of it.
    InModule(ModuleRecord),
}

impl View for ScanState {
    type V = Option<ModuleText>;

    open spec fn view(&self) -> Option<ModuleText> {
        match *self {
            ScanState::AwaitingBoundary => None,
            ScanState::InModule(rec) => Some(rec@),
        }
    }
}

/// The scanner: the store it fills and the state it is in. Both outlive the
/// end of a source unit, so a module may begin in one unit and end in a later
/// one.
#[derive(Debug)]
pub struct ModuleScanner {
    store: ModuleStore,
    state: ScanState,
}

impl View for ModuleScanner {
    type V = ScanModel;

    closed spec fn view(&self) -> ScanModel {
        ScanModel { sealed: self.store@, open: self.state@ }
    }
}

impl ModuleScanner {
    #[verifier::type_invariant]
    pub open spec fn is_consistent(self) -> bool {
        consistent(self@)
    }

    /// A scanner that has seen no line.
    pub fn new() -> (s: ModuleScanner)
        ensures
            s@ == initial(),
    {
        let store = ModuleStore::new();
        ModuleScanner { store, state: ScanState::AwaitingBoundary }
    }

    /// Whether no module is open.
    pub fn is_awaiting(&self) -> (r: bool)
        ensures
            r == (self@.open is None),
    {
        match &self.state {
            ScanState::AwaitingBoundary => true,
            ScanState::InModule(_) => false,
        }
    }

    /// The state the scan is in, with the open record if a module is open.
    pub fn state(&self) -> (r: &ScanState)
        ensures
            r@ == self@.open,
    {
        &self.state
    }

    /// The number of records sealed so far.
    pub fn sealed_len(&self) -> (n: usize)
        ensures
            n == self@.sealed.len(),
    {
        self.store.len()
    }

    /// Moves the machine over `line`, which the caller has classified:
    /// `opens` is the module name if `line` is a start boundary. On a
    /// duplicate name the scanner stays as it was.
    pub fn advance(&mut self, line: &str, opens: Option<String>) -> (r: Result<(), SplitError>)
        ensures
            match transition(
                old(self)@,
                line@,
                match opens {
                    Some(name) => Some(name@),
                    None => None,
                },
            ) {
                Ok(next) => r is Ok && final(self)@ == next,
                Err(name) => r is Err && r->Err_0@ == Failure::DuplicateModule(name)
                    && final(self)@ == old(self)@,
            },
    {
        proof {
            use_type_invariant(&*self);
            use_type_invariant(&self.store);
        }
        let mut state = ScanState::AwaitingBoundary;
        core::mem::swap(&mut self.state, &mut state);
        match state {
            ScanState::AwaitingBoundary => match opens {
                None => Ok(()),
                Some(name) => {
                    if self.store.contains(name.as_str()) {
                        Err(SplitError::DuplicateModule(name))
                    } else {
                        let record = ModuleRecord::new(name, String::new()).with_line(line);
                        assert(record@.body =~= terminated(line@));
                        self.state = ScanState::InModule(record);
                        Ok(())
                    }
                },
            },
            ScanState::InModule(record) => {
                let grown = record.with_line(line);
                if same_text(line, END_MARKER) {
                    let mut store = ModuleStore::new();
                    core::mem::swap(&mut self.store, &mut store);
                    let sealed = store.insert(grown);
                    core::mem::swap(&mut self.store, &mut store);
                    sealed
                } else {
                    self.state = ScanState::InModule(grown);
                    Ok(())
                }
            },
        }
    }

    /// Moves the machine over `line`, asking `matcher` whether the line is a
    /// start boundary. On a duplicate name the scanner stays as it was.
    pub fn feed(&mut self, matcher: &BoundaryMatcher, line: &str) -> (r: Result<(), SplitError>)
        ensures
            match step(old(self)@, line@) {
                Ok(next) => r is Ok && final(self)@ == next,
                Err(name) => r is Err && r->Err_0@ == Failure::DuplicateModule(name)
                    && final(self)@ == old(self)@,
            },
    {
        let opens = if self.is_awaiting() {
            matcher.module_name(line)
        } else {
            None
        };
        self.advance(line, opens)
    }

    /// Moves the machine over the lines of one source unit, in their order,
    /// and stops at the first duplicate name.
    pub fn feed_unit(self, matcher: &BoundaryMatcher, lines: &Vec<String>) -> (r: Result<
        ModuleScanner,
        SplitError,
    >)
        ensures
            match run(self@, lines.deep_view()) {
                Ok(last) => r is Ok && r->Ok_0@ == last,
                Err(name) => r is Err && r->Err_0@ == Failure::DuplicateModule(name),
            },
    {
        let ghost all = lines.deep_view();
        let ghost start = self@;
        let mut scanner = self;
        let mut i: usize = 0;
        assert(all.skip(0) =~= all);
        while i < lines.len()
            invariant
                i <= lines.len(),
                all == lines.deep_view(),
                start == self@,
                run(scanner@, all.skip(i as int)) == run(start, all),
            decreases lines.len() - i,
        {
            proof {
                assert(all.skip(i as int).first() == lines@[i as int]@);
                assert(all.skip(i as int).drop_first() =~= all.skip(i + 1));
            }
            match scanner.feed(matcher, lines[i].as_str()) {
                Ok(()) => {},
                Err(e) => {
                    return Err(e);
                },
            }
            i += 1;
        }
        Ok(scanner)
    }

    /// Ends the scan. A module that is still open is dropped: only sealed
    /// records are handed out.
    pub fn finish(self) -> (store: ModuleStore)
        ensures
            store@ == self@.sealed,
    {
        self.store
    }
}

/// A run over `head` followed by `tail` is a run over `head` and then, from
/// the state it ends in, a run over `tail`; a duplicate in `head` ends both.
pub proof fn lemma_run_concat(m: ScanModel, head: Seq<Seq<char>>, tail: Seq<Seq<char>>)
    ensures
        run(m, head + tail) == match run(m, head) {
            Ok(mid) => run(mid, tail),
            Err(name) => Err(name),
        },
    decreases head.len(),
{
    if head.len() == 0 {
        assert(head + tail =~= tail);
    } else {
        assert((head + tail).first() == head.first());
        assert((head + tail).drop_first() =~= head.drop_first() + tail);
        match step(m, head.first()) {
            Ok(next) => lemma_run_concat(next, head.drop_first(), tail),
            Err(_) => {},
        }
    }
}

/// Scans the source units in their order as one stream of lines, from the
/// first line of the first unit to the last line of the last, and hands out
/// the sealed records. A module may span units; one that is open at the end
/// is dropped.
pub fn scan_units(matcher: &BoundaryMatcher, units: &Vec<Vec<String>>) -> (r: Result<
    ModuleStore,
    SplitError,
>)
    ensures
        match run(initial(), units.deep_view().flatten()) {
            Ok(last) => r is Ok && r->Ok_0@ == last.sealed,
            Err(name) => r is Err && r->Err_0@ == Failure::DuplicateModule(name),
        },
{
    let ghost all = units.deep_view();
    let mut scanner = ModuleScanner::new();
    let mut u: usize = 0;
    assert(all.skip(0) =~= all);
    while u < units.len()
        invariant
            u <= units.len(),
            all == units.deep_view(),
            run(scanner@, all.skip(u as int).flatten()) == run(initial(), all.flatten()),
        decreases units.len() - u,
    {
        proof {
            let rest = all.skip(u as int);
            assert(rest.first() == units@[u as int].deep_view());
            assert(rest.drop_first() =~= all.skip(u + 1));
            lemma_run_concat(scanner@, rest.first(), rest.drop_first().flatten());
        }
        match scanner.feed_unit(matcher, &units[u]) {
            Ok(next) => {
                scanner = next;
            },
            Err(e) => {
                return Err(e);
            },
        }
        u += 1;
    }
    Ok(scanner.finish())
}

} // verus!
