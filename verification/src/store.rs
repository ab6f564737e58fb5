//! Sealed module records and the store that keeps their names unique.

use crate::error::{Failure, SplitError};
use crate::text::same_text;
use vstd::prelude::*;

verus! {

/// The mathematical value of a module record: the captured name and the
/// text from the start boundary through the end boundary, each line with its
/// line feed.
pub struct ModuleText {
    pub name: Seq<char>,
    pub body: Seq<char>,
}

/// Whether some record of `records` carries `name`.
pub open spec fn has_name(records: Seq<ModuleText>, name: Seq<char>) -> bool {
    exists|i: int| 0 <= i < records.len() && (#[trigger] records[i]).name == name
}

/// Whether no two records of `records` share a name.
pub open spec fn distinct_names(records: Seq<ModuleText>) -> bool {
    forall|i: int, j: int|
        0 <= i < j < records.len() ==> (#[trigger] records[i]).name != (#[trigger] records[j]).name
}

/// A module's name together with its accumulated text.
#[derive(Debug, Clone, PartialEq, Eq)]
pub struct ModuleRecord {
    name: String,
    body: String,
}

impl View for ModuleRecord {
    type V = ModuleText;

    closed spec fn view(&self) -> ModuleText {
        ModuleText { name: self.name@, body: self.body@ }
    }
}

impl DeepView for ModuleRecord {
    type V = ModuleText;

    open spec fn deep_view(&self) -> ModuleText {
        self@
    }
}

impl ModuleRecord {
    /// A record of `name` with the text `body`.
    pub fn new(name: String, body: String) -> (r: ModuleRecord)
        ensures
            r@ == (ModuleText { name: name@, body: body@ }),
    {
        ModuleRecord { name, body }
    }

    /// The captured module name.
    pub fn name(&self) -> (r: &str)
        ensures
            r@ == self@.name,
    {
        self.name.as_str()
    }

    /// The module's text.
    pub fn body(&self) -> (r: &str)
        ensures
            r@ == self@.body,
    {
        self.body.as_str()
    }

    /// The record with `line` and a line feed added to its text.
    pub fn with_line(self, line: &str) -> (r: ModuleRecord)
        ensures
            r@ == (ModuleText { name: self@.name, body: self@.body + crate::text::terminated(line@) }),
    {
        let mut grown = self;
        crate::text::push_line(&mut grown.body, line);
        grown
    }
}

/// The sealed records of a run, in the order in which they were sealed.
/// No two of them share a name.
#[derive(Debug)]
pub struct ModuleStore {
    records: Vec<ModuleRecord>,
}

impl View for ModuleStore {
    type V = Seq<ModuleText>;

    closed spec fn view(&self) -> Seq<ModuleText> {
        self.records@.map_values(|r: ModuleRecord| r@)
    }
}

impl ModuleStore {
    #[verifier::type_invariant]
    pub open spec fn names_unique(self) -> bool {
        distinct_names(self@)
    }

    /// The empty store.
    pub fn new() -> (s: ModuleStore)
        ensures
            s@ == Seq::<ModuleText>::empty(),
    {
        let s = ModuleStore { records: Vec::new() };
        assert(s@ =~= Seq::<ModuleText>::empty());
        s
    }

    /// The number of records.
    pub fn len(&self) -> (n: usize)
        ensures
            n == self@.len(),
    {
        self.records.len()
    }

    /// Whether a record named `name` is in the store.
    pub fn contains(&self, name: &str) -> (found: bool)
        ensures
            found == has_name(self@, name@),
    {
        let mut i: usize = 0;
        while i < self.records.len()
            invariant
                i <= self.records@.len(),
                forall|k: int| 0 <= k < i ==> (#[trigger] self@[k]).name != name@,
            decreases self.records@.len() - i,
        {
            if same_text(self.records[i].name(), name) {
                assert(self@[i as int].name == name@);
                return true;
            }
            i += 1;
        }
        false
    }

    /// Adds `record` behind the records already there, unless its name is
    /// taken: then the store stays as it is.
    pub fn insert(&mut self, record: ModuleRecord) -> (r: Result<(), SplitError>)
        ensures
            has_name(old(self)@, record@.name) ==> final(self)@ == old(self)@ && r is Err
                && r->Err_0@ == Failure::DuplicateModule(record@.name),
            !has_name(old(self)@, record@.name) ==> final(self)@ == old(self)@.push(record@)
                && r is Ok,
    {
        if self.contains(record.name()) {
            return Err(SplitError::DuplicateModule(record.name.clone()));
        }
        proof {
            use_type_invariant(&*self);
        }
        let ghost before = self@;
        // The list leaves the store while it grows: the store itself is never
        // seen with a record that was not checked.
        let mut records: Vec<ModuleRecord> = Vec::new();
        core::mem::swap(&mut self.records, &mut records);
        records.push(record);
        proof {
            let grown = records@.map_values(|r: ModuleRecord| r@);
            assert(grown =~= before.push(record@));
            assert forall|i: int, j: int| 0 <= i < j < grown.len() implies (#[trigger] grown[i]).name
                != (#[trigger] grown[j]).name by {
                if j == before.len() {
                    assert(before[i].name != record@.name);
                }
            }
        }
        core::mem::swap(&mut self.records, &mut records);
        Ok(())
    }

    /// The record at position `i`, counted in the order of sealing; `None`
    /// behind the last.
    pub fn get(&self, i: usize) -> (r: Option<&ModuleRecord>)
        ensures
            i < self@.len() ==> r is Some && r->Some_0@ == self@[i as int],
            i >= self@.len() ==> r is None,
    {
        if i < self.records.len() {
            Some(&self.records[i])
        } else {
            None
        }
    }

    /// All records, in the order of sealing. No two of them share a name.
    pub fn entries(&self) -> (r: &Vec<ModuleRecord>)
        ensures
            r.deep_view() == self@,
            distinct_names(self@),
    {
        proof {
            use_type_invariant(self);
        }
        assert(self.records.deep_view() =~= self@);
        &self.records
    }
}

} // verus!
