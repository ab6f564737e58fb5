//! From sealed records to the files that are to be written, and the whole
//! run on plain values.

use crate::error::{Failure, SplitError};
use crate::matcher::BoundaryMatcher;
use crate::scanner::{initial, run, scan_units};
use crate::store::{ModuleStore, ModuleText};
use vstd::prelude::*;
use vstd::string::*;

verus! {

/// The extension of every output file, whatever the extension of the source
/// that the module came from.
pub const OUTPUT_EXTENSION: &'static str = "sv";

/// The mathematical value of an output file.
pub struct OutputText {
    pub path: Seq<char>,
    pub contents: Seq<char>,
}

/// Where the module `name` is written below `dir`. The name enters the path
/// as it was captured.
pub open spec fn output_path(dir: Seq<char>, name: Seq<char>) -> Seq<char> {
    dir + "/"@ + name + "."@ + OUTPUT_EXTENSION@
}

/// The file that holds `record` below `dir`.
pub open spec fn output_of(dir: Seq<char>, record: ModuleText) -> OutputText {
    OutputText { path: output_path(dir, record.name), contents: record.body }
}

/// One file per record, in the order of the records.
pub open spec fn planned(dir: Seq<char>, records: Seq<ModuleText>) -> Seq<OutputText> {
    records.map_values(|record: ModuleText| output_of(dir, record))
}

/// What a run makes of `units`, the lines of each source unit, for the
/// output directory `dir`: nothing to scan is refused; a name captured twice
/// ends the run with no file at all; else there is one file per sealed
/// record.
pub open spec fn split(units: Seq<Seq<Seq<char>>>, dir: Seq<char>) -> Result<
    Seq<OutputText>,
    Failure,
> {
    if units.len() == 0 {
        Err(Failure::NoInputFound)
    } else {
        match run(initial(), units.flatten()) {
            Ok(last) => Ok(planned(dir, last.sealed)),
            Err(name) => Err(Failure::DuplicateModule(name)),
        }
    }
}

/// A file to write: its path and its full text.
#[derive(Debug, Clone, PartialEq, Eq)]
pub struct OutputFile {
    path: String,
    contents: String,
}

impl View for OutputFile {
    type V = OutputText;

    closed spec fn view(&self) -> OutputText {
        OutputText { path: self.path@, contents: self.contents@ }
    }
}

impl DeepView for OutputFile {
    type V = OutputText;

    open spec fn deep_view(&self) -> OutputText {
        self@
    }
}

impl OutputFile {
    /// Where the file goes.
    pub fn path(&self) -> (r: &str)
        ensures
            r@ == self@.path,
    {
        self.path.as_str()
    }

    /// What the file holds.
    pub fn contents(&self) -> (r: &str)
        ensures
            r@ == self@.contents,
    {
        self.contents.as_str()
    }
}

/// The path of the output file for the module `name` below `output_dir`.
pub fn destination(output_dir: &str, name: &str) -> (path: String)
    ensures
        path@ == output_path(output_dir@, name@),
{
    let mut path = String::from_str(output_dir);
    path.append("/");
    path.append(name);
    path.append(".");
    path.append(OUTPUT_EXTENSION);
    path
}

/// The files to write for the records of `store`, below `output_dir`.
pub fn plan_output(store: &ModuleStore, output_dir: &str) -> (files: Vec<OutputFile>)
    ensures
        files.deep_view() == planned(output_dir@, store@),
{
    let records = store.entries();
    let mut files: Vec<OutputFile> = Vec::new();
    let mut i: usize = 0;
    while i < records.len()
        invariant
            i <= records.len(),
            records.deep_view() == store@,
            files.len() == i,
            forall|k: int|
                0 <= k < i ==> (#[trigger] files[k])@ == output_of(output_dir@, store@[k]),
        decreases records.len() - i,
    {
        let record = &records[i];
        assert(record@ == records.deep_view()[i as int]);
        let path = destination(output_dir, record.name());
        let contents = String::from_str(record.body());
        files.push(OutputFile { path, contents });
        i += 1;
    }
    assert(files.deep_view() =~= planned(output_dir@, store@));
    files
}

/// The whole run on plain values: scans `units`, the lines of each source
/// unit in the order of the unit list, and lays out the files to write
/// below `output_dir`.
pub fn process_files(matcher: &BoundaryMatcher, units: &Vec<Vec<String>>, output_dir: &str) -> (r:
    Result<Vec<OutputFile>, SplitError>)
    ensures
        match split(units.deep_view(), output_dir@) {
            Ok(files) => r is Ok && r->Ok_0.deep_view() == files,
            Err(failure) => r is Err && r->Err_0@ == failure,
        },
{
    if units.len() == 0 {
        return Err(SplitError::NoInputFound);
    }
    match scan_units(matcher, units) {
        Ok(store) => Ok(plan_output(&store, output_dir)),
        Err(e) => Err(e),
    }
}

} // verus!
