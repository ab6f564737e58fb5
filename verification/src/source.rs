//! Source units: which paths are accepted as input, and how the entries of
//! a directory become the list of units to scan.

use crate::error::{Failure, SplitError};
use crate::text::same_text;
use std::path::PathBuf;
use vstd::prelude::*;
use vstd::string::*;

verus! {

/// `std::path::PathBuf`, an owned path. Nothing of its inside is known
/// here but what the functions below say.
#[verifier::external_type_specification]
#[verifier::external_body]
pub struct ExPathBuf(std::path::PathBuf);

/// The extensions of the files that are scanned.
pub const FILETYPES: [&'static str; 2] = ["sv", "v"];

/// Whether `extension` is one of [`FILETYPES`].
pub open spec fn recognized(extension: Seq<char>) -> bool {
    extension == FILETYPES[0]@ || extension == FILETYPES[1]@
}

/// The path as text, as `Path::to_str` gives it: `None` where the path is
/// not valid Unicode.
pub uninterp spec fn path_text(path: PathBuf) -> Option<Seq<char>>;

/// The extension that `Path::extension` finds in the path written as `text`:
/// by its documentation what follows the last dot of the final component,
/// `None` where that component has no dot, or only a leading one, or where
/// there is no such component. Which component is the final one goes by the
/// path syntax of the target that the library is built for. It is named
/// here, not defined.
pub uninterp spec fn extension_in(text: Seq<char>) -> Option<Seq<char>>;

/// Calls `Path::to_str`. Trusted: the result is the path's text, and `None`
/// only for a path that has none.
#[verifier::external_body]
fn text_of(path: &PathBuf) -> (r: Option<String>)
    ensures
        match r {
            Some(text) => path_text(*path) == Some(text@),
            None => path_text(*path) is None,
        },
{
    path.to_str().map(|text| text.to_string())
}

/// Calls `Path::extension` on the path that `text` spells. Trusted: the
/// result is the extension found in that text, the same for the same text.
#[verifier::external_body]
fn extension_of(text: &str) -> (r: Option<String>)
    ensures
        match r {
            Some(extension) => extension_in(text@) == Some(extension@),
            None => extension_in(text@) is None,
        },
{
    std::path::Path::new(text).extension().map(|ext| ext.to_string_lossy().into_owned())
}

/// What becomes of a path whose text is `text` and whose extension is
/// `extension`: the text itself where the extension is recognised, else the
/// refusal that names what was found.
pub open spec fn checked(text: Seq<char>, extension: Option<Seq<char>>) -> Result<
    Seq<char>,
    Failure,
> {
    match extension {
        None => Err(Failure::InvalidExtension { found: None }),
        Some(found) => if recognized(found) {
            Ok(text)
        } else {
            Err(Failure::InvalidExtension { found: Some(found) })
        },
    }
}

/// What becomes of a path given as `text`, which is `None` for a path that
/// is not text: such a path is refused, any other is judged by the extension
/// found in it.
pub open spec fn judged(text: Option<Seq<char>>) -> Result<Seq<char>, Failure> {
    match text {
        None => Err(Failure::InvalidEncoding),
        Some(text) => checked(text, extension_in(text)),
    }
}

/// What becomes of `path` as a source.
pub open spec fn validated(path: PathBuf) -> Result<Seq<char>, Failure> {
    judged(path_text(path))
}

/// Whether `extension` is one of [`FILETYPES`].
pub fn is_recognized(extension: &str) -> (r: bool)
    ensures
        r == recognized(extension@),
{
    same_text(extension, FILETYPES[0]) || same_text(extension, FILETYPES[1])
}

/// Accepts the path `text` if `extension`, the extension found in it, is
/// recognised.
pub fn check_extension(text: String, extension: Option<String>) -> (r: Result<String, SplitError>)
    ensures
        match checked(
            text@,
            match extension {
                Some(found) => Some(found@),
                None => None,
            },
        ) {
            Ok(accepted) => r is Ok && r->Ok_0@ == accepted,
            Err(failure) => r is Err && r->Err_0@ == failure,
        },
{
    match extension {
        None => Err(SplitError::InvalidExtension { found: None }),
        Some(found) => {
            if is_recognized(found.as_str()) {
                Ok(text)
            } else {
                Err(SplitError::InvalidExtension { found: Some(found) })
            }
        },
    }
}

/// Judges a path by its text, `None` standing for a path that is not text.
pub fn validate_text(text: Option<String>) -> (r: Result<String, SplitError>)
    ensures
        match judged(text.deep_view()) {
            Ok(accepted) => r is Ok && r->Ok_0@ == accepted,
            Err(failure) => r is Err && r->Err_0@ == failure,
        },
{
    match text {
        None => Err(SplitError::InvalidEncoding),
        Some(text) => {
            let extension = extension_of(text.as_str());
            check_extension(text, extension)
        },
    }
}

/// The path of one source file that passed validation.
#[derive(Clone, Debug, PartialEq, Eq)]
pub struct SvFile {
    file: String,
}

impl View for SvFile {
    type V = Seq<char>;

    closed spec fn view(&self) -> Seq<char> {
        self.file@
    }
}

impl DeepView for SvFile {
    type V = Seq<char>;

    open spec fn deep_view(&self) -> Seq<char> {
        self@
    }
}

impl SvFile {
    /// The unit list for a single input file: one unit, if `file` is valid
    /// text with a recognised extension.
    pub fn new(file: PathBuf) -> (r: Result<Vec<SvFile>, SplitError>)
        ensures
            match validated(file) {
                Ok(text) => r is Ok && r->Ok_0.len() == 1 && r->Ok_0[0]@ == text,
                Err(failure) => r is Err && r->Err_0@ == failure,
            },
    {
        match SvFile::validate(file) {
            Ok(text) => {
                let mut units: Vec<SvFile> = Vec::new();
                units.push(SvFile::build(text));
                Ok(units)
            },
            Err(e) => Err(e),
        }
    }

    /// A unit for the path `file`, taken as it is.
    fn build(file: String) -> (r: SvFile)
        ensures
            r@ == file@,
    {
        SvFile { file }
    }

    /// The text of `file`, if it is valid text with a recognised extension.
    pub fn validate(file: PathBuf) -> (r: Result<String, SplitError>)
        ensures
            match validated(file) {
                Ok(text) => r is Ok && r->Ok_0@ == text,
                Err(failure) => r is Err && r->Err_0@ == failure,
            },
    {
        validate_text(text_of(&file))
    }

    /// The path of the unit.
    pub fn path(&self) -> (r: &str)
        ensures
            r@ == self@,
    {
        self.file.as_str()
    }
}

/// `name` as an entry of the directory `dir`.
pub open spec fn joined(dir: Seq<char>, name: Seq<char>) -> Seq<char> {
    dir + "/"@ + name
}

/// The texts of the names of `entries`: `None` for an entry that could not
/// be read, and for one whose name is not text.
pub open spec fn texts(entries: Seq<Option<PathBuf>>) -> Seq<Option<Seq<char>>> {
    entries.map_values(
        |entry: Option<PathBuf>|
            match entry {
                Some(path) => path_text(path),
                None => None,
            },
    )
}

/// The verdict on a directory entry named `name`: the name itself if it
/// passes validation, `None` if the entry is skipped.
pub open spec fn accepted(name: Option<Seq<char>>) -> Option<Seq<char>> {
    match judged(name) {
        Ok(text) => Some(text),
        Err(_) => None,
    }
}

/// The verdicts that a caller hands over, as names: `None` for each refusal,
/// whatever its reason.
pub open spec fn passed(verdicts: Seq<Result<String, SplitError>>) -> Seq<Option<Seq<char>>> {
    verdicts.map_values(
        |verdict: Result<String, SplitError>|
            match verdict {
                Ok(text) => Some(text@),
                Err(_) => None,
            },
    )
}

/// The names among `verdicts`, in their order, without the skipped entries.
pub open spec fn kept(verdicts: Seq<Option<Seq<char>>>) -> Seq<Seq<char>> {
    verdicts.filter_map(|verdict: Option<Seq<char>>| verdict)
}

/// The unit list of a directory whose path is `base`, from the verdicts on
/// its entries: one unit per entry that was not skipped, in enumeration
/// order. The directory's own path has to be text as soon as one entry is
/// kept.
pub open spec fn gathered(base: Option<Seq<char>>, verdicts: Seq<Option<Seq<char>>>) -> Result<
    Seq<Seq<char>>,
    Failure,
> {
    let names = kept(verdicts);
    if names.len() == 0 {
        Ok(Seq::empty())
    } else {
        match base {
            None => Err(Failure::InvalidEncoding),
            Some(base) => Ok(names.map_values(|name: Seq<char>| joined(base, name))),
        }
    }
}

/// The unit list of a directory whose path is `base` and whose entries are
/// named `names`: each entry is judged by its name, and the entries that
/// fail are skipped.
pub open spec fn discovered(base: Option<Seq<char>>, names: Seq<Option<Seq<char>>>) -> Result<
    Seq<Seq<char>>,
    Failure,
> {
    gathered(base, names.map_values(|name: Option<Seq<char>>| accepted(name)))
}

/// A directory that holds source files.
pub struct SvDir {}

impl SvDir {
    /// The unit list for the directory `dir`, given its entries as they were
    /// enumerated: the name of each, or `None` for an entry that could not
    /// be read. Entries that could not be read or do not pass validation are
    /// skipped without a word.
    pub fn build(dir: PathBuf, entries: Vec<Option<PathBuf>>) -> (r: Result<
        Vec<SvFile>,
        SplitError,
    >)
        ensures
            match discovered(path_text(dir), texts(entries@)) {
                Ok(paths) => r is Ok && r->Ok_0.deep_view() == paths,
                Err(failure) => r is Err && r->Err_0@ == failure,
            },
    {
        let base = text_of(&dir);
        let mut names: Vec<Option<String>> = Vec::new();
        let mut i: usize = 0;
        while i < entries.len()
            invariant
                i <= entries.len(),
                names.len() == i,
                forall|k: int|
                    0 <= k < i ==> (#[trigger] names[k]).deep_view() == texts(entries@)[k],
            decreases entries.len() - i,
        {
            let name = match &entries[i] {
                Some(path) => text_of(path),
                None => None,
            };
            names.push(name);
            i += 1;
        }
        assert(names.deep_view() =~= texts(entries@));
        SvDir::collect(base, &names)
    }

    /// The unit list for a directory, from the text of its path and of its
    /// entries' names, `None` standing for one that is not text.
    pub fn collect(base: Option<String>, names: &Vec<Option<String>>) -> (r: Result<
        Vec<SvFile>,
        SplitError,
    >)
        ensures
            match discovered(base.deep_view(), names.deep_view()) {
                Ok(paths) => r is Ok && r->Ok_0.deep_view() == paths,
                Err(failure) => r is Err && r->Err_0@ == failure,
            },
    {
        let mut verdicts: Vec<Result<String, SplitError>> = Vec::new();
        let mut i: usize = 0;
        while i < names.len()
            invariant
                i <= names.len(),
                verdicts.len() == i,
                forall|k: int|
                    0 <= k < i ==> passed(verdicts@)[k] == accepted(
                        (#[trigger] names.deep_view()[k]),
                    ),
            decreases names.len() - i,
        {
            let name = match &names[i] {
                Some(text) => Some(text.clone()),
                None => None,
            };
            let ghost before = verdicts@;
            verdicts.push(validate_text(name));
            proof {
                assert forall|k: int| 0 <= k < i + 1 implies passed(verdicts@)[k] == accepted(
                    (#[trigger] names.deep_view()[k]),
                ) by {
                    if k < i {
                        assert(passed(verdicts@)[k] == passed(before)[k]);
                    }
                }
            }
            i += 1;
        }
        assert(passed(verdicts@) =~= names.deep_view().map_values(
            |name: Option<Seq<char>>| accepted(name),
        ));
        SvDir::gather(base, &verdicts)
    }

    /// The unit list for a directory, from the text of its path and the
    /// verdict on each entry: the entry's name where it passed validation.
    /// Refused entries are skipped, whatever the refusal says.
    pub fn gather(base: Option<String>, verdicts: &Vec<Result<String, SplitError>>) -> (r: Result<
        Vec<SvFile>,
        SplitError,
    >)
        ensures
            match gathered(base.deep_view(), passed(verdicts@)) {
                Ok(paths) => r is Ok && r->Ok_0.deep_view() == paths,
                Err(failure) => r is Err && r->Err_0@ == failure,
            },
    {
        let ghost all = passed(verdicts@);
        let mut file_list: Vec<SvFile> = Vec::new();
        let mut i: usize = 0;
        assert(all.take(0) =~= Seq::<Option<Seq<char>>>::empty());
        while i < verdicts.len()
            invariant
                i <= verdicts.len(),
                all == passed(verdicts@),
                file_list.len() == kept(all.take(i as int)).len(),
                file_list.len() > 0 ==> base is Some,
                forall|k: int|
                    0 <= k < file_list.len() ==> (#[trigger] file_list[k])@ == joined(
                        base->Some_0@,
                        kept(all.take(i as int))[k],
                    ),
            decreases verdicts.len() - i,
        {
            proof {
                assert(all.take(i + 1).drop_last() =~= all.take(i as int));
                assert(all.take(i + 1).last() == all[i as int]);
            }
            if let Ok(name) = &verdicts[i] {
                match &base {
                    None => {
                        proof {
                            lemma_kept_prefix(all, i + 1);
                        }
                        return Err(SplitError::InvalidEncoding);
                    },
                    Some(text) => {
                        let mut path = text.clone();
                        path.append("/");
                        path.append(name.as_str());
                        assert(path@ =~= joined(text@, name@));
                        file_list.push(SvFile::build(path));
                    },
                }
            }
            i += 1;
        }
        proof {
            assert(all.take(all.len() as int) =~= all);
            let names = kept(all);
            if names.len() > 0 {
                assert(file_list.deep_view() =~= names.map_values(
                    |name: Seq<char>| joined(base->Some_0@, name),
                ));
            } else {
                assert(file_list.deep_view() =~= Seq::<Seq<char>>::empty());
            }
        }
        Ok(file_list)
    }

    /// The name of a directory entry, if it names a source file.
    pub fn is_sv_file(entry: &PathBuf) -> (r: Result<String, SplitError>)
        ensures
            match validated(*entry) {
                Ok(text) => r is Ok && r->Ok_0@ == text,
                Err(failure) => r is Err && r->Err_0@ == failure,
            },
    {
        validate_text(text_of(entry))
    }
}

/// Entries that are kept among the first `n` are kept in the whole list.
pub proof fn lemma_kept_prefix(verdicts: Seq<Option<Seq<char>>>, n: int)
    requires
        0 <= n <= verdicts.len(),
    ensures
        kept(verdicts.take(n)).len() <= kept(verdicts).len(),
    decreases verdicts.len() - n,
{
    if n == verdicts.len() {
        assert(verdicts.take(n) =~= verdicts);
    } else {
        assert(verdicts.take(n + 1).drop_last() =~= verdicts.take(n));
        lemma_kept_prefix(verdicts, n + 1);
    }
}

} // verus!
