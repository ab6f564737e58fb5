use split_verilog_file::source::{check_extension, is_recognized, validate_text, FILETYPES};
use split_verilog_file::{SplitError, SvDir, SvFile};
use std::path::PathBuf;

#[test]
fn recognised_extensions_are_sv_and_v() {
    assert_eq!(FILETYPES, ["sv", "v"]);
    assert!(is_recognized("sv"));
    assert!(is_recognized("v"));
    assert!(!is_recognized("txt"));
    assert!(!is_recognized("SV"));
    assert!(!is_recognized(""));
    assert!(!is_recognized("svh"));
}

#[test]
fn single_file_gives_one_unit() {
    let units = SvFile::new(PathBuf::from("rtl/a.sv")).unwrap();
    assert_eq!(units.len(), 1);
    assert_eq!(units[0].path(), "rtl/a.sv");
    let units = SvFile::new(PathBuf::from("top.v")).unwrap();
    assert_eq!(units.len(), 1);
    assert_eq!(units[0].path(), "top.v");
}

#[test]
fn text_extension_is_refused() {
    assert_eq!(
        SvFile::new(PathBuf::from("notes.txt")),
        Err(SplitError::InvalidExtension { found: Some("txt".to_string()) })
    );
}

#[test]
fn missing_extension_is_refused() {
    assert_eq!(
        SvFile::new(PathBuf::from("Makefile")),
        Err(SplitError::InvalidExtension { found: None })
    );
    assert_eq!(
        SvFile::validate(PathBuf::from(".sv")),
        Err(SplitError::InvalidExtension { found: None })
    );
    assert_eq!(
        SvFile::validate(PathBuf::from("")),
        Err(SplitError::InvalidExtension { found: None })
    );
}

#[test]
fn extension_is_what_follows_the_last_dot() {
    assert_eq!(SvFile::validate(PathBuf::from("a.txt.sv")), Ok("a.txt.sv".to_string()));
    assert_eq!(
        SvFile::validate(PathBuf::from("a.sv.bak")),
        Err(SplitError::InvalidExtension { found: Some("bak".to_string()) })
    );
    assert_eq!(
        SvFile::validate(PathBuf::from("a.")),
        Err(SplitError::InvalidExtension { found: Some(String::new()) })
    );
    assert_eq!(
        SvFile::validate(PathBuf::from("dir.sv/readme")),
        Err(SplitError::InvalidExtension { found: None })
    );
}

#[test]
fn check_extension_hands_the_path_back() {
    assert_eq!(
        check_extension("x/y.v".to_string(), Some("v".to_string())),
        Ok("x/y.v".to_string())
    );
    assert_eq!(
        check_extension("x/y.v".to_string(), None),
        Err(SplitError::InvalidExtension { found: None })
    );
    assert_eq!(
        check_extension("x/y.v".to_string(), Some("vhd".to_string())),
        Err(SplitError::InvalidExtension { found: Some("vhd".to_string()) })
    );
}

#[test]
fn directory_entry_is_judged_by_its_name() {
    assert_eq!(SvDir::is_sv_file(&PathBuf::from("alu.sv")), Ok("alu.sv".to_string()));
    assert_eq!(
        SvDir::is_sv_file(&PathBuf::from("alu.vhd")),
        Err(SplitError::InvalidExtension { found: Some("vhd".to_string()) })
    );
    assert_eq!(
        SvDir::is_sv_file(&PathBuf::from("README")),
        Err(SplitError::InvalidExtension { found: None })
    );
}

#[test]
fn directory_keeps_the_valid_entries_in_enumeration_order() {
    let entries = vec![
        Some(PathBuf::from("b.v")),
        Some(PathBuf::from("notes.txt")),
        Some(PathBuf::from("a.sv")),
        Some(PathBuf::from("Makefile")),
        Some(PathBuf::from("c.sv")),
    ];
    let units = SvDir::build(PathBuf::from("rtl"), entries).unwrap();
    let paths: Vec<&str> = units.iter().map(|u| u.path()).collect();
    assert_eq!(paths, vec!["rtl/b.v", "rtl/a.sv", "rtl/c.sv"]);
}

#[test]
fn directory_without_valid_entries_gives_no_unit() {
    let entries = vec![Some(PathBuf::from("notes.txt")), Some(PathBuf::from("Makefile"))];
    assert_eq!(SvDir::build(PathBuf::from("rtl"), entries), Ok(vec![]));
    assert_eq!(SvDir::build(PathBuf::from("rtl"), vec![]), Ok(vec![]));
}

#[test]
fn path_that_is_no_text_is_refused() {
    assert_eq!(validate_text(None), Err(SplitError::InvalidEncoding));
}

#[test]
fn path_given_as_text_is_judged_by_its_extension() {
    assert_eq!(validate_text(Some("top.sv".to_string())), Ok("top.sv".to_string()));
    assert_eq!(validate_text(Some("./rtl/../top.v".to_string())), Ok("./rtl/../top.v".to_string()));
    assert_eq!(
        validate_text(Some("top.SV".to_string())),
        Err(SplitError::InvalidExtension { found: Some("SV".to_string()) })
    );
    assert_eq!(
        validate_text(Some("rtl/..".to_string())),
        Err(SplitError::InvalidExtension { found: None })
    );
}

fn named(names: &[Option<&str>]) -> Vec<Option<String>> {
    names.iter().map(|n| n.map(|t| t.to_string())).collect()
}

#[test]
fn entries_that_are_no_text_are_skipped() {
    let names = named(&[None, Some("a.sv"), None, Some("b.txt"), Some("c.v")]);
    let units = SvDir::collect(Some("d".to_string()), &names).unwrap();
    let paths: Vec<&str> = units.iter().map(|u| u.path()).collect();
    assert_eq!(paths, vec!["d/a.sv", "d/c.v"]);
}

#[test]
fn directory_that_is_no_text_is_refused_once_an_entry_survives() {
    let names = named(&[Some("notes.txt"), Some("a.sv")]);
    assert_eq!(SvDir::collect(None, &names), Err(SplitError::InvalidEncoding));
}

#[test]
fn directory_that_is_no_text_without_valid_entries_gives_no_unit() {
    let names = named(&[Some("notes.txt"), None]);
    assert_eq!(SvDir::collect(None, &names), Ok(vec![]));
    assert_eq!(SvDir::collect(None, &named(&[])), Ok(vec![]));
}

#[test]
fn entries_that_could_not_be_read_are_skipped() {
    let entries = vec![None, Some(PathBuf::from("a.sv")), None, Some(PathBuf::from("b.v")), None];
    let units = SvDir::build(PathBuf::from("rtl"), entries).unwrap();
    let paths: Vec<&str> = units.iter().map(|u| u.path()).collect();
    assert_eq!(paths, vec!["rtl/a.sv", "rtl/b.v"]);
    assert_eq!(SvDir::build(PathBuf::from("rtl"), vec![None, None]), Ok(vec![]));
}

fn verdicts() -> Vec<Result<String, SplitError>> {
    vec![
        Err(SplitError::InvalidEncoding),
        Ok("a.sv".to_string()),
        Err(SplitError::InvalidExtension { found: Some("txt".to_string()) }),
        Ok("b.v".to_string()),
        Err(SplitError::InvalidExtension { found: None }),
    ]
}

#[test]
fn gather_keeps_the_accepted_entries_in_order() {
    let units = SvDir::gather(Some("d".to_string()), &verdicts()).unwrap();
    let paths: Vec<&str> = units.iter().map(|u| u.path()).collect();
    assert_eq!(paths, vec!["d/a.sv", "d/b.v"]);
}

#[test]
fn gather_takes_the_verdicts_as_they_are() {
    let given = vec![Ok("notes.txt".to_string()), Ok("no_extension".to_string())];
    let units = SvDir::gather(Some("".to_string()), &given).unwrap();
    let paths: Vec<&str> = units.iter().map(|u| u.path()).collect();
    assert_eq!(paths, vec!["/notes.txt", "/no_extension"]);
}

#[test]
fn gather_needs_the_directory_as_text_once_an_entry_is_kept() {
    assert_eq!(SvDir::gather(None, &verdicts()), Err(SplitError::InvalidEncoding));
    let refused = vec![Err(SplitError::InvalidEncoding), Err(SplitError::NoInputFound)];
    assert_eq!(SvDir::gather(None, &refused), Ok(vec![]));
    assert_eq!(SvDir::gather(None, &vec![]), Ok(vec![]));
    assert_eq!(SvDir::gather(Some("d".to_string()), &refused), Ok(vec![]));
}
