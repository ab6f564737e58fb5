use split_verilog_file::matcher::MODULE_PATTERN;
use split_verilog_file::scanner::{ScanState, END_MARKER};
use split_verilog_file::{
    scan_units, BoundaryMatcher, ModuleRecord, ModuleScanner, ModuleStore, SplitError,
};

fn lines(text: &[&str]) -> Vec<String> {
    text.iter().map(|l| l.to_string()).collect()
}

fn records(store: &ModuleStore) -> Vec<(String, String)> {
    store.entries().iter().map(|r| (r.name().to_string(), r.body().to_string())).collect()
}

fn scan(units: Vec<Vec<String>>) -> Result<Vec<(String, String)>, SplitError> {
    let matcher = BoundaryMatcher::new().unwrap();
    scan_units(&matcher, &units).map(|store| records(&store))
}

fn pair(name: &str, body: &str) -> (String, String) {
    (name.to_string(), body.to_string())
}

#[test]
fn two_modules_in_one_unit() {
    let unit = lines(&["module top", "  wire a;", "endmodule", "module sub", "  wire b;", "endmodule"]);
    assert_eq!(
        scan(vec![unit]),
        Ok(vec![
            pair("top", "module top\n  wire a;\nendmodule\n"),
            pair("sub", "module sub\n  wire b;\nendmodule\n"),
        ])
    );
}

#[test]
fn lines_between_modules_are_lost() {
    let unit = lines(&[
        "// header",
        "",
        "`timescale 1ns/1ps",
        "module a;",
        "endmodule",
        "// between",
        "endmodule",
        "module b;",
        "endmodule",
        "// trailer",
    ]);
    assert_eq!(
        scan(vec![unit]),
        Ok(vec![pair("a", "module a;\nendmodule\n"), pair("b", "module b;\nendmodule\n")])
    );
}

#[test]
fn duplicate_name_aborts() {
    let unit = lines(&["module a;", "endmodule", "module b;", "endmodule", "module a;", "endmodule"]);
    assert_eq!(scan(vec![unit]), Err(SplitError::DuplicateModule("a".to_string())));
}

#[test]
fn duplicate_name_across_units_aborts() {
    let first = lines(&["module a;", "endmodule"]);
    let second = lines(&["module c;", "endmodule", "module a (input x);", "endmodule"]);
    assert_eq!(scan(vec![first, second]), Err(SplitError::DuplicateModule("a".to_string())));
}

#[test]
fn indented_start_does_not_open_a_module() {
    let unit = lines(&[" module a;", "endmodule", "module b;", "endmodule"]);
    assert_eq!(scan(vec![unit]), Ok(vec![pair("b", "module b;\nendmodule\n")]));
}

#[test]
fn end_marker_with_trailing_text_is_body() {
    let unit = lines(&["module a;", "endmodule;", "endmodule ", " endmodule", "endmodule"]);
    assert_eq!(
        scan(vec![unit]),
        Ok(vec![pair("a", "module a;\nendmodule;\nendmodule \n endmodule\nendmodule\n")])
    );
}

#[test]
fn start_boundary_inside_a_module_is_body() {
    let unit = lines(&["module a;", "module a;", "module b;", "endmodule", "module b;", "endmodule"]);
    assert_eq!(
        scan(vec![unit]),
        Ok(vec![
            pair("a", "module a;\nmodule a;\nmodule b;\nendmodule\n"),
            pair("b", "module b;\nendmodule\n"),
        ])
    );
}

#[test]
fn unclosed_module_is_dropped() {
    let unit = lines(&["module a;", "endmodule", "module b;", "  wire w;"]);
    assert_eq!(scan(vec![unit]), Ok(vec![pair("a", "module a;\nendmodule\n")]));
}

#[test]
fn module_may_span_units() {
    let first = lines(&["module a;", "  wire x;"]);
    let second = lines(&["  wire y;", "endmodule", "module b;", "endmodule"]);
    assert_eq!(
        scan(vec![first, second]),
        Ok(vec![
            pair("a", "module a;\n  wire x;\n  wire y;\nendmodule\n"),
            pair("b", "module b;\nendmodule\n"),
        ])
    );
}

#[test]
fn units_without_lines_give_nothing() {
    assert_eq!(scan(vec![]), Ok(vec![]));
    assert_eq!(scan(vec![vec![], vec![]]), Ok(vec![]));
}

#[test]
fn scanner_moves_line_by_line() {
    let matcher = BoundaryMatcher::new().unwrap();
    let mut scanner = ModuleScanner::new();
    assert!(scanner.is_awaiting());
    assert_eq!(scanner.feed(&matcher, "// nothing"), Ok(()));
    assert!(scanner.is_awaiting());
    assert_eq!(scanner.feed(&matcher, "module top (input clk);"), Ok(()));
    assert!(!scanner.is_awaiting());
    assert_eq!(scanner.sealed_len(), 0);
    assert_eq!(scanner.feed(&matcher, "endmodule"), Ok(()));
    assert!(scanner.is_awaiting());
    assert_eq!(scanner.sealed_len(), 1);
    let store = scanner.finish();
    assert_eq!(records(&store), vec![pair("top", "module top (input clk);\nendmodule\n")]);
}

#[test]
fn scanner_stays_as_it_was_on_a_duplicate() {
    let matcher = BoundaryMatcher::new().unwrap();
    let mut scanner = ModuleScanner::new();
    for line in ["module a;", "endmodule"] {
        assert_eq!(scanner.feed(&matcher, line), Ok(()));
    }
    assert_eq!(
        scanner.feed(&matcher, "module a;"),
        Err(SplitError::DuplicateModule("a".to_string()))
    );
    assert!(scanner.is_awaiting());
    assert_eq!(scanner.sealed_len(), 1);
    assert_eq!(scanner.feed(&matcher, "module b;"), Ok(()));
    assert_eq!(scanner.feed(&matcher, "endmodule"), Ok(()));
    assert_eq!(
        records(&scanner.finish()),
        vec![pair("a", "module a;\nendmodule\n"), pair("b", "module b;\nendmodule\n")]
    );
}

#[test]
fn advance_follows_the_given_classification() {
    let mut scanner = ModuleScanner::new();
    assert_eq!(scanner.advance("anything", None), Ok(()));
    assert!(scanner.is_awaiting());
    assert_eq!(scanner.advance("begin x", Some("x".to_string())), Ok(()));
    assert!(!scanner.is_awaiting());
    assert_eq!(scanner.advance("begin y", Some("y".to_string())), Ok(()));
    assert_eq!(scanner.advance("endmodule", None), Ok(()));
    assert!(scanner.is_awaiting());
    assert_eq!(
        scanner.advance("begin x", Some("x".to_string())),
        Err(SplitError::DuplicateModule("x".to_string()))
    );
    assert_eq!(records(&scanner.finish()), vec![pair("x", "begin x\nbegin y\nendmodule\n")]);
}

#[test]
fn feed_unit_runs_over_the_lines_of_a_unit() {
    let matcher = BoundaryMatcher::new().unwrap();
    let scanner = ModuleScanner::new();
    let scanner = scanner.feed_unit(&matcher, &lines(&["module a;", "x"])).unwrap();
    assert!(!scanner.is_awaiting());
    let scanner = scanner.feed_unit(&matcher, &lines(&["endmodule"])).unwrap();
    assert!(scanner.is_awaiting());
    assert_eq!(
        scanner.feed_unit(&matcher, &lines(&["module a;"])).map(|_| ()),
        Err(SplitError::DuplicateModule("a".to_string()))
    );
}

#[test]
fn store_keeps_order_and_refuses_a_taken_name() {
    let mut store = ModuleStore::new();
    assert_eq!(store.len(), 0);
    assert!(!store.contains("a"));
    assert_eq!(store.insert(ModuleRecord::new("b".to_string(), "1".to_string())), Ok(()));
    assert_eq!(store.insert(ModuleRecord::new("a".to_string(), "2".to_string())), Ok(()));
    assert!(store.contains("a"));
    assert!(store.contains("b"));
    assert!(!store.contains("A"));
    assert_eq!(
        store.insert(ModuleRecord::new("b".to_string(), "3".to_string())),
        Err(SplitError::DuplicateModule("b".to_string()))
    );
    assert_eq!(records(&store), vec![pair("b", "1"), pair("a", "2")]);
    assert_eq!(store.len(), 2);
    assert_eq!(store.get(0), Some(&ModuleRecord::new("b".to_string(), "1".to_string())));
    assert_eq!(store.get(1).map(|r| r.name()), Some("a"));
    assert_eq!(store.get(2), None);
}

#[test]
fn record_grows_by_whole_lines() {
    let record = ModuleRecord::new("m".to_string(), String::new());
    let record = record.with_line("module m;").with_line("endmodule");
    assert_eq!(record.name(), "m");
    assert_eq!(record.body(), "module m;\nendmodule\n");
}

#[test]
fn boundary_constants() {
    assert_eq!(MODULE_PATTERN, "^module\\s+(\\w+)");
    assert_eq!(END_MARKER, "endmodule");
}

#[test]
fn open_record_holds_what_was_read() {
    let matcher = BoundaryMatcher::new().unwrap();
    let mut scanner = ModuleScanner::new();
    assert!(matches!(scanner.state(), ScanState::AwaitingBoundary));
    scanner.feed(&matcher, "module m (").unwrap();
    scanner.feed(&matcher, "  input a").unwrap();
    match scanner.state() {
        ScanState::InModule(record) => {
            assert_eq!(record.name(), "m");
            assert_eq!(record.body(), "module m (\n  input a\n");
        }
        ScanState::AwaitingBoundary => panic!("a module is open"),
    }
    scanner.feed(&matcher, "endmodule").unwrap();
    assert!(matches!(scanner.state(), ScanState::AwaitingBoundary));
}
