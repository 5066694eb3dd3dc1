use troll::grammar::Backend;
use troll::parser::{
    filter_search_results, flatpak_line_to_result, parse_all, parse_line, snap_line_to_result,
};
use troll::results::SearchResult;

#[test]
fn snap_line_parses_every_field() {
    let r = parse_line("firefox 102.0 mozilla canonical web browser", Backend::Snap, "fire");
    let res = r.expect("line fits the snap grammar");
    assert_eq!(res.name, "firefox");
    assert_eq!(res.version, "102.0");
    assert_eq!(res.publisher, "mozilla");
    assert_eq!(res.source, Backend::Snap);
    assert_eq!(res.description, "web browser");
    assert_eq!(res.rank, 3);
}

#[test]
fn flatpak_line_gets_placeholder_publisher() {
    let r = parse_line("firefox-esr 102.0 esr mozilla esr browser", Backend::Flatpak, "fire");
    let res = r.expect("line fits the flatpak grammar");
    assert_eq!(res.name, "firefox-esr");
    assert_eq!(res.version, "102.0");
    assert_eq!(res.publisher, "UNKNOWN");
    assert_eq!(res.source, Backend::Flatpak);
    assert_eq!(res.description, "esr browser");
    assert_eq!(res.rank, 7);
}

#[test]
fn separators_may_be_tabs_or_repeated_spaces() {
    let r = parse_line("vim\t9.0\tbram\tclassic\tthe editor", Backend::Snap, "vim");
    let res = r.expect("tab-separated line parses");
    assert_eq!(res.name, "vim");
    assert_eq!(res.description, "the editor");

    let r2 = parse_line("vim   9.0    bram  classic   the editor", Backend::Snap, "vim");
    let res2 = r2.expect("multi-space separated line parses");
    assert_eq!(res2.version, "9.0");
    assert_eq!(res2.description, "the editor");
}

#[test]
fn missing_column_is_a_parse_failure() {
    // Four columns and no description.
    let r = parse_line("firefox 102.0 mozilla canonical", Backend::Snap, "fire");
    let f = r.expect_err("missing description column must fail");
    assert_eq!(f.backend, Backend::Snap);
    assert_eq!(f.line, "firefox 102.0 mozilla canonical");

    // Fewer leading columns than the grammar asks for.
    assert!(parse_line("firefox 102.0", Backend::Snap, "fire").is_err());
    assert!(parse_line("onlyname", Backend::Flatpak, "fire").is_err());
}

#[test]
fn degenerate_lines_fail_without_partial_records() {
    assert!(parse_line("", Backend::Snap, "q").is_err());
    assert!(parse_line("   ", Backend::Snap, "q").is_err());
    // Leading whitespace means the name column is empty.
    assert!(parse_line(" a b c d e", Backend::Snap, "q").is_err());
    // Separators after the last column but no description text.
    assert!(parse_line("a b c d ", Backend::Snap, "q").is_err());
}

#[test]
fn parse_all_partitions_lines_in_order() {
    let raw = "NAME VERSION PUBLISHER NOTES SUMMARY\n\
               good1 1.0 pub tag desc one\n\
               badline\n\
               good2 2.0 pub tag desc two\n\
               another bad";
    let (records, failures) = parse_all(raw, Backend::Snap, "good");
    assert_eq!(records.len(), 2);
    assert_eq!(failures.len(), 2);
    assert_eq!(records[0].name, "good1");
    assert_eq!(records[1].name, "good2");
    assert_eq!(failures[0].line, "badline");
    assert_eq!(failures[1].line, "another bad");
    assert_eq!(failures[0].backend, Backend::Snap);
}

#[test]
fn parse_all_discards_header_even_if_well_formed() {
    let raw = "head 0.0 looks like a record\nreal 1.0 pub tag the description";
    let (records, failures) = parse_all(raw, Backend::Snap, "real");
    assert_eq!(records.len(), 1);
    assert_eq!(failures.len(), 0);
    assert_eq!(records[0].name, "real");
}

#[test]
fn parse_all_of_empty_output_is_empty() {
    let (records, failures) = parse_all("", Backend::Flatpak, "q");
    assert_eq!(records.len(), 0);
    assert_eq!(failures.len(), 0);
}

#[test]
fn line_to_result_wrappers_report_messages() {
    let ok = snap_line_to_result("firefox 102.0 mozilla canonical web browser", "fire");
    assert_eq!(ok.expect("parses").rank, 3);
    let err = snap_line_to_result("nope", "fire");
    assert_eq!(err.expect_err("fails"), "Couldn't parse: nope");

    let ok2 = flatpak_line_to_result("firefox-esr 102.0 esr mozilla esr browser", "fire");
    assert_eq!(ok2.expect("parses").publisher, "UNKNOWN");
    let err2 = flatpak_line_to_result("still bad", "fire");
    assert_eq!(err2.expect_err("fails"), "Couldn't parse: still bad");
}

fn sample_result(name: &str) -> SearchResult {
    SearchResult {
        name: name.to_string(),
        version: "1.0".to_string(),
        publisher: "pub".to_string(),
        source: Backend::Snap,
        description: "d".to_string(),
        rank: 1,
    }
}

#[test]
fn filter_search_results_keeps_successes_in_order() {
    let entries = vec![
        Ok(sample_result("a")),
        Err("Couldn't parse: x".to_string()),
        Ok(sample_result("b")),
        Err("Couldn't parse: y".to_string()),
        Ok(sample_result("c")),
    ];
    let kept = filter_search_results(entries);
    assert_eq!(kept.len(), 3);
    assert_eq!(kept[0].name, "a");
    assert_eq!(kept[1].name, "b");
    assert_eq!(kept[2].name, "c");

    assert_eq!(filter_search_results(vec![]).len(), 0);
    assert_eq!(filter_search_results(vec![Err("e".to_string())]).len(), 0);
}
