use troll::aggregate::search;
use troll::grammar::Backend;
use troll::results::{Diagnostic, SearchResult};
use troll::sorting::sort_results;

fn hit(name: &str, rank: usize, source: Backend) -> SearchResult {
    SearchResult {
        name: name.to_string(),
        version: "1.0".to_string(),
        publisher: "pub".to_string(),
        source,
        description: "d".to_string(),
        rank,
    }
}

#[test]
fn sort_is_ascending_and_stable() {
    let input = vec![
        hit("c3", 3, Backend::Snap),
        hit("a1", 1, Backend::Snap),
        hit("d3", 3, Backend::Flatpak),
        hit("b0", 0, Backend::Flatpak),
    ];
    let sorted = sort_results(input);
    let names: Vec<&str> = sorted.iter().map(|r| r.name.as_str()).collect();
    // Equal ranks keep their pre-sort order: c3 before d3.
    assert_eq!(names, vec!["b0", "a1", "c3", "d3"]);
}

#[test]
fn two_backends_ranked_and_merged() {
    // Query "fire": backend A offers firefox (distance 3), backend B
    // offers firefox-esr (distance 7); ascending by rank, the snap hit
    // comes first.
    let reports = vec![
        (
            Backend::Snap,
            Ok("NAME VERSION PUBLISHER NOTES SUMMARY\n\
                firefox 102.0 mozilla canonical web browser"
                .to_string()),
        ),
        (
            Backend::Flatpak,
            Ok("NAME VERSION BRANCH ORIGIN DESCRIPTION\n\
                firefox-esr 102.0 esr mozilla esr browser"
                .to_string()),
        ),
    ];
    let out = search("fire", reports);
    assert_eq!(out.diagnostics.len(), 0);
    assert_eq!(out.results.len(), 2);
    assert_eq!(out.results[0].name, "firefox");
    assert_eq!(out.results[0].rank, 3);
    assert_eq!(out.results[0].source, Backend::Snap);
    assert_eq!(out.results[0].publisher, "mozilla");
    assert_eq!(out.results[1].name, "firefox-esr");
    assert_eq!(out.results[1].rank, 7);
    assert_eq!(out.results[1].source, Backend::Flatpak);
    assert_eq!(out.results[1].publisher, "UNKNOWN");
}

#[test]
fn equal_ranks_keep_backend_declaration_order() {
    let reports = vec![
        (
            Backend::Snap,
            Ok("HEADER\nab 1.0 p t first backend hit".to_string()),
        ),
        (
            Backend::Flatpak,
            Ok("HEADER\nab 1.0 b o second backend hit".to_string()),
        ),
    ];
    let out = search("ab", reports);
    assert_eq!(out.results.len(), 2);
    assert_eq!(out.results[0].rank, 0);
    assert_eq!(out.results[1].rank, 0);
    assert_eq!(out.results[0].source, Backend::Snap);
    assert_eq!(out.results[1].source, Backend::Flatpak);
}

#[test]
fn empty_backend_output_contributes_nothing_silently() {
    let reports = vec![
        (Backend::Snap, Ok(String::new())),
        (
            Backend::Flatpak,
            Ok("HEADER\nfirefox 102.0 esr mozilla esr browser".to_string()),
        ),
    ];
    let out = search("fire", reports);
    assert_eq!(out.diagnostics.len(), 0);
    assert_eq!(out.results.len(), 1);
    assert_eq!(out.results[0].name, "firefox");
    assert_eq!(out.results[0].source, Backend::Flatpak);
}

#[test]
fn failed_backend_is_isolated_as_a_diagnostic() {
    let reports = vec![
        (
            Backend::Snap,
            Err("No such file or directory".to_string()),
        ),
        (
            Backend::Flatpak,
            Ok("HEADER\nfirefox 102.0 esr mozilla esr browser".to_string()),
        ),
    ];
    let out = search("fire", reports);
    assert_eq!(out.results.len(), 1);
    assert_eq!(out.results[0].name, "firefox");
    assert_eq!(out.diagnostics.len(), 1);
    match &out.diagnostics[0] {
        Diagnostic::BackendExecutionFailure { backend, message } => {
            assert_eq!(*backend, Backend::Snap);
            assert_eq!(message, "No such file or directory");
        }
        other => panic!("expected an execution diagnostic, got {:?}", other),
    }
}

#[test]
fn malformed_lines_become_diagnostics_not_aborts() {
    let reports = vec![(
        Backend::Snap,
        Ok("HEADER\ngood 1.0 p t fine\nBAD LINE\nalso 2.0 p t fine too".to_string()),
    )];
    let out = search("good", reports);
    assert_eq!(out.results.len(), 2);
    assert_eq!(out.diagnostics.len(), 1);
    match &out.diagnostics[0] {
        Diagnostic::LineParseFailure(f) => {
            assert_eq!(f.backend, Backend::Snap);
            assert_eq!(f.line, "BAD LINE");
        }
        other => panic!("expected a line diagnostic, got {:?}", other),
    }
}

#[test]
fn no_reports_no_results() {
    let out = search("anything", vec![]);
    assert_eq!(out.results.len(), 0);
    assert_eq!(out.diagnostics.len(), 0);
}
