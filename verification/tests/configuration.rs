use troll::grammar::{
    backend_command, configured_backends, grammar_for, search_argument, source_label, Backend,
};
use troll::results::ParseFailure;

#[test]
fn grammars_are_fixed_per_backend() {
    let snap = grammar_for(Backend::Snap);
    assert_eq!(snap.leading_columns, 4);
    assert_eq!(snap.name_column, 0);
    assert_eq!(snap.version_column, 1);
    assert_eq!(snap.publisher_column, Some(2));

    let flatpak = grammar_for(Backend::Flatpak);
    assert_eq!(flatpak.leading_columns, 4);
    assert_eq!(flatpak.name_column, 0);
    assert_eq!(flatpak.version_column, 1);
    assert_eq!(flatpak.publisher_column, None);
}

#[test]
fn backend_order_and_commands_are_declared() {
    let backends = configured_backends();
    assert_eq!(backends, vec![Backend::Snap, Backend::Flatpak]);
    assert_eq!(backend_command(Backend::Snap), "snap");
    assert_eq!(backend_command(Backend::Flatpak), "flatpak");
    assert_eq!(search_argument(), "search");
}

#[test]
fn source_labels_are_exhaustive() {
    assert_eq!(source_label(Backend::Snap), "SNAP");
    assert_eq!(source_label(Backend::Flatpak), "FLATPAK");
}

#[test]
fn parse_failure_message_names_the_line() {
    let f = ParseFailure {
        backend: Backend::Snap,
        line: "half a line".to_string(),
    };
    assert_eq!(f.message(), "Couldn't parse: half a line");
}
