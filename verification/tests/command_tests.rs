use media_ingest::command::{choose_action, Action};

#[test]
fn ingest_on_directory_ingests() {
    assert_eq!(choose_action("ingest", true), Action::Ingest);
}

#[test]
fn garbage_command_falls_back() {
    assert_eq!(choose_action("foo", true), Action::PrintPath);
}

#[test]
fn ingest_on_non_directory_falls_back() {
    assert_eq!(choose_action("ingest", false), Action::PrintPath);
}

#[test]
fn command_is_case_sensitive() {
    assert_eq!(choose_action("Ingest", true), Action::PrintPath);
    assert_eq!(choose_action("ingest ", true), Action::PrintPath);
}
