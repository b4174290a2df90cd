use educational_lsp::engine::{code_actions, diagnostics, positions_fit};
use educational_lsp::state::State;
use educational_lsp::types::{Position, QueryError, Range, Severity};

fn id(s: &str) -> String {
    s.to_string()
}

fn range(line: u32, start: u32, end: u32) -> Range {
    Range {
        start: Position { line, character: start },
        end: Position { line, character: end },
    }
}

#[test]
fn open_then_read_round_trip() {
    let mut state = State::new();
    state.open_document(id("file:///a.txt"), id("hello\nworld"));
    assert_eq!(state.read(&id("file:///a.txt")), Ok(id("hello\nworld")));
}

#[test]
fn update_replaces_whole_text() {
    let mut state = State::new();
    state.open_document(id("file:///a.txt"), id("first text"));
    state.update_document(id("file:///a.txt"), id("second"));
    assert_eq!(state.read(&id("file:///a.txt")), Ok(id("second")));
}

#[test]
fn update_of_unknown_document_opens_it() {
    let mut state = State::new();
    state.update_document(id("file:///b.txt"), id("new"));
    assert_eq!(state.read(&id("file:///b.txt")), Ok(id("new")));
}

#[test]
fn read_unknown_document_fails() {
    let state = State::new();
    assert_eq!(state.read(&id("file:///none")), Err(QueryError::UnknownDocument));
}

#[test]
fn diagnostics_repeat_identically() {
    let text = "VS Code\nI use Neovim and VS Code";
    let first = diagnostics(text);
    let second = diagnostics(text);
    assert_eq!(first.len(), second.len());
    for (a, b) in first.iter().zip(second.iter()) {
        assert_eq!(a.range, b.range);
        assert_eq!(a.severity, b.severity);
        assert_eq!(a.source, b.source);
        assert_eq!(a.message, b.message);
    }
}

#[test]
fn diagnostics_flag_vs_code_as_error() {
    let ds = diagnostics("foo VS Code bar");
    assert_eq!(ds.len(), 1);
    assert_eq!(ds[0].severity, Severity::Error);
    assert_eq!(ds[0].range, range(0, 4, 11));
    assert_eq!(ds[0].source, "Common sense");
    assert_eq!(ds[0].message, "Please make sure we use good language");
}

#[test]
fn diagnostics_flag_neovim_as_hint() {
    let ds = diagnostics("I use Neovim");
    assert_eq!(ds.len(), 1);
    assert_eq!(ds[0].severity, Severity::Hint);
    assert_eq!(ds[0].range, range(0, 6, 12));
    assert_eq!(ds[0].message, "Great choice :)");
}

#[test]
fn diagnostics_of_plain_text_are_empty() {
    assert!(diagnostics("plain text").is_empty());
    assert!(diagnostics("").is_empty());
}

#[test]
fn diagnostics_in_line_order_error_before_hint() {
    let ds = diagnostics("Neovim, not VS Code\n\nVS Code VS Code\nx Neovim");
    assert_eq!(ds.len(), 4);
    assert_eq!(ds[0].severity, Severity::Error);
    assert_eq!(ds[0].range, range(0, 12, 19));
    assert_eq!(ds[1].severity, Severity::Hint);
    assert_eq!(ds[1].range, range(0, 0, 6));
    assert_eq!(ds[2].severity, Severity::Error);
    assert_eq!(ds[2].range, range(2, 0, 7));
    assert_eq!(ds[3].severity, Severity::Hint);
    assert_eq!(ds[3].range, range(3, 2, 8));
}

#[test]
fn diagnostics_after_trailing_newline() {
    let ds = diagnostics("a\nNeovim\n");
    assert_eq!(ds.len(), 1);
    assert_eq!(ds[0].range, range(1, 0, 6));
}

#[test]
fn diagnostics_count_bytes_for_columns() {
    let ds = diagnostics("é VS Code");
    assert_eq!(ds.len(), 1);
    assert_eq!(ds[0].range, range(0, 3, 10));
}

#[test]
fn open_returns_diagnostics_of_text() {
    let mut state = State::new();
    let ds = state.open_document(id("file:///a.txt"), id("foo VS Code bar"));
    assert_eq!(ds.len(), 1);
    assert_eq!(ds[0].range, range(0, 4, 11));
    let ds = state.update_document(id("file:///a.txt"), id("plain"));
    assert!(ds.is_empty());
}

#[test]
fn code_action_on_third_line() {
    let mut state = State::new();
    let doc = id("file:///c.txt");
    let text = "first\nsecond\nwe use VS Code here";
    let ds = state.open_document(doc.clone(), id(text));
    let acts = state.code_action(&doc).unwrap();
    assert_eq!(acts.len(), 2);
    assert_eq!(ds.len(), 1);
    assert_eq!(acts[0].edit.range, range(2, 7, 14));
    assert_eq!(acts[0].edit.range, ds[0].range);
    assert_eq!(acts[1].edit.range, ds[0].range);
    assert_eq!(acts[0].title, "Replace VS C*de with a superior editor");
    assert_eq!(acts[0].edit.new_text, "Neovim");
    assert_eq!(acts[1].title, "Censor to VS C*de");
    assert_eq!(acts[1].edit.new_text, "VS C*de");
    assert_eq!(acts[0].document, doc);
    assert_eq!(acts[1].document, doc);
}

#[test]
fn code_action_without_match_is_empty() {
    assert!(code_actions(&id("file:///d"), "I use Neovim").is_empty());
}

#[test]
fn code_action_on_unknown_document_fails() {
    let state = State::new();
    assert_eq!(state.code_action(&id("file:///x")).unwrap_err(), QueryError::UnknownDocument);
}

#[test]
fn completion_has_one_item() {
    let mut state = State::new();
    let doc = id("file:///e");
    state.open_document(doc.clone(), id("VS Code\nNeovim"));
    for d in [&doc, &id("file:///never-opened")] {
        let items = state.completion(d);
        assert_eq!(items.len(), 1);
        assert_eq!(items[0].label, "Neovim (BTW)");
        assert_eq!(items[0].detail, "Very cool editor");
        assert_eq!(items[0].documentation, "Some example documentation");
    }
}

#[test]
fn hover_on_unknown_document_fails() {
    let state = State::new();
    let r = state.hover(&id("file:///missing"), Position { line: 0, character: 0 });
    assert_eq!(r.unwrap_err(), QueryError::UnknownDocument);
}

#[test]
fn hover_reports_id_and_length() {
    let mut state = State::new();
    state.open_document(id("file:///h"), id("héllo"));
    let h = state.hover(&id("file:///h"), Position { line: 3, character: 9 }).unwrap();
    assert_eq!(h.document, "file:///h");
    assert_eq!(h.characters, 5);
}

#[test]
fn definition_points_one_line_up() {
    let state = State::new();
    let loc = state
        .definition(&id("file:///f"), Position { line: 5, character: 3 })
        .unwrap();
    assert_eq!(loc.document, "file:///f");
    assert_eq!(loc.range, range(4, 0, 0));
}

#[test]
fn definition_on_first_line_is_invalid() {
    let state = State::new();
    let r = state.definition(&id("file:///f"), Position { line: 0, character: 3 });
    assert_eq!(r.unwrap_err(), QueryError::InvalidPosition);
}

#[test]
fn writes_to_distinct_documents_do_not_interfere() {
    let mut state = State::new();
    state.open_document(id("a"), id("a0"));
    state.open_document(id("b"), id("b0"));
    state.open_document(id("c"), id("c0"));
    for round in 0..50 {
        state.update_document(id("a"), format!("a{}", round));
        state.update_document(id("b"), format!("b{}", round));
    }
    assert_eq!(state.read(&id("a")), Ok(id("a49")));
    assert_eq!(state.read(&id("b")), Ok(id("b49")));
    assert_eq!(state.read(&id("c")), Ok(id("c0")));
}

#[test]
fn hover_counts_characters_not_bytes() {
    let mut state = State::new();
    state.open_document(id("file:///e"), id("é"));
    let h = state.hover(&id("file:///e"), Position { line: 0, character: 0 }).unwrap();
    assert_eq!(h.characters, 1);
}

#[test]
fn ordinary_texts_fit_positions() {
    assert!(positions_fit(""));
    assert!(positions_fit("a\nVS Code\n"));
}

#[test]
fn resync_with_same_text_changes_nothing() {
    let mut state = State::new();
    let doc = id("file:///r");
    let first = state.open_document(doc.clone(), id("VS Code\nNeovim"));
    let second = state.update_document(doc.clone(), id("VS Code\nNeovim"));
    assert_eq!(first.len(), second.len());
    for (a, b) in first.iter().zip(second.iter()) {
        assert_eq!(a.range, b.range);
        assert_eq!(a.severity, b.severity);
        assert_eq!(a.message, b.message);
    }
    assert_eq!(state.read(&doc), Ok(id("VS Code\nNeovim")));
}

#[test]
fn code_actions_pair_with_error_diagnostics() {
    let text = "VS Code\nNeovim\nx VS Code and Neovim";
    let acts = code_actions(&id("file:///p"), text);
    let errors: Vec<_> = diagnostics(text)
        .into_iter()
        .filter(|d| d.severity == Severity::Error)
        .collect();
    assert_eq!(acts.len(), 2 * errors.len());
    assert_eq!(errors.len(), 2);
    for (i, e) in errors.iter().enumerate() {
        assert_eq!(acts[2 * i].edit.range, e.range);
        assert_eq!(acts[2 * i + 1].edit.range, e.range);
    }
    assert_eq!(errors[1].range, range(2, 2, 9));
}
