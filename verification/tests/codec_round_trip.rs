//! Reading and writing the plan document, and the round-trip law on
//! concrete documents.

use pravda::codec::FormatError;
use pravda::{CommitSpec, HistoryEntry, HistorySpec};

fn sample() -> HistorySpec {
    HistorySpec {
        source: "messy".to_string(),
        remote: "origin/main".to_string(),
        cleaned: "clean".to_string(),
        commits: vec![
            CommitSpec {
                message: "add the parser".to_string(),
                hints: Some("everything under src/parse".to_string()),
                history: vec![
                    HistoryEntry::CommitCreated("abc12345".to_string()),
                    HistoryEntry::Stuck("tests do not build".to_string()),
                    HistoryEntry::Resolved("added the missing fixture".to_string()),
                    HistoryEntry::Complete,
                ],
            },
            CommitSpec {
                message: "wire the cli".to_string(),
                hints: None,
                history: vec![],
            },
        ],
    }
}

fn assert_docs_equal(a: &HistorySpec, b: &HistorySpec) {
    assert_eq!(a.source, b.source);
    assert_eq!(a.remote, b.remote);
    assert_eq!(a.cleaned, b.cleaned);
    assert_eq!(a.commits.len(), b.commits.len());
    for (ca, cb) in a.commits.iter().zip(b.commits.iter()) {
        assert_eq!(ca.message, cb.message);
        assert_eq!(ca.hints, cb.hints);
        assert_eq!(ca.history, cb.history);
    }
}

#[test]
fn serialised_document_reparses_equal() {
    let doc = sample();
    let text = doc.to_toml().expect("serialise");
    let back = HistorySpec::from_toml(&text).expect("reparse");
    assert_docs_equal(&doc, &back);
}

#[test]
fn round_trip_keeps_escaped_characters() {
    let doc = HistorySpec {
        source: "br\"anch".to_string(),
        remote: "up\\stream".to_string(),
        cleaned: "tab\there".to_string(),
        commits: vec![CommitSpec {
            message: "multi\nline \"message\" with \\ and \t".to_string(),
            hints: Some("line one\r\nline two".to_string()),
            history: vec![HistoryEntry::Stuck("reason with \"quotes\"".to_string())],
        }],
    };
    let text = doc.to_toml().expect("serialise");
    let back = HistorySpec::from_toml(&text).expect("reparse");
    assert_docs_equal(&doc, &back);
}

#[test]
fn serialised_text_has_expected_shape() {
    let doc = sample();
    let text = doc.to_toml().expect("serialise");
    let expected = "source = \"messy\"\nremote = \"origin/main\"\ncleaned = \"clean\"\n[[commit]]\nmessage = \"add the parser\"\nhints = \"everything under src/parse\"\nhistory = [\n{ commit_created = \"abc12345\" },\n{ stuck = \"tests do not build\" },\n{ resolved = \"added the missing fixture\" },\n\"complete\",\n]\n[[commit]]\nmessage = \"wire the cli\"\n";
    assert_eq!(text, expected);
}

#[test]
fn parses_hand_written_document_with_blank_lines_and_indent() {
    let text = "source = \"messy\"\nremote = \"origin/main\"\ncleaned = \"clean\"\n\n[[commit]]\nmessage = \"first\"\nhistory = [\n    { commit_created = \"deadbeef\" },\n    \"complete\",\n]\n\n[[commit]]\nmessage = \"second\"\nhints = \"keep it small\"\n";
    let doc = HistorySpec::from_toml(text).expect("parse");
    assert_eq!(doc.source, "messy");
    assert_eq!(doc.remote, "origin/main");
    assert_eq!(doc.cleaned, "clean");
    assert_eq!(doc.commits.len(), 2);
    assert_eq!(doc.commits[0].message, "first");
    assert_eq!(doc.commits[0].hints, None);
    assert_eq!(
        doc.commits[0].history,
        vec![
            HistoryEntry::CommitCreated("deadbeef".to_string()),
            HistoryEntry::Complete,
        ]
    );
    assert_eq!(doc.commits[1].message, "second");
    assert_eq!(doc.commits[1].hints, Some("keep it small".to_string()));
    assert!(doc.commits[1].history.is_empty());
}

#[test]
fn absent_hints_and_history_default_to_none_and_empty() {
    let text = "source = \"s\"\nremote = \"r\"\ncleaned = \"c\"\n[[commit]]\nmessage = \"only a message\"\n";
    let doc = HistorySpec::from_toml(text).expect("parse");
    assert_eq!(doc.commits.len(), 1);
    assert_eq!(doc.commits[0].hints, None);
    assert!(doc.commits[0].history.is_empty());
}

#[test]
fn document_without_commits_parses() {
    let text = "source = \"s\"\nremote = \"r\"\ncleaned = \"c\"\n";
    let doc = HistorySpec::from_toml(text).expect("parse");
    assert!(doc.commits.is_empty());
}

#[test]
fn missing_header_field_is_malformed() {
    let text = "source = \"s\"\ncleaned = \"c\"\n";
    assert_eq!(HistorySpec::from_toml(text), Err(FormatError::Malformed));
}

#[test]
fn unknown_escape_is_malformed() {
    let text = "source = \"s\\q\"\nremote = \"r\"\ncleaned = \"c\"\n";
    assert_eq!(HistorySpec::from_toml(text), Err(FormatError::Malformed));
}

#[test]
fn unclosed_history_block_is_malformed() {
    let text = "source = \"s\"\nremote = \"r\"\ncleaned = \"c\"\n[[commit]]\nmessage = \"m\"\nhistory = [\n\"complete\",\n";
    assert_eq!(HistorySpec::from_toml(text), Err(FormatError::Malformed));
}

#[test]
fn commit_block_without_message_is_malformed() {
    let text = "source = \"s\"\nremote = \"r\"\ncleaned = \"c\"\n[[commit]]\n";
    assert_eq!(HistorySpec::from_toml(text), Err(FormatError::Malformed));
}

#[test]
fn unencodable_control_character_is_refused_on_write() {
    let doc = HistorySpec {
        source: "ok".to_string(),
        remote: "ok".to_string(),
        cleaned: "bad\u{1}branch".to_string(),
        commits: vec![],
    };
    assert_eq!(doc.to_toml(), Err(FormatError::Unencodable));
}

#[test]
fn format_error_describes_itself() {
    assert!(!FormatError::Malformed.describe().is_empty());
    assert!(!FormatError::Unencodable.describe().is_empty());
}

#[test]
fn serialising_a_parsed_document_reparses_to_the_same_document() {
    let text = "source = \"messy\"\nremote = \"origin/main\"\ncleaned = \"clean\"\n\n[[commit]]\nmessage = \"first\"\nhistory = [\n    { stuck = \"lost\" },\n    { resolved = \"found\" },\n]\n";
    let parsed = HistorySpec::from_toml(text).expect("parse");
    let rewritten = parsed.to_toml().expect("serialise");
    let reparsed = HistorySpec::from_toml(&rewritten).expect("reparse");
    assert_docs_equal(&parsed, &reparsed);
}
