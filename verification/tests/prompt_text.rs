//! The plan-authoring guidance text.

use pravda::prompt;

#[test]
fn guidance_is_not_empty() {
    assert!(!prompt().is_empty());
}

#[test]
fn guidance_describes_the_document_fields() {
    let text = prompt();
    assert!(text.contains("source"));
    assert!(text.contains("remote"));
    assert!(text.contains("cleaned"));
    assert!(text.contains("[[commit]]"));
    assert!(text.contains("message"));
    assert!(text.contains("hints"));
}
