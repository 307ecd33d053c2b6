use file_dup::error::PlanError;
use file_dup::matcher::{copy_pattern_for, escape_stem, escape_text, family};

fn names(v: &[&str]) -> Vec<String> {
    v.iter().map(|s| s.to_string()).collect()
}

#[test]
fn pattern_escapes_parentheses_of_the_stem() {
    assert_eq!(escape_stem("doc(test)"), "doc\\(test\\)");
    assert_eq!(escape_stem("plain"), "plain");
    assert_eq!(escape_stem(""), "");
    assert_eq!(copy_pattern_for("doc(test)", ".pdf"), "doc\\(test\\) \\(\\d+\\)\\.pdf");
}

#[test]
fn extension_is_escaped_literally() {
    assert_eq!(escape_text(".pdf"), "\\.pdf");
    assert_eq!(escape_text("a+b*c?"), "a\\+b\\*c\\?");
    assert_eq!(escape_text("[x]{1}^$|\\"), "\\[x\\]\\{1\\}\\^\\$\\|\\\\");
    assert_eq!(escape_text("txt"), "txt");
    assert_eq!(copy_pattern_for("n", ".c++"), "n \\(\\d+\\)\\.c\\+\\+");
}

#[test]
fn family_keeps_numbered_copies_in_order() {
    let candidates = names(&[
        "d/doc (2).pdf",
        "d/doc.pdf",
        "d/doc(1).pdf",
        "d/doc (x).pdf",
        "d/doc (1).pdf",
        "d/doc (1).txt",
        "d/other (1).pdf",
    ]);
    let members = family(&"d/doc.pdf".to_string(), &".pdf".to_string(), &candidates).unwrap();
    assert_eq!(members, names(&["d/doc (2).pdf", "d/doc (1).pdf"]));
}

#[test]
fn family_search_is_not_anchored() {
    let candidates = names(&["d/mydoc (3).pdf", "d/doc (4).pdf.bak"]);
    let members = family(&"d/doc.pdf".to_string(), &".pdf".to_string(), &candidates).unwrap();
    assert_eq!(members, candidates);
}

#[test]
fn family_of_a_path_without_stem_fails() {
    let r = family(&"/".to_string(), &".pdf".to_string(), &vec![]);
    match r {
        Err(PlanError::InvalidPath { path }) => assert_eq!(path, "/"),
        _ => panic!("expected an invalid path"),
    }
}

#[test]
fn family_with_an_unbalanced_stem_fails() {
    let r = family(&"a[b.pdf".to_string(), &".pdf".to_string(), &names(&["a[b (1).pdf"]));
    match r {
        Err(PlanError::InvalidPattern { pattern, reason }) => {
            assert_eq!(pattern, "a[b \\(\\d+\\)\\.pdf");
            assert!(!reason.is_empty());
        }
        _ => panic!("expected an invalid pattern"),
    }
}

#[test]
fn error_messages_name_the_path() {
    let e = PlanError::InvalidPath { path: "x".to_string() };
    assert_eq!(e.message(), "Invalid file path: x");
    let e = PlanError::HashFailure { path: "a.pdf".to_string(), reason: "denied".to_string() };
    assert_eq!(e.message(), "Failed to hash a.pdf: denied");
    let e = PlanError::TimeFailure { path: "a.pdf".to_string(), reason: "gone".to_string() };
    assert_eq!(e.message(), "Failed to get creation time for a.pdf: gone");
    let e = PlanError::InvalidPattern { pattern: "p(".to_string(), reason: "r".to_string() };
    assert_eq!(e.message(), "Failed to compile regex 'p(': r");
}

#[test]
fn original_is_never_its_own_member() {
    let original = "doc.pdf".to_string();
    let members = family(&original, &".pdf".to_string(), &vec![original.clone()]).unwrap();
    assert!(members.is_empty());
    // `|` in this stem splits the pattern into two alternatives, the first of
    // which occurs in the original itself; it still stays out of its family.
    let original = "x (1)|y.pdf".to_string();
    let candidates = names(&["x (1)|y.pdf", "zz x (1)"]);
    let members = family(&original, &".pdf".to_string(), &candidates).unwrap();
    assert_eq!(members, names(&["zz x (1)"]));
}

#[test]
fn extension_matches_only_itself() {
    let candidates = names(&["d (1)Xpdf", "d (1).pdf", "d (2).pdfx"]);
    let members = family(&"d.pdf".to_string(), &".pdf".to_string(), &candidates).unwrap();
    assert_eq!(members, names(&["d (1).pdf", "d (2).pdfx"]));
}
