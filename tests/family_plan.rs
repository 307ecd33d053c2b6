use file_dup::classify::{classify, diverged_members, exact_members, ClassifiedMember};
use file_dup::digest::content_digest;
use file_dup::matcher::family;
use file_dup::plan::render;
use file_dup::retention::{resolve, RetentionDecision};

/// A file of the test family: its path, its content and its creation time.
struct Fake {
    path: &'static str,
    content: &'static [u8],
    created: i128,
}

fn lookup<'a>(files: &'a [Fake], path: &str) -> &'a Fake {
    files.iter().find(|f| f.path == path).unwrap()
}

/// Runs the whole family pipeline for `original` over in-memory files.
fn plan_for(original: &str, ext: &str, files: &[Fake]) -> String {
    let candidates: Vec<String> = files.iter().map(|f| f.path.to_string()).collect();
    let original = original.to_string();
    let members = family(&original, &ext.to_string(), &candidates).unwrap();
    if members.is_empty() {
        return String::new();
    }
    let original_digest = content_digest(lookup(files, &original).content);
    let digests: Vec<String> =
        members.iter().map(|m| content_digest(lookup(files, m).content)).collect();
    let classified = classify(&original_digest, &members, &digests);
    let times: Vec<i128> =
        diverged_members(&classified).iter().map(|p| lookup(files, p).created).collect();
    let decision = resolve(&classified, &times);
    render(&original, &original_digest, &classified, &decision)
}

fn count_lines_starting(text: &str, prefix: &str) -> usize {
    text.lines().filter(|l| l.starts_with(prefix)).count()
}

#[test]
fn test_process_with_exact_duplicates() {
    let files = [
        Fake { path: "dir/doc.pdf", content: b"test content", created: 1 },
        Fake { path: "dir/doc (1).pdf", content: b"test content", created: 2 },
    ];
    let result = plan_for("dir/doc.pdf", ".pdf", &files);
    assert!(result.contains("rm"));
    assert!(result.contains("doc (1).pdf"));
    assert!(result.contains("#"));
    assert!(result.contains("rm \"dir/doc (1).pdf\" # dir/doc.pdf"));
    assert!(!result.contains("mv"));
}

#[test]
fn test_process_with_different_content() {
    let files = [
        Fake { path: "doc.pdf", content: b"original content", created: 10 },
        Fake { path: "doc (1).pdf", content: b"different content", created: 20 },
    ];
    let result = plan_for("doc.pdf", ".pdf", &files);
    assert!(result.contains("rm"));
    assert!(result.contains("mv"));
    let expected = format!(
        "# ------------------------------ doc.pdf {}\n# doc (1).pdf {}\nrm \"doc.pdf\"\nmv \"doc (1).pdf\" \"doc.pdf\"",
        content_digest(b"original content"),
        content_digest(b"different content"),
    );
    assert_eq!(result, expected);
}

#[test]
fn test_process_no_duplicates() {
    let files = [Fake { path: "doc.pdf", content: b"content", created: 1 }];
    let result = plan_for("doc.pdf", ".pdf", &files);
    assert!(result.is_empty());
}

#[test]
fn test_process_multiple_duplicates_same_hash() {
    let files = [
        Fake { path: "doc.pdf", content: b"same content", created: 1 },
        Fake { path: "doc (1).pdf", content: b"same content", created: 2 },
        Fake { path: "doc (2).pdf", content: b"same content", created: 3 },
    ];
    let result = plan_for("doc.pdf", ".pdf", &files);
    let rm_count = result.matches("rm").count();
    assert!(rm_count >= 2, "Expected at least 2 rm commands, got {}", rm_count);
    assert_eq!(count_lines_starting(&result, "rm "), 2);
    assert_eq!(count_lines_starting(&result, "mv "), 0);
}

#[test]
fn test_process_with_special_chars_in_filename() {
    let files = [
        Fake { path: "doc(test).pdf", content: b"content", created: 1 },
        Fake { path: "doc(test) (1).pdf", content: b"content", created: 2 },
    ];
    let candidates: Vec<String> = files.iter().map(|f| f.path.to_string()).collect();
    let members = family(&"doc(test).pdf".to_string(), &".pdf".to_string(), &candidates);
    assert!(members.is_ok());
    assert_eq!(members.unwrap(), vec!["doc(test) (1).pdf".to_string()]);
    let result = plan_for("doc(test).pdf", ".pdf", &files);
    assert!(result.contains("rm \"doc(test) (1).pdf\" # doc(test).pdf"));
}

#[test]
fn empty_family_gives_empty_plan() {
    let original = "doc.pdf".to_string();
    let members = family(&original, &".pdf".to_string(), &vec![original.clone()]).unwrap();
    assert!(members.is_empty());
    let digest = content_digest(b"content");
    let classified = classify(&digest, &members, &vec![]);
    let decision = resolve(&classified, &vec![]);
    assert!(matches!(decision, RetentionDecision::NoAction));
    assert_eq!(render(&original, &digest, &classified, &decision), "");
}

#[test]
fn exact_duplicates_are_never_renamed() {
    let files = [
        Fake { path: "a.txt", content: b"one", created: 5 },
        Fake { path: "a (1).txt", content: b"one", created: 50 },
        Fake { path: "a (2).txt", content: b"two", created: 7 },
    ];
    let result = plan_for("a.txt", ".txt", &files);
    assert!(result.contains("rm \"a (1).txt\" # a.txt"));
    assert_eq!(count_lines_starting(&result, "mv "), 1);
    assert!(result.ends_with("mv \"a (2).txt\" \"a.txt\""));
    assert!(!result.contains("mv \"a (1).txt\""));
}

#[test]
fn newest_diverged_copy_survives() {
    let files = [
        Fake { path: "r.doc", content: b"base", created: 0 },
        Fake { path: "r (1).doc", content: b"v1", created: 300 },
        Fake { path: "r (2).doc", content: b"v2", created: 900 },
        Fake { path: "r (3).doc", content: b"v3", created: 600 },
    ];
    let result = plan_for("r.doc", ".doc", &files);
    let lines: Vec<&str> = result.lines().collect();
    assert_eq!(lines.len(), 1 + 3 + 3 + 1);
    assert_eq!(lines[4], "rm \"r.doc\"");
    assert_eq!(lines[5], "rm \"r (3).doc\"");
    assert_eq!(lines[6], "rm \"r (1).doc\"");
    assert_eq!(lines[7], "mv \"r (2).doc\" \"r.doc\"");
    assert_eq!(count_lines_starting(&result, "mv "), 1);
}

#[test]
fn equal_times_go_to_the_greatest_path() {
    let files = [
        Fake { path: "k.md", content: b"base", created: -4 },
        Fake { path: "k (1).md", content: b"x", created: 77 },
        Fake { path: "k (2).md", content: b"y", created: 77 },
        Fake { path: "k (10).md", content: b"z", created: 77 },
    ];
    let result = plan_for("k.md", ".md", &files);
    assert!(result.ends_with("rm \"k.md\"\nrm \"k (10).md\"\nrm \"k (1).md\"\nmv \"k (2).md\" \"k.md\""));
}

#[test]
fn planning_twice_gives_the_same_text() {
    let files = [
        Fake { path: "p.pdf", content: b"base", created: 1 },
        Fake { path: "p (1).pdf", content: b"base", created: 2 },
        Fake { path: "p (2).pdf", content: b"new", created: 3 },
        Fake { path: "p (3).pdf", content: b"newer", created: 3 },
    ];
    let first = plan_for("p.pdf", ".pdf", &files);
    let second = plan_for("p.pdf", ".pdf", &files);
    assert_eq!(first, second);
}

#[test]
fn classify_labels_by_digest() {
    let members = vec!["m (1).x".to_string(), "m (2).x".to_string()];
    let digests = vec!["aa".to_string(), "bb".to_string()];
    let classified: Vec<ClassifiedMember> = classify(&"aa".to_string(), &members, &digests);
    assert!(classified[0].exact);
    assert!(!classified[1].exact);
    assert_eq!(classified[1].digest, "bb");
    assert_eq!(exact_members(&classified), vec!["m (1).x".to_string()]);
    assert_eq!(diverged_members(&classified), vec!["m (2).x".to_string()]);
}

#[test]
fn resolve_without_diverged_members_keeps_the_original() {
    let members = vec!["m (1).x".to_string()];
    let digests = vec!["aa".to_string()];
    let classified = classify(&"aa".to_string(), &members, &digests);
    match resolve(&classified, &vec![]) {
        RetentionDecision::RemoveExactDuplicatesOnly { exact } => {
            assert_eq!(exact, vec!["m (1).x".to_string()])
        }
        _ => panic!("expected only the exact duplicates to go"),
    }
}
