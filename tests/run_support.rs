use file_dup::digest::{content_digest, digest_hex};
use file_dup::retention::{rank_newest_first, stamp_before, Stamped};
use file_dup::run::{
    chunk_size, collapse_strings, glob_pattern, has_leading_dot, scan_pattern, worker_count,
};
use file_dup::text::{chars_of, text_less};

#[test]
fn test_calculate_hash_file() {
    let hash = content_digest("Hello, World!\n".as_bytes());
    let expected_hash = blake3::hash("Hello, World!\n".as_bytes());
    assert_eq!(hash, data_encoding::HEXLOWER.encode(expected_hash.as_bytes()));
}

#[test]
fn digest_of_empty_content() {
    assert_eq!(
        content_digest(b""),
        "af1349b9f5f9a1a6a0404dea36dcc9499bcb25c9adc112b7cc9a93cae41f3262"
    );
    assert_eq!(content_digest(b"abc").len(), 64);
}

#[test]
fn hex_is_lowercase_two_digits_per_byte() {
    assert_eq!(digest_hex(&[0xde, 0xad, 0xbe, 0xef]), "deadbeef");
    assert_eq!(digest_hex(&[0x00, 0x0f, 0xa0]), "000fa0");
    assert_eq!(digest_hex(&[]), "");
}

#[test]
fn test_collapse_strings_filters_empty() {
    let input = vec![
        "line1".to_string(),
        "".to_string(),
        "line2".to_string(),
        "".to_string(),
        "line3".to_string(),
    ];
    let result = collapse_strings(&input);
    assert_eq!(result, "line1\nline2\nline3");
}

#[test]
fn test_collapse_strings_all_empty() {
    let input = vec!["".to_string(), "".to_string()];
    let result = collapse_strings(&input);
    assert_eq!(result, "");
}

#[test]
fn collapse_of_nothing_is_empty() {
    assert_eq!(collapse_strings(&vec![]), "");
    assert_eq!(collapse_strings(&vec!["".to_string(), "a\nb".to_string()]), "a\nb");
}

#[test]
fn extension_needs_a_leading_dot() {
    assert!(has_leading_dot(&".pdf".to_string()));
    assert!(!has_leading_dot(&"pdf".to_string()));
    assert!(!has_leading_dot(&"".to_string()));
}

#[test]
fn scan_patterns() {
    assert_eq!(scan_pattern(&".pdf".to_string()), "*.pdf");
    assert_eq!(glob_pattern(&"/tmp/x".to_string(), &"*.pdf".to_string()), "/tmp/x/*.pdf");
}

#[test]
fn workers_follow_the_file_count() {
    assert_eq!(worker_count(8, 0), 1);
    assert_eq!(worker_count(8, 25), 2);
    assert_eq!(worker_count(8, 1000), 8);
    assert_eq!(worker_count(4, 40), 4);
    assert_eq!(chunk_size(0, 4), 1);
    assert_eq!(chunk_size(10, 0), 10);
    assert_eq!(chunk_size(10, 3), 3);
    assert_eq!(chunk_size(100, 1), 100);
}

#[test]
fn text_order_is_lexicographic() {
    assert!(text_less("a", "b"));
    assert!(text_less("ab", "abc"));
    assert!(!text_less("abc", "ab"));
    assert!(!text_less("x", "x"));
    assert!(text_less("k (10).md", "k (2).md"));
    assert!(text_less("z", "é"));
    assert_eq!(chars_of("aé"), vec!['a', 'é']);
}

#[test]
fn ranking_is_newest_first() {
    let s = |t: i128, p: &str| Stamped { created: t, path: p.to_string() };
    assert!(stamp_before(&s(1, "z"), &s(2, "a")));
    assert!(stamp_before(&s(2, "a"), &s(2, "b")));
    assert!(!stamp_before(&s(2, "b"), &s(2, "b")));
    let ranked = rank_newest_first(vec![s(3, "b"), s(9, "a"), s(-1, "c"), s(3, "c")]);
    let order: Vec<(i128, String)> = ranked.into_iter().map(|x| (x.created, x.path)).collect();
    assert_eq!(
        order,
        vec![
            (9, "a".to_string()),
            (3, "c".to_string()),
            (3, "b".to_string()),
            (-1, "c".to_string())
        ]
    );
}
