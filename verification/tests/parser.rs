use pelican_post::metadata::MarkdownFileParser;

fn lines(ls: &[&str]) -> Vec<String> {
    ls.iter().map(|l| l.to_string()).collect()
}

#[test]
fn blank_first_line_yields_none() {
    let r = MarkdownFileParser::read_metadata(&lines(&["", "Category: Tech"]));
    assert!(r.is_none());
}

#[test]
fn whitespace_only_first_line_yields_none() {
    let r = MarkdownFileParser::read_metadata(&lines(&[" \t ", "Tags: a, b"]));
    assert!(r.is_none());
}

#[test]
fn empty_file_yields_none() {
    let r = MarkdownFileParser::read_metadata(&lines(&[]));
    assert!(r.is_none());
}

#[test]
fn duplicate_tags_in_one_file_are_preserved() {
    let r = MarkdownFileParser::read_metadata(&lines(&[
        "Category: Tech",
        "Tags: rust, cli, rust",
        "",
        "Body...",
    ]))
    .unwrap();
    assert_eq!(r.category, "Tech");
    assert_eq!(r.tags, vec!["rust".to_string(), "cli".to_string(), "rust".to_string()]);
}

#[test]
fn line_without_colon_is_skipped() {
    let r = MarkdownFileParser::read_metadata(&lines(&[
        "just a line",
        "Category: X",
    ]))
    .unwrap();
    assert_eq!(r.category, "X");
    assert!(r.tags.is_empty());
}

#[test]
fn later_duplicate_key_wins_case_insensitively() {
    let r = MarkdownFileParser::read_metadata(&lines(&[
        "Category: A",
        "CATEGORY: B",
    ]))
    .unwrap();
    assert_eq!(r.category, "B");
}

#[test]
fn keys_are_matched_case_insensitively() {
    let r = MarkdownFileParser::read_metadata(&lines(&["TAGS: a"])).unwrap();
    assert_eq!(r.tags, vec!["a".to_string()]);
    assert_eq!(r.category, "");
}

#[test]
fn empty_tag_pieces_are_discarded() {
    let r = MarkdownFileParser::read_metadata(&lines(&["Tags: , a, , b,"])).unwrap();
    assert_eq!(r.tags, vec!["a".to_string(), "b".to_string()]);
}

#[test]
fn unknown_keys_alone_yield_none() {
    let r = MarkdownFileParser::read_metadata(&lines(&["Other: x", "Author: y"]));
    assert!(r.is_none());
}

#[test]
fn whitespace_only_values_yield_none() {
    let r = MarkdownFileParser::read_metadata(&lines(&["Category:    ", "Tags:  ,  "]));
    assert!(r.is_none());
}

#[test]
fn values_are_trimmed() {
    let r = MarkdownFileParser::read_metadata(&lines(&["Category:   Tech  "])).unwrap();
    assert_eq!(r.category, "Tech");
}

#[test]
fn block_ends_at_first_blank_line() {
    let r = MarkdownFileParser::read_metadata(&lines(&[
        "Category: A",
        "",
        "Tags: b",
    ]))
    .unwrap();
    assert_eq!(r.category, "A");
    assert!(r.tags.is_empty());
}
