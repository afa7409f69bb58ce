use pelican_post::classify::extension_of;
use pelican_post::classify::FileType;

#[test]
fn recognizes_every_allowed_extension() {
    assert_eq!(FileType::from_name("post.md"), FileType::MARKDOWN);
    assert_eq!(FileType::from_name("a.markdown"), FileType::MARKDOWN);
    assert_eq!(FileType::from_name("b.mkd"), FileType::MARKDOWN);
    assert_eq!(FileType::from_name("c.mdown"), FileType::MARKDOWN);
}

#[test]
fn extension_matching_is_case_sensitive() {
    assert_eq!(FileType::from_name("x.MD"), FileType::UNKNOWN);
    assert_eq!(FileType::from_name("x.Markdown"), FileType::UNKNOWN);
}

#[test]
fn rejects_other_names() {
    assert_eq!(FileType::from_name("note.txt"), FileType::UNKNOWN);
    assert_eq!(FileType::from_name("README"), FileType::UNKNOWN);
    assert_eq!(FileType::from_name("md"), FileType::UNKNOWN);
}

#[test]
fn leading_dot_is_not_an_extension_separator() {
    assert_eq!(FileType::from_name(".md"), FileType::UNKNOWN);
    assert_eq!(FileType::from_name(".hidden.md"), FileType::MARKDOWN);
}

#[test]
fn last_dot_decides() {
    assert_eq!(FileType::from_name("archive.tar.md"), FileType::MARKDOWN);
    assert_eq!(FileType::from_name("post.md.bak"), FileType::UNKNOWN);
}

#[test]
fn non_ascii_names_are_always_unrecognized() {
    assert_eq!(FileType::from_name("na\u{ef}ve.md"), FileType::UNKNOWN);
}

#[test]
fn extension_of_follows_path_semantics() {
    assert_eq!(extension_of("a.b.c"), "c");
    assert_eq!(extension_of(".gitignore"), "");
    assert_eq!(extension_of("foo."), "");
    assert_eq!(extension_of("plain"), "");
}
