use pelican_post::models::PostModel;
use pelican_post::models::Timestamp;
use pelican_post::writers::compose_post_file;
use pelican_post::writers::render_post;

fn sample_model() -> PostModel {
    let mut m = PostModel::new("content".to_string());
    m.title = Some("Hello".to_string());
    m.category = Some("Tech".to_string());
    m.tags = vec!["b".to_string(), "a".to_string()];
    m.created_at = Timestamp { year: 2024, month: 1, day: 2, hour: 3, minute: 4, second: 5 };
    m
}

#[test]
fn round_trip_derives_slug_and_sorts_tags() {
    let m = sample_model();
    let header = render_post(&m);
    assert_eq!(
        header,
        "Title: Hello\nSlug: hello\nDate: 2024-01-02 03:04:05\nCategory: Tech\nTags: a, b\n"
    );
}

#[test]
fn explicit_slug_is_rendered_verbatim() {
    let mut m = sample_model();
    m.slug = Some("other".to_string());
    let header = render_post(&m);
    assert!(header.contains("\nSlug: other\n"));
}

#[test]
fn tags_line_is_omitted_without_tags() {
    let mut m = sample_model();
    m.tags = Vec::new();
    let header = render_post(&m);
    assert_eq!(
        header,
        "Title: Hello\nSlug: hello\nDate: 2024-01-02 03:04:05\nCategory: Tech\n"
    );
}

#[test]
fn duplicate_tags_are_rendered_sorted_not_deduplicated() {
    let mut m = sample_model();
    m.tags = vec!["b".to_string(), "a".to_string(), "b".to_string()];
    let header = render_post(&m);
    assert!(header.ends_with("Tags: a, b, b\n"));
}

#[test]
fn fresh_file_content_is_header_and_blank_line() {
    let m = sample_model();
    let header = render_post(&m);
    let content = compose_post_file(&m, None);
    let mut expected = header.into_bytes();
    expected.push(b'\n');
    assert_eq!(content, expected);
}

#[test]
fn merge_prefixes_and_never_alters_the_old_bytes() {
    let m = sample_model();
    let old = b"Old content\n".to_vec();
    let fresh = compose_post_file(&m, None);
    let merged = compose_post_file(&m, Some(&old));
    let mut expected = fresh.clone();
    expected.extend_from_slice(&old);
    assert_eq!(merged, expected);
    assert_eq!(&merged[fresh.len()..], &old[..]);
}

#[test]
fn merge_preserves_non_utf8_bytes() {
    let m = sample_model();
    let old = vec![0xffu8, 0x00, 0xfe, b'\n'];
    let merged = compose_post_file(&m, Some(&old));
    assert!(merged.ends_with(&old));
}
