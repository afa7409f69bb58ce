use pelican_post::models::PostModel;
use pelican_post::models::Timestamp;

fn fixed_ts() -> Timestamp {
    Timestamp { year: 2024, month: 1, day: 2, hour: 3, minute: 4, second: 5 }
}

#[test]
fn fresh_model_has_nothing_chosen() {
    let m = PostModel::new("content".to_string());
    assert!(m.title.is_none());
    assert!(m.slug.is_none());
    assert!(m.category.is_none());
    assert!(m.tags.is_empty());
    assert_eq!(m.created_at, m.updated_at);
}

#[test]
fn file_path_with_slug() {
    let mut m = PostModel::new("content".to_string());
    m.created_at = fixed_ts();
    m.slug = Some("hello".to_string());
    assert_eq!(m.file_path(), "content/2024/hello.md");
}

#[test]
fn file_path_without_slug_uses_placeholder() {
    let mut m = PostModel::new("content".to_string());
    m.created_at = fixed_ts();
    assert_eq!(m.file_path(), "content/2024/new-file.md");
}

#[test]
fn file_path_pads_the_year_to_four_digits() {
    let mut m = PostModel::new("root".to_string());
    m.created_at = Timestamp { year: 42, month: 6, day: 1, hour: 0, minute: 0, second: 0 };
    assert_eq!(m.file_path(), "root/0042/new-file.md");
}

#[test]
fn generated_slug_derives_from_title() {
    let mut m = PostModel::new("c".to_string());
    m.set_title("Hello World!".to_string());
    assert_eq!(m.generated_slug(), Some("hello-world".to_string()));
}

#[test]
fn generated_slug_without_title_is_none() {
    let m = PostModel::new("c".to_string());
    assert_eq!(m.generated_slug(), None);
}

#[test]
fn empty_slug_falls_back_to_generated() {
    let mut m = PostModel::new("c".to_string());
    m.set_title("My Post".to_string());
    m.set_slug(String::new());
    assert_eq!(m.slug, Some("my-post".to_string()));
}

#[test]
fn explicit_slug_is_kept() {
    let mut m = PostModel::new("c".to_string());
    m.set_title("My Post".to_string());
    m.set_slug("custom-slug".to_string());
    assert_eq!(m.slug, Some("custom-slug".to_string()));
}

#[test]
fn set_created_at_keeps_the_time_of_day() {
    let mut m = PostModel::new("c".to_string());
    m.created_at = fixed_ts();
    m.set_created_at(1999, 12, 31);
    assert_eq!(
        m.created_at,
        Timestamp { year: 1999, month: 12, day: 31, hour: 3, minute: 4, second: 5 }
    );
}

#[test]
fn timestamp_format_pads_every_field() {
    let t = Timestamp { year: 987, month: 3, day: 7, hour: 9, minute: 5, second: 0 };
    assert_eq!(t.format(), "0987-03-07 09:05:00");
}

#[test]
fn replace_date_changes_only_the_date() {
    let t = fixed_ts();
    let r = t.replace_date(2030, 11, 20);
    assert_eq!(r, Timestamp { year: 2030, month: 11, day: 20, hour: 3, minute: 4, second: 5 });
}
