use pelican_post::models::DataStore;
use pelican_post::models::ScannedFile;

fn entry(name: &str, lines: Option<&[&str]>) -> ScannedFile {
    ScannedFile {
        name: name.to_string(),
        lines: lines.map(|ls| ls.iter().map(|l| l.to_string()).collect()),
    }
}

#[test]
fn no_entries_empty_catalog() {
    let mut store = DataStore::new();
    let r = store.fill_from_dir(&Vec::new());
    assert!(r.is_ok());
    assert!(store.categories.is_empty());
    assert!(store.tags.is_empty());
}

#[test]
fn zero_classifiable_files_empty_catalog() {
    let mut store = DataStore::new();
    let entries = vec![
        entry("notes.txt", Some(&["Category: Tech"])),
        entry("README", Some(&["Tags: a, b"])),
        entry("image.png", Some(&["Category: Art"])),
    ];
    let r = store.fill_from_dir(&entries);
    assert!(r.is_ok());
    assert!(store.categories.is_empty());
    assert!(store.tags.is_empty());
}

#[test]
fn scan_tolerates_an_unreadable_file() {
    let mut store = DataStore::new();
    let mut entries = vec![entry("broken.md", None)];
    for i in 1..=9 {
        let cat = format!("Category: Cat{i}");
        let tag = format!("Tags: tag{i}");
        entries.push(ScannedFile {
            name: format!("post{i}.md"),
            lines: Some(vec![cat, tag, String::new(), "Body".to_string()]),
        });
    }
    let r = store.fill_from_dir(&entries);
    assert!(r.is_ok());
    let cats = store.sorted_categories();
    let tags = store.sorted_tags();
    assert_eq!(cats.len(), 9);
    assert_eq!(tags.len(), 9);
    for i in 1..=9 {
        assert!(cats.contains(&format!("Cat{i}")));
        assert!(tags.contains(&format!("tag{i}")));
    }
}

#[test]
fn only_unreadable_files_empty_catalog() {
    let mut store = DataStore::new();
    let entries = vec![entry("a.md", None), entry("b.md", None)];
    let r = store.fill_from_dir(&entries);
    assert!(r.is_ok());
    assert!(store.categories.is_empty());
    assert!(store.tags.is_empty());
}

#[test]
fn duplicates_across_files_are_collapsed() {
    let mut store = DataStore::new();
    let entries = vec![
        entry("a.md", Some(&["Category: Tech", "Tags: rust"])),
        entry("b.md", Some(&["Category: Tech", "Tags: rust, cli"])),
    ];
    store.fill_from_dir(&entries).unwrap();
    assert_eq!(store.sorted_categories(), vec!["Tech".to_string()]);
    assert_eq!(store.sorted_tags(), vec!["cli".to_string(), "rust".to_string()]);
}

#[test]
fn blank_categories_are_never_inserted() {
    let mut store = DataStore::new();
    let entries = vec![
        entry("a.md", Some(&["Category:    ", "Tags: a"])),
        entry("b.md", Some(&["Category:", "Tags: b"])),
    ];
    store.fill_from_dir(&entries).unwrap();
    assert!(store.categories.is_empty());
    assert_eq!(store.sorted_tags(), vec!["a".to_string(), "b".to_string()]);
}

#[test]
fn catalog_grows_incrementally() {
    let mut store = DataStore::new();
    store
        .fill_from_dir(&vec![entry("a.md", Some(&["Category: One"]))])
        .unwrap();
    store
        .fill_from_dir(&vec![entry("b.md", Some(&["Category: Two"]))])
        .unwrap();
    let cats = store.sorted_categories();
    assert_eq!(cats, vec!["One".to_string(), "Two".to_string()]);
}

#[test]
fn sorted_accessors_sort_lexicographically() {
    let mut store = DataStore::new();
    let entries = vec![entry("a.md", Some(&["Tags: pear, apple, banana"]))];
    store.fill_from_dir(&entries).unwrap();
    assert_eq!(
        store.sorted_tags(),
        vec!["apple".to_string(), "banana".to_string(), "pear".to_string()]
    );
}
