use flowmux::browser::{bookmarks_path, can_bookmark, Bookmark, BookmarkRepository, DomNode, DomSnapshot};

fn sample() -> DomSnapshot {
    DomSnapshot {
        url: "https://example.com/login".into(),
        title: "Sign in".into(),
        nodes: vec![
            DomNode {
                ref_id: "e1".into(),
                tag: "input".into(),
                role: "textbox".into(),
                name: "Email".into(),
                bbox: [40, 200, 320, 36],
            },
            DomNode {
                ref_id: "e2".into(),
                tag: "button".into(),
                role: "button".into(),
                name: "Sign in".into(),
                bbox: [40, 280, 120, 36],
            },
        ],
    }
}

#[test]
fn empty_constructor_works() {
    let s = DomSnapshot::empty("about:blank");
    assert_eq!(s.url, "about:blank");
    assert_eq!(s.title, "");
    assert!(s.nodes.is_empty());
}

#[test]
fn find_locates_node_by_ref() {
    let s = sample();
    assert_eq!(s.find("e1").unwrap().tag, "input");
    assert_eq!(s.find("e2").unwrap().tag, "button");
    assert!(s.find("e99").is_none());
}

#[test]
fn find_returns_the_first_of_duplicate_refs() {
    let mut s = sample();
    s.nodes[1].ref_id = "e1".into();
    assert_eq!(s.find("e1").unwrap().tag, "input");
    assert_eq!(s.find("e1").unwrap().bbox, [40, 200, 320, 36]);
    assert!(DomSnapshot::empty("x").find("e1").is_none());
}

fn bookmark(title: &str, url: &str) -> Bookmark {
    Bookmark { title: title.into(), url: url.into() }
}

#[test]
fn add_updates_duplicate_and_remove_persists() {
    let mut repository = BookmarkRepository::from_path("/tmp/bookmarks.json", Vec::new());

    repository.add(bookmark("First", "https://example.com"));
    repository.add(bookmark("Updated", "https://example.com"));
    repository.add(bookmark("Other", "https://example.org"));

    assert_eq!(
        repository.bookmarks(),
        &vec![bookmark("Other", "https://example.org"), bookmark("Updated", "https://example.com")]
    );
    repository.remove("https://example.org");
    assert_eq!(repository.bookmarks().len(), 1);
}

#[test]
fn add_and_remove_return_the_list_to_save() {
    let loaded = vec![
        bookmark("A", "https://a.test"),
        bookmark("B", "https://b.test"),
        bookmark("A2", "https://a.test"),
    ];
    let mut repository = BookmarkRepository::from_path("/data/bookmarks.json", loaded);
    assert_eq!(repository.path(), "/data/bookmarks.json");
    let after_add = repository.add(bookmark("C", "https://c.test"));
    assert_eq!(after_add.len(), 4);
    assert_eq!(after_add[0], bookmark("C", "https://c.test"));
    let after_remove = repository.remove("https://a.test");
    assert_eq!(after_remove, vec![bookmark("C", "https://c.test"), bookmark("B", "https://b.test")]);
    assert_eq!(repository.bookmarks(), &after_remove);
    let unchanged = repository.remove("https://missing.test");
    assert_eq!(unchanged, after_remove);
}

#[test]
fn bookmark_files_live_under_the_data_directory() {
    assert_eq!(
        bookmarks_path("/home/u/.local/share", "work"),
        "/home/u/.local/share/flowmux/browser/work/bookmarks.json"
    );
    if let Ok(repository) = BookmarkRepository::for_profile("work") {
        assert!(repository.path().ends_with("/flowmux/browser/work/bookmarks.json"));
        assert!(repository.bookmarks().is_empty());
    }
}

#[test]
fn blank_pages_cannot_be_bookmarked() {
    assert!(!can_bookmark(""));
    assert!(!can_bookmark("about:blank"));
    assert!(can_bookmark("about:blank#x"));
    assert!(can_bookmark("https://example.com"));
}
