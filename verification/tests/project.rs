use project_scan::identifier::hash_path;
use project_scan::project::{ProjectEntry, ProjectStructure, WalkEvent, WalkedEntry, WALK_DEPTH};

fn found(path: &str, parent: &str, is_file: bool) -> WalkEvent {
    WalkEvent::Found(WalkedEntry {
        path: path.to_string(),
        parent: Some(parent.to_string()),
        is_file,
    })
}

fn root(path: &str) -> WalkEvent {
    WalkEvent::Found(WalkedEntry { path: path.to_string(), parent: None, is_file: false })
}

#[test]
fn walk_goes_one_level_deep() {
    assert_eq!(WALK_DEPTH, 1);
}

#[test]
fn walk_that_found_nothing_gives_the_empty_listing() {
    let listing = ProjectStructure::from_walk(&vec![WalkEvent::Failed]).unwrap();
    assert_eq!(listing.name, "");
    assert_eq!(listing.root_path, "");
    assert_eq!(listing.root_hash, "");
    assert!(listing.files.is_empty());
}

#[test]
fn walk_without_steps_gives_the_empty_listing() {
    let listing = ProjectStructure::from_walk(&Vec::new()).unwrap();
    assert_eq!(listing.name, "");
    assert_eq!(listing.root_path, "");
    assert_eq!(listing.root_hash, "");
    assert!(listing.files.is_empty());
}

#[test]
fn root_without_children_has_no_entries() {
    let listing = ProjectStructure::from_walk(&vec![root("C:\\work\\demo")]).unwrap();
    assert_eq!(listing.name, "demo");
    assert_eq!(listing.root_path, "C:\\work\\demo");
    assert_eq!(listing.root_hash, hash_path("C:\\work\\demo".to_string()));
    assert!(listing.files.is_empty());
}

#[test]
fn directory_and_file_below_the_root() {
    let events = vec![
        root("C:\\work\\demo"),
        found("C:\\work\\demo\\sub", "C:\\work\\demo", false),
        found("C:\\work\\demo\\a.txt", "C:\\work\\demo", true),
    ];
    let listing = ProjectStructure::from_walk(&events).unwrap();
    let root_identifier = hash_path("C:\\work\\demo".to_string());
    assert_eq!(listing.root_hash, root_identifier);
    assert_eq!(listing.files.len(), 2);

    assert_eq!(listing.files[0].name, "sub");
    assert_eq!(listing.files[0].path, "C:\\work\\demo\\sub");
    assert_eq!(listing.files[0].hash, hash_path("C:\\work\\demo\\sub".to_string()));
    assert!(!listing.files[0].is_file);
    assert_eq!(listing.files[0].parent_hash, root_identifier);

    assert_eq!(listing.files[1].name, "a.txt");
    assert_eq!(listing.files[1].path, "C:\\work\\demo\\a.txt");
    assert_eq!(listing.files[1].hash, hash_path("C:\\work\\demo\\a.txt".to_string()));
    assert!(listing.files[1].is_file);
    assert_eq!(listing.files[1].parent_hash, root_identifier);
}

#[test]
fn failed_children_are_left_out() {
    let events = vec![
        root("C:\\p"),
        found("C:\\p\\one", "C:\\p", true),
        WalkEvent::Failed,
        found("C:\\p\\two", "C:\\p", false),
        WalkEvent::Failed,
        WalkEvent::Failed,
        found("C:\\p\\three", "C:\\p", true),
    ];
    let listing = ProjectStructure::from_walk(&events).unwrap();
    assert_eq!(listing.files.len(), 3);
    let names: Vec<&str> = listing.files.iter().map(|entry| entry.name.as_str()).collect();
    assert_eq!(names, vec!["one", "two", "three"]);
}

#[test]
fn all_children_failed_looks_like_an_empty_directory() {
    let events = vec![root("C:\\p"), WalkEvent::Failed, WalkEvent::Failed];
    let listing = ProjectStructure::from_walk(&events).unwrap();
    assert_eq!(listing.root_path, "C:\\p");
    assert!(listing.files.is_empty());
}

#[test]
fn first_path_found_is_the_root_even_after_a_failure() {
    let events = vec![
        WalkEvent::Failed,
        found("C:\\p\\one", "C:\\p", true),
        found("C:\\p\\two", "C:\\p", true),
    ];
    let listing = ProjectStructure::from_walk(&events).unwrap();
    assert_eq!(listing.name, "one");
    assert_eq!(listing.root_path, "C:\\p\\one");
    assert_eq!(listing.files.len(), 1);
    assert_eq!(listing.files[0].name, "two");
}

#[test]
fn listing_holds_only_the_steps_it_was_given() {
    let events = vec![root("C:\\p"), found("C:\\p\\sub", "C:\\p", false)];
    let listing = ProjectStructure::from_walk(&events).unwrap();
    assert_eq!(listing.files.len(), 1);
    assert!(listing.files.iter().all(|entry| entry.name != "nested.txt"));
}

#[test]
fn parent_identifier_follows_the_parent_text() {
    let events = vec![root("C:\\p"), found("C:\\p\\a", "C:/p", true)];
    let listing = ProjectStructure::from_walk(&events).unwrap();
    assert_eq!(listing.files[0].parent_hash, hash_path("C:/p".to_string()));
    assert_ne!(listing.files[0].parent_hash, listing.root_hash);
}

#[test]
fn child_without_parent_gives_no_listing() {
    let events = vec![root("C:\\p"), root("C:\\p\\a")];
    assert!(ProjectStructure::from_walk(&events).is_none());
}

#[test]
fn entry_of_a_walked_file() {
    let walked = WalkedEntry {
        path: "C:\\p\\notes.md".to_string(),
        parent: Some("C:\\p".to_string()),
        is_file: true,
    };
    let entry = ProjectEntry::from_walked(&walked).unwrap();
    assert_eq!(entry.name, "notes.md");
    assert_eq!(entry.path, "C:\\p\\notes.md");
    assert_eq!(entry.hash, hash_path("C:\\p\\notes.md".to_string()));
    assert!(entry.is_file);
    assert_eq!(entry.parent_hash, hash_path("C:\\p".to_string()));
}

#[test]
fn entry_of_a_path_without_parent_is_none() {
    let walked = WalkedEntry { path: "C:\\".to_string(), parent: None, is_file: false };
    assert!(ProjectEntry::from_walked(&walked).is_none());
}

#[test]
fn unwalked_listing_is_named_after_the_last_segment() {
    let listing = ProjectStructure::from("C:\\work\\demo".to_string());
    assert_eq!(listing.name, "demo");
    assert_eq!(listing.root_path, "C:\\work\\demo");
    assert_eq!(listing.root_hash, "");
    assert!(listing.files.is_empty());
}

#[test]
fn empty_listing_has_empty_fields() {
    let listing = ProjectStructure::empty();
    assert_eq!(listing.name, "");
    assert_eq!(listing.root_path, "");
    assert_eq!(listing.root_hash, "");
    assert!(listing.files.is_empty());
}
