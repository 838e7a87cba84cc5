use media_ingest::ingest::{Entry, Ingestor};

fn fresh_location(tag: &str) -> String {
    let nanos = std::time::SystemTime::now()
        .duration_since(std::time::UNIX_EPOCH)
        .unwrap()
        .as_nanos();
    format!("/tmp/media_ingest_{}_{}", tag, nanos)
}

fn entry(name: &str, path: &str, is_dir: bool) -> Entry {
    Entry { name: name.to_string(), path: path.to_string(), is_dir }
}

/// Runs one ingestion pass: scans directories off the work-list, feeding
/// each its listing from `listing`, then persists the scanned levels in
/// reverse scan order, returning the count reported last.
fn run(ing: &mut Ingestor, listing: &dyn Fn(&str) -> Vec<Entry>) -> usize {
    while let Some(dir) = ing.next_dir() {
        ing.scan_dir(&listing(&dir));
    }
    let mut last_count = ing.store.size();
    while let Some(level) = ing.next_level() {
        last_count = ing.persist_paths(&level).unwrap();
    }
    last_count
}

fn scenario_listing(dir: &str) -> Vec<Entry> {
    match dir {
        "root" => vec![
            entry("a.jpg", "root/a.jpg", false),
            entry("b.JPG", "root/b.JPG", false),
            entry("notes.txt", "root/notes.txt", false),
            entry("sub", "root/sub", true),
        ],
        "root/sub" => vec![entry("c.nef", "root/sub/c.nef", false)],
        other => panic!("unexpected directory {}", other),
    }
}

#[test]
fn empty_directory_changes_nothing() {
    let name = fresh_location("ingest_empty");
    let mut ing = Ingestor::open(&name, "root".to_string()).unwrap();
    let before = ing.store.size();
    let dir = ing.next_dir().unwrap();
    assert_eq!(dir, "root");
    ing.scan_dir(&Vec::new());
    assert!(ing.next_dir().is_none());
    let level = ing.next_level().unwrap();
    assert!(level.is_empty());
    let count = ing.persist_paths(&level).unwrap();
    assert_eq!(count, before);
    assert!(ing.next_level().is_none());
}

#[test]
fn fresh_run_counts_distinct_images() {
    let name = fresh_location("ingest_fresh");
    let listing = |dir: &str| -> Vec<Entry> {
        match dir {
            "top" => vec![
                entry("one.jpg", "top/one.jpg", false),
                entry("two.tiff", "top/two.tiff", false),
                entry("skip.txt", "top/skip.txt", false),
                entry("inner", "top/inner", true),
            ],
            "top/inner" => vec![
                entry("three.cr2", "top/inner/three.cr2", false),
                entry("four.NEF", "top/inner/four.NEF", false),
            ],
            other => panic!("unexpected directory {}", other),
        }
    };
    let mut ing = Ingestor::open(&name, "top".to_string()).unwrap();
    let count = run(&mut ing, &listing);
    assert_eq!(count, 4);
    assert_eq!(ing.store.size(), 4);
}

#[test]
fn second_run_changes_nothing() {
    let name = fresh_location("ingest_rerun");
    let mut ing = Ingestor::open(&name, "root".to_string()).unwrap();
    let first = run(&mut ing, &scenario_listing);
    assert_eq!(first, 3);
    drop(ing);

    // A second run over the unchanged tree, against the same store.
    let mut again = Ingestor::open(&name, "root".to_string()).unwrap();
    let second = run(&mut again, &scenario_listing);
    assert_eq!(second, first);
}

#[test]
fn scenario_mixed_tree_stores_exactly_the_images() {
    let name = fresh_location("ingest_scenario");
    let mut ing = Ingestor::open(&name, "root".to_string()).unwrap();

    let dir = ing.next_dir().unwrap();
    assert_eq!(dir, "root");
    ing.scan_dir(&scenario_listing(&dir));
    let dir = ing.next_dir().unwrap();
    assert_eq!(dir, "root/sub");
    ing.scan_dir(&scenario_listing(&dir));
    assert!(ing.next_dir().is_none());

    // Levels come back child-first: the subdirectory's report precedes
    // the root's, and the root's report equals the final size.
    let level = ing.next_level().unwrap();
    assert_eq!(level, vec!["root/sub/c.nef".to_string()]);
    assert_eq!(ing.persist_paths(&level).unwrap(), 1);

    let level = ing.next_level().unwrap();
    assert_eq!(level, vec!["root/a.jpg".to_string(), "root/b.JPG".to_string()]);
    assert_eq!(ing.persist_paths(&level).unwrap(), 3);

    assert!(ing.next_level().is_none());
    assert_eq!(ing.store.size(), 3);

    // The keys are exactly the three discovered paths, case preserved:
    // re-inserting any of them leaves the size at 3, while a path that
    // was never stored grows it.
    ing.store.insert("root/a.jpg").unwrap();
    ing.store.insert("root/b.JPG").unwrap();
    ing.store.insert("root/sub/c.nef").unwrap();
    assert_eq!(ing.store.size(), 3);
    ing.store.insert("root/notes.txt").unwrap();
    assert_eq!(ing.store.size(), 4);
}

#[test]
fn directory_named_like_an_image_is_stored_and_visited() {
    let name = fresh_location("ingest_dir_image");
    let listing = |dir: &str| -> Vec<Entry> {
        match dir {
            "r" => vec![entry("album.jpg", "r/album.jpg", true)],
            "r/album.jpg" => vec![entry("pic.pef", "r/album.jpg/pic.pef", false)],
            other => panic!("unexpected directory {}", other),
        }
    };
    let mut ing = Ingestor::open(&name, "r".to_string()).unwrap();
    let count = run(&mut ing, &listing);
    assert_eq!(count, 2);
}
