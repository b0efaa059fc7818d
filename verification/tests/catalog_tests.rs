use photostore::catalog::index_images;

fn paths(v: &[&str]) -> Vec<String> {
    v.iter().map(|s| s.to_string()).collect()
}

#[test]
fn build_partitions_by_parent_directory() {
    let files = paths(&[
        "images/pc/a.webp",
        "images/mp/b.webp",
        "images/pc/c.webp",
        "images/thumbnails/a.webp",
        "images/pc/notes.txt",
        "images/other/d.webp",
    ]);
    let c = index_images(&files);
    assert_eq!(c.pc, paths(&["images/pc/a.webp", "images/pc/c.webp"]));
    assert_eq!(c.mp, paths(&["images/mp/b.webp"]));
}

#[test]
fn union_covers_every_image_outside_thumbnails() {
    // Partition completeness over a validated layout: pc plus mp is
    // exactly the set of target-codec files outside the thumbnails subtree.
    let files = paths(&[
        "images/pc/a.webp",
        "images/thumbnails/a.webp",
        "images/mp/b.webp",
        "images/thumbnails/b.webp",
        "images/pc/c.webp",
    ]);
    let c = index_images(&files);
    let mut union: Vec<String> = c.pc.clone();
    union.extend(c.mp.iter().cloned());
    let expected: Vec<String> = files
        .iter()
        .filter(|p| p.ends_with(".webp") && !p.contains("thumbnails"))
        .cloned()
        .collect();
    let mut union_sorted = union.clone();
    union_sorted.sort();
    let mut expected_sorted = expected.clone();
    expected_sorted.sort();
    assert_eq!(union_sorted, expected_sorted);
}

#[test]
fn by_category_selects_and_unions() {
    let files = paths(&["images/pc/a.webp", "images/mp/b.webp"]);
    let c = index_images(&files);
    assert_eq!(c.by_category("pc"), Some(paths(&["images/pc/a.webp"])));
    assert_eq!(c.by_category("mp"), Some(paths(&["images/mp/b.webp"])));
    assert_eq!(
        c.by_category("all"),
        Some(paths(&["images/pc/a.webp", "images/mp/b.webp"]))
    );
    assert_eq!(c.by_category("nope"), None);
}

#[test]
fn by_filename_finds_first_match() {
    let files = paths(&[
        "images/pc/a.webp",
        "images/mp/a.webp",
        "images/mp/b.webp",
    ]);
    let c = index_images(&files);
    // pc is scanned before mp, so the pc path wins.
    assert_eq!(c.by_filename("a.webp"), Some("images/pc/a.webp".to_string()));
    assert_eq!(c.by_filename("b.webp"), Some("images/mp/b.webp".to_string()));
    assert_eq!(c.by_filename("missing.webp"), None);
}

#[test]
fn listing_returns_base_names() {
    let v = paths(&["images/pc/a.webp", "images/mp/b.webp"]);
    assert_eq!(
        photostore::catalog::file_names(&v),
        paths(&["a.webp", "b.webp"])
    );
}

#[test]
fn random_stays_inside_the_category() {
    let files = paths(&[
        "images/pc/a.webp",
        "images/pc/b.webp",
        "images/mp/c.webp",
    ]);
    let c = index_images(&files);
    for _ in 0..50 {
        let p = c.random("pc").unwrap();
        assert!(p == "images/pc/a.webp" || p == "images/pc/b.webp");
    }
    for _ in 0..50 {
        let p = c.random("all").unwrap();
        assert!(files.contains(&p));
    }
}

#[test]
fn random_reports_not_found_instead_of_panicking() {
    let files = paths(&["images/pc/a.webp"]);
    let c = index_images(&files);
    assert_eq!(c.random("mp"), None);
    assert_eq!(c.random("unknown"), None);
}

#[test]
fn ingestion_scenario_single_photo() {
    // One source photo under pc, mp empty. After normalization and the
    // thumbnail pass: the source is the target codec, the original name is
    // gone, the thumbnail exists, mp lists empty and "all" has one entry.
    let scanned = paths(&["images/pc/photo.jpg"]);
    let jobs = photostore::normalize::plan_conversions(&scanned);
    assert_eq!(jobs.len(), 1);
    assert_eq!(jobs[0].target, "images/pc/photo.webp".to_string());
    let ok = vec![true];
    let (after_convert, converted, failed) =
        photostore::normalize::apply_conversions(&scanned, &ok);
    assert_eq!((converted, failed), (1, 0));
    assert_eq!(after_convert, paths(&["images/pc/photo.webp"]));
    assert!(!after_convert.contains(&"images/pc/photo.jpg".to_string()));

    let tjobs = photostore::thumbnails::plan_thumbnails(&after_convert, "images");
    assert_eq!(tjobs.len(), 1);
    assert_eq!(tjobs[0].target, "images/thumbnails/photo.webp".to_string());
    let (state, created, tfailed) =
        photostore::thumbnails::apply_thumbnails(&after_convert, &tjobs, &vec![true]);
    assert_eq!((created, tfailed), (1, 0));
    assert!(state.contains(&"images/thumbnails/photo.webp".to_string()));

    // An 800 by 600 source bounded by 200 by 200 keeps the 4:3 ratio and
    // stays within 200 by 150.
    assert_eq!(photostore::codec::scaled_dimensions(800, 600, 200, 200), (200, 150));

    let c = index_images(&state);
    assert_eq!(c.by_category("mp"), Some(Vec::<String>::new()));
    assert_eq!(c.by_category("all").unwrap().len(), 1);
    assert_eq!(
        c.by_filename("photo.webp"),
        Some("images/pc/photo.webp".to_string())
    );
}
