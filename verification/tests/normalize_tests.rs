use photostore::normalize::{apply_conversions, convertible, plan_conversions};

fn paths(v: &[&str]) -> Vec<String> {
    v.iter().map(|s| s.to_string()).collect()
}

#[test]
fn convertible_covers_known_source_codecs() {
    assert!(convertible("root/pc/a.jpg"));
    assert!(convertible("root/pc/a.jpeg"));
    assert!(convertible("root/mp/a.png"));
    assert!(!convertible("root/pc/a.webp"));
    assert!(!convertible("root/pc/a.txt"));
    // The thumbnails subtree is never treated as source images.
    assert!(!convertible("root/thumbnails/a.jpg"));
}

#[test]
fn plan_selects_exactly_the_sources() {
    let files = paths(&[
        "root/pc/a.jpg",
        "root/pc/b.webp",
        "root/thumbnails/c.jpg",
        "root/mp/d.png",
        "root/mp/notes.txt",
    ]);
    let jobs = plan_conversions(&files);
    assert_eq!(jobs.len(), 2);
    assert_eq!(jobs[0].index, 0);
    assert_eq!(jobs[0].source, "root/pc/a.jpg".to_string());
    assert_eq!(jobs[0].target, "root/pc/a.webp".to_string());
    assert_eq!(jobs[1].index, 3);
    assert_eq!(jobs[1].target, "root/mp/d.webp".to_string());
}

#[test]
fn apply_counts_and_rewrites() {
    let files = paths(&["r/pc/a.jpg", "r/pc/b.jpg", "r/mp/c.png", "r/mp/d.webp"]);
    let ok = vec![true, false, true, false];
    let (out, converted, failed) = apply_conversions(&files, &ok);
    assert_eq!(converted, 2);
    assert_eq!(failed, 1);
    assert_eq!(
        out,
        paths(&["r/pc/a.webp", "r/pc/b.jpg", "r/mp/c.webp", "r/mp/d.webp"])
    );
}

#[test]
fn one_corrupt_file_costs_exactly_one() {
    // Ten valid sources and one corrupt one: every valid file is converted,
    // exactly one failure is reported, and the pass reaches the end.
    let mut files: Vec<String> = Vec::new();
    for i in 0..11u32 {
        files.push(format!("r/pc/img{}.jpg", i));
    }
    let mut ok = vec![true; 11];
    ok[4] = false;
    let (out, converted, failed) = apply_conversions(&files, &ok);
    assert_eq!(converted, 10);
    assert_eq!(failed, 1);
    assert_eq!(out.len(), 11);
    assert_eq!(out[4], "r/pc/img4.jpg".to_string());
    for i in 0..11usize {
        if i != 4 {
            assert_eq!(out[i], format!("r/pc/img{}.webp", i));
        }
    }
}
