use photostore::thumbnails::{apply_thumbnails, plan_thumbnails, thumb_source, thumb_target};

fn paths(v: &[&str]) -> Vec<String> {
    v.iter().map(|s| s.to_string()).collect()
}

#[test]
fn thumb_target_joins_under_thumbnails() {
    assert_eq!(
        thumb_target("images", "images/pc/photo.webp"),
        "images/thumbnails/photo.webp".to_string()
    );
}

#[test]
fn thumb_source_excludes_thumbnails_and_other_codecs() {
    assert!(thumb_source("images/pc/a.webp"));
    assert!(!thumb_source("images/pc/a.jpg"));
    assert!(!thumb_source("images/thumbnails/a.webp"));
}

#[test]
fn plan_skips_present_thumbnails() {
    let files = paths(&[
        "r/pc/a.webp",
        "r/thumbnails/a.webp",
        "r/pc/b.webp",
        "r/mp/c.jpg",
    ]);
    let jobs = plan_thumbnails(&files, "r");
    // a.webp's thumbnail is already present: a cache hit, not planned.
    assert_eq!(jobs.len(), 1);
    assert_eq!(jobs[0].source, "r/pc/b.webp".to_string());
    assert_eq!(jobs[0].target, "r/thumbnails/b.webp".to_string());
    assert_eq!(jobs[0].index, 2);
}

#[test]
fn apply_appends_created_thumbnails() {
    let files = paths(&["r/pc/a.webp", "r/pc/b.webp"]);
    let jobs = plan_thumbnails(&files, "r");
    assert_eq!(jobs.len(), 2);
    let ok = vec![true, false];
    let (out, created, failed) = apply_thumbnails(&files, &jobs, &ok);
    assert_eq!(created, 1);
    assert_eq!(failed, 1);
    assert_eq!(
        out,
        paths(&["r/pc/a.webp", "r/pc/b.webp", "r/thumbnails/a.webp"])
    );
}

#[test]
fn second_pass_after_success_plans_nothing() {
    // Idempotence: a fully successful pass leaves a state in which a
    // repeated pass is a cache hit for every image.
    let files = paths(&["r/pc/a.webp", "r/mp/b.webp", "r/pc/c.webp"]);
    let jobs = plan_thumbnails(&files, "r");
    assert_eq!(jobs.len(), 3);
    let ok = vec![true; 3];
    let (after, created, failed) = apply_thumbnails(&files, &jobs, &ok);
    assert_eq!(created, 3);
    assert_eq!(failed, 0);
    let again = plan_thumbnails(&after, "r");
    assert_eq!(again.len(), 0);
}

#[test]
fn failed_thumbnail_is_planned_again() {
    let files = paths(&["r/pc/a.webp", "r/pc/b.webp"]);
    let jobs = plan_thumbnails(&files, "r");
    let ok = vec![true, false];
    let (after, _, _) = apply_thumbnails(&files, &jobs, &ok);
    let again = plan_thumbnails(&after, "r");
    assert_eq!(again.len(), 1);
    assert_eq!(again[0].source, "r/pc/b.webp".to_string());
}
