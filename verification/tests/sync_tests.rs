use resource_sync::hashing::content_hash_hex;
use resource_sync::local::{LocalFile, Snapshot};
use resource_sync::manifest::{Category, FileEntry, ResourceManifest};
use resource_sync::resolve::resolve_stale;
use resource_sync::session::{apply_outcome, apply_outcomes, plan_sync, SyncConfig, TaskOutcome};

fn entry_for(path: &str, content: &[u8]) -> FileEntry {
    FileEntry {
        relative_path: String::from(path),
        content_hash: content_hash_hex(&content.to_vec()),
    }
}

fn config(download_fonts: bool) -> SyncConfig {
    SyncConfig {
        base_url: String::from("https://example.com/"),
        version: String::from("1.2.3"),
        download_fonts,
        fonts_root: String::from("/assets/fonts"),
        images_root: String::from("/assets/images"),
        concurrency: 32,
    }
}

#[test]
fn missing_file_is_scheduled_and_current_file_untouched() {
    // One absent font, one current image: exactly the font is scheduled.
    let font_content = b"font-a".to_vec();
    let image_content = b"image-b".to_vec();
    let manifest = ResourceManifest {
        fonts: vec![entry_for("a.ttf", &font_content)],
        images: vec![entry_for("b.png", &image_content)],
    };
    let fonts_snap = Snapshot::new();
    let mut images_snap = Snapshot::new();
    images_snap.record(&String::from("b.png"), LocalFile::Present(image_content.clone()));

    let plan = plan_sync(&config(true), Some(&manifest), &fonts_snap, &images_snap);
    assert_eq!(plan.font_tasks.len(), 1);
    assert_eq!(plan.image_tasks.len(), 0);

    let task = &plan.font_tasks[0];
    assert_eq!(task.relative_path, "a.ttf");
    assert_eq!(task.remote_url, "https://example.com/v1.2.3/resources/fonts/a.ttf");
    assert_eq!(task.local_path, "/assets/fonts/a.ttf");
    assert_eq!(task.category, Category::Fonts);
    assert_eq!(task.expected_hash, content_hash_hex(&font_content));

    // The download succeeds with the expected content: the font becomes
    // current; the image stays as it was.
    let mut fonts_after = fonts_snap;
    apply_outcomes(&mut fonts_after, &plan.font_tasks, vec![TaskOutcome::Success(font_content.clone())]);
    assert!(fonts_after.is_current(&String::from("a.ttf"), &content_hash_hex(&font_content)));
    assert!(images_snap.is_current(&String::from("b.png"), &content_hash_hex(&image_content)));
}

#[test]
fn mismatched_file_is_overwritten() {
    // The local content differs from the manifest's fingerprint: the file
    // is re-fetched and afterwards carries the expected fingerprint.
    let wanted = b"new-image".to_vec();
    let manifest =
        ResourceManifest { fonts: vec![], images: vec![entry_for("c.png", &wanted)] };
    let mut images_snap = Snapshot::new();
    images_snap.record(&String::from("c.png"), LocalFile::Present(b"old-image".to_vec()));

    let plan = plan_sync(&config(true), Some(&manifest), &Snapshot::new(), &images_snap);
    assert_eq!(plan.image_tasks.len(), 1);

    apply_outcomes(&mut images_snap, &plan.image_tasks, vec![TaskOutcome::Success(wanted.clone())]);
    assert!(images_snap.is_current(&String::from("c.png"), &content_hash_hex(&wanted)));
}

#[test]
fn second_sync_schedules_nothing() {
    // After a fully successful sync, a second sync against the unchanged
    // manifest and unchanged files schedules zero downloads.
    let a = b"alpha".to_vec();
    let b = b"beta".to_vec();
    let manifest = ResourceManifest {
        fonts: vec![entry_for("a.ttf", &a)],
        images: vec![entry_for("b.png", &b)],
    };
    let mut fonts_snap = Snapshot::new();
    let mut images_snap = Snapshot::new();

    let plan = plan_sync(&config(true), Some(&manifest), &fonts_snap, &images_snap);
    assert_eq!(plan.font_tasks.len(), 1);
    assert_eq!(plan.image_tasks.len(), 1);
    apply_outcomes(&mut fonts_snap, &plan.font_tasks, vec![TaskOutcome::Success(a.clone())]);
    apply_outcomes(&mut images_snap, &plan.image_tasks, vec![TaskOutcome::Success(b.clone())]);

    let again = plan_sync(&config(true), Some(&manifest), &fonts_snap, &images_snap);
    assert_eq!(again.font_tasks.len(), 0);
    assert_eq!(again.image_tasks.len(), 0);
}

#[test]
fn exactly_the_stale_entries_are_scheduled() {
    // Three entries, two stale (one absent, one mismatched), one current:
    // exactly two tasks, and the current file is left untouched.
    let p = b"present".to_vec();
    let q = b"wanted-q".to_vec();
    let r = b"wanted-r".to_vec();
    let entries = vec![
        entry_for("keep.png", &p),
        entry_for("missing.png", &q),
        entry_for("wrong.png", &r),
    ];
    let mut snap = Snapshot::new();
    snap.record(&String::from("keep.png"), LocalFile::Present(p.clone()));
    snap.record(&String::from("wrong.png"), LocalFile::Present(b"other".to_vec()));

    let tasks = resolve_stale(
        Category::Images,
        &entries,
        &snap,
        "https://example.com/",
        "1.2.3",
        "/assets/images",
    );
    assert_eq!(tasks.len(), 2);
    assert_eq!(tasks[0].relative_path, "missing.png");
    assert_eq!(tasks[1].relative_path, "wrong.png");
}

#[test]
fn unreadable_file_is_treated_as_stale() {
    let c = b"content".to_vec();
    let entries = vec![entry_for("u.png", &c)];
    let mut snap = Snapshot::new();
    snap.record(&String::from("u.png"), LocalFile::Unreadable);
    let tasks = resolve_stale(
        Category::Images,
        &entries,
        &snap,
        "https://example.com/",
        "1.2.3",
        "/assets/images",
    );
    assert_eq!(tasks.len(), 1);
}

#[test]
fn manifest_fetch_failure_schedules_nothing() {
    // No manifest: zero tasks for both categories, nothing written.
    let snap = Snapshot::new();
    let plan = plan_sync(&config(true), None, &snap, &snap);
    assert_eq!(plan.font_tasks.len(), 0);
    assert_eq!(plan.image_tasks.len(), 0);
}

#[test]
fn disabled_fonts_are_not_scheduled() {
    let a = b"font".to_vec();
    let manifest = ResourceManifest { fonts: vec![entry_for("a.ttf", &a)], images: vec![] };
    let plan = plan_sync(&config(false), Some(&manifest), &Snapshot::new(), &Snapshot::new());
    assert_eq!(plan.font_tasks.len(), 0);
}

#[test]
fn one_failed_download_leaves_others_verified() {
    // Ten stale files; one download fails with nothing written. The failed
    // one stays absent, the other nine are current afterwards.
    let contents: Vec<Vec<u8>> = (0..10u8).map(|i| vec![i, i + 1, i + 2]).collect();
    let entries: Vec<FileEntry> = contents
        .iter()
        .enumerate()
        .map(|(i, c)| entry_for(&format!("f{}.png", i), c))
        .collect();
    let mut snap = Snapshot::new();
    let tasks = resolve_stale(
        Category::Images,
        &entries,
        &snap,
        "https://example.com/",
        "1.2.3",
        "/assets/images",
    );
    assert_eq!(tasks.len(), 10);

    let outcomes: Vec<TaskOutcome> = contents
        .iter()
        .enumerate()
        .map(|(i, c)| {
            if i == 3 {
                TaskOutcome::FailedNoWrite
            } else {
                TaskOutcome::Success(c.clone())
            }
        })
        .collect();
    apply_outcomes(&mut snap, &tasks, outcomes);

    for (i, c) in contents.iter().enumerate() {
        let path = format!("f{}.png", i);
        let current = snap.is_current(&path, &content_hash_hex(c));
        if i == 3 {
            assert!(!current);
        } else {
            assert!(current);
        }
    }

    // The failed entry is scheduled again on the next sync, the rest not.
    let tasks_again = resolve_stale(
        Category::Images,
        &entries,
        &snap,
        "https://example.com/",
        "1.2.3",
        "/assets/images",
    );
    assert_eq!(tasks_again.len(), 1);
    assert_eq!(tasks_again[0].relative_path, "f3.png");
}

#[test]
fn font_failures_do_not_alter_image_outcome() {
    // All font downloads fail while the image download succeeds: the image
    // category's outcome is unchanged by the font failures.
    let f = b"font-x".to_vec();
    let i = b"image-y".to_vec();
    let manifest = ResourceManifest {
        fonts: vec![entry_for("x.ttf", &f)],
        images: vec![entry_for("y.png", &i)],
    };
    let mut fonts_snap = Snapshot::new();
    let mut images_snap = Snapshot::new();
    let plan = plan_sync(&config(true), Some(&manifest), &fonts_snap, &images_snap);

    apply_outcomes(&mut fonts_snap, &plan.font_tasks, vec![TaskOutcome::FailedNoWrite]);
    apply_outcomes(&mut images_snap, &plan.image_tasks, vec![TaskOutcome::Success(i.clone())]);

    assert!(!fonts_snap.is_current(&String::from("x.ttf"), &content_hash_hex(&f)));
    assert!(images_snap.is_current(&String::from("y.png"), &content_hash_hex(&i)));
}

#[test]
fn recording_a_path_again_replaces_its_state() {
    let content_old = b"old".to_vec();
    let content_new = b"new".to_vec();
    let mut snap = Snapshot::new();
    let path = String::from("f.png");
    snap.record(&path, LocalFile::Present(content_old.clone()));
    assert!(snap.is_current(&path, &content_hash_hex(&content_old)));
    snap.record(&path, LocalFile::Present(content_new.clone()));
    assert!(snap.is_current(&path, &content_hash_hex(&content_new)));
    assert!(!snap.is_current(&path, &content_hash_hex(&content_old)));
}

#[test]
fn missing_and_unreadable_are_never_current() {
    let c = b"x".to_vec();
    let mut snap = Snapshot::new();
    assert!(!snap.is_current(&String::from("absent.png"), &content_hash_hex(&c)));
    snap.record(&String::from("locked.png"), LocalFile::Unreadable);
    assert!(!snap.is_current(&String::from("locked.png"), &content_hash_hex(&c)));
}

#[test]
fn interrupted_transfer_leaves_partial_file_stale() {
    // A transfer broken off mid-stream leaves the partial bytes on disk;
    // the file does not match its fingerprint and is re-scheduled.
    let wanted = b"complete-content".to_vec();
    let entries = vec![entry_for("p.png", &wanted)];
    let mut snap = Snapshot::new();
    apply_outcome(
        &mut snap,
        &String::from("p.png"),
        TaskOutcome::FailedPartial(b"complete-".to_vec()),
    );
    assert!(!snap.is_current(&String::from("p.png"), &content_hash_hex(&wanted)));
    let tasks = resolve_stale(
        Category::Images,
        &entries,
        &snap,
        "https://example.com/",
        "1.2.3",
        "/assets/images",
    );
    assert_eq!(tasks.len(), 1);
}
