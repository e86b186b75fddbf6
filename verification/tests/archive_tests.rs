use std::io::Write;
use move_crawler::archive::{
    can_be_executed, entry_content, extension_of, is_manifest, manifest_names_other_flavour,
    plan_entry, try_manifest_probe, unzip_plan, ArchiveEntry, EntryAction, EntryName,
};
use move_crawler::download::{
    add_failure, commit_record, crawl_step, repo_parent_path, zipball_url, CrawlStep,
};
use move_crawler::time::UtcTime;

fn entry(path: &str, is_dir: bool) -> ArchiveEntry {
    let p = std::path::Path::new(path);
    ArchiveEntry {
        name: Some(EntryName {
            text: path.to_string(),
            components: p.components().map(|c| c.as_os_str().to_str().unwrap().to_string()).collect(),
        }),
        is_dir,
        is_file: !is_dir,
    }
}

#[test]
fn extension_matches_std() {
    for name in ["a.move", "Move.toml", ".hidden", ".a.b", "noext", "trailing.", "x.Identifier", ""].iter() {
        let std_ext = std::path::Path::new(name).extension().map(|e| e.to_str().unwrap().to_string());
        assert_eq!(extension_of(name), std_ext, "{}", name);
    }
}

#[test]
fn manifests_are_found_in_any_case() {
    assert!(is_manifest(&entry("repo-abc/Move.toml", false)));
    assert!(is_manifest(&entry("repo-abc/sub/MOVE.TOML", false)));
    assert!(!is_manifest(&entry("repo-abc/Move.toml", true)));
    assert!(!is_manifest(&entry("repo-abc/Move.lock", false)));
    assert!(!is_manifest(&ArchiveEntry { name: None, is_dir: false, is_file: true }));
    assert_eq!(try_manifest_probe(&entry(".", false)), None);
}

#[test]
fn other_flavours_rule_a_repository_out() {
    assert!(manifest_names_other_flavour("[dependencies]\nSui = { git = \"x\" }"));
    assert!(manifest_names_other_flavour("StarCoin"));
    assert!(manifest_names_other_flavour("0LNetwork"));
    assert!(!manifest_names_other_flavour("[dependencies]\nAptosFramework = {}"));
}

#[test]
fn extraction_plan() {
    let base = "/data/owner";
    match plan_entry(base, &entry("r/sources/a.move", false)) {
        EntryAction::WriteFile(p) => assert_eq!(p, "/data/owner/r/sources/a.move"),
        _ => panic!("expected a file"),
    }
    match plan_entry(base, &entry("r/sources", true)) {
        EntryAction::CreateDir(p) => assert_eq!(p, "/data/owner/r/sources"),
        _ => panic!("expected a directory"),
    }
    assert!(matches!(plan_entry(base, &entry("r/Build/x.mv", false)), EntryAction::Skip));
    assert!(matches!(plan_entry(base, &entry("r/a.move:Zone.Identifier", false)), EntryAction::Ignore));
    assert!(matches!(plan_entry(base, &ArchiveEntry { name: None, is_dir: false, is_file: true }), EntryAction::Fail(2)));
    match plan_entry(base, &entry("r/LICENSE", false)) {
        EntryAction::WriteFile(p) => assert_eq!(p, "/data/owner/r/LICENSE"),
        _ => panic!("a file without an extension is written"),
    }
    match plan_entry(base, &entry("r/.gitignore", false)) {
        EntryAction::WriteFile(p) => assert_eq!(p, "/data/owner/r/.gitignore"),
        _ => panic!("a dot file is written"),
    }
    assert!(matches!(plan_entry(base, &entry("r/LICENSE", true)), EntryAction::CreateDir(_)));
}

#[test]
fn download_locations() {
    assert_eq!(zipball_url("o/r"), "https://api.github.com/repos/o/r/zipball");
    assert_eq!(repo_parent_path("owner/repo"), "/home/move/github_crawler/move_repo/owner");
}

#[test]
fn commit_records_after_extraction() {
    let t = UtcTime { secs: 1704164645, nanos: 0 };
    assert_eq!(commit_record("o/r", t, Ok(())), Some("o/r,2024-01-02T03:04:05Z,true\n".to_string()));
    assert_eq!(commit_record("o/r", t, Err(1)), Some("o/r,2024-01-02T03:04:05Z,false\n".to_string()));
    assert_eq!(commit_record("o/r", t, Err(4)), None);
}

#[test]
fn failures_form_a_set() {
    let t = UtcTime { secs: 1, nanos: 0 };
    let mut fails = Vec::new();
    add_failure(&mut fails, "a/b".to_string(), t);
    add_failure(&mut fails, "a/b".to_string(), t);
    add_failure(&mut fails, "a/b".to_string(), UtcTime { secs: 2, nanos: 0 });
    assert_eq!(fails.len(), 2);
}

#[test]
fn crawl_rounds() {
    assert!(matches!(crawl_step(0, 0), CrawlStep::Done));
    assert!(matches!(crawl_step(3, 4), CrawlStep::Download));
    assert!(matches!(crawl_step(3, 5), CrawlStep::GiveUp));
}

fn zip_of(entries: &[(&str, Option<&[u8]>)]) -> Vec<u8> {
    let mut w = zip::ZipWriter::new(std::io::Cursor::new(Vec::new()));
    let options = zip::write::FileOptions::default();
    for (name, content) in entries {
        match content {
            Some(bytes) => {
                w.start_file(*name, options).unwrap();
                w.write_all(bytes).unwrap();
            }
            None => w.add_directory(*name, options).unwrap(),
        }
    }
    w.finish().unwrap().into_inner()
}

#[test]
fn archives_that_are_usable_move() {
    let plain = zip_of(&[
        ("r/", None),
        ("r/Move.toml", Some(b"[package]\nname = \"a\"\n[dependencies]\nAptosFramework = {}")),
        ("r/sources/a.move", Some(b"module 0x1::a {}")),
    ]);
    assert_eq!(can_be_executed(&plain), Some(true));
    let sui = zip_of(&[("r/sub/MOVE.TOML", Some(b"Sui = { git = \"x\" }")), ("r/Move.toml", Some(b"[package]"))]);
    assert_eq!(can_be_executed(&sui), Some(false));
    let no_manifest = zip_of(&[("r/README.md", Some(b"sui"))]);
    assert_eq!(can_be_executed(&no_manifest), Some(true));
    let not_text = zip_of(&[("r/Move.toml", Some(&[0xff, 0xfe, b's', b'u', b'i']))]);
    assert_eq!(can_be_executed(&not_text), Some(true));
    assert_eq!(can_be_executed(b"not a zip archive"), None);
}

#[test]
fn extraction_plan_of_an_archive() {
    let archive = zip_of(&[
        ("r/", None),
        ("r/Move.toml", Some(b"[package]")),
        ("r/LICENSE", Some(b"MIT")),
        ("r/build/x.mv", Some(b"\x01")),
        ("r/a.move:Zone.Identifier", Some(b"[ZoneTransfer]")),
        ("../escape", Some(b"x")),
        ("r/after", Some(b"y")),
    ]);
    let plan = unzip_plan(&archive, "/data/o").unwrap().unwrap();
    assert_eq!(plan.len(), 6);
    assert!(matches!(&plan[0], (0, EntryAction::CreateDir(p)) if p == "/data/o/r/"));
    assert!(matches!(&plan[1], (1, EntryAction::WriteFile(p)) if p == "/data/o/r/Move.toml"));
    assert!(matches!(&plan[2], (2, EntryAction::WriteFile(p)) if p == "/data/o/r/LICENSE"));
    assert!(matches!(&plan[3], (3, EntryAction::Skip)));
    assert!(matches!(&plan[4], (4, EntryAction::Ignore)));
    assert!(matches!(&plan[5], (5, EntryAction::Fail(2))));
    assert_eq!(entry_content(&archive, 2), Some(b"MIT".to_vec()));
    assert_eq!(entry_content(&archive, 99), None);

    let sui = zip_of(&[("r/Move.toml", Some(b"starcoin"))]);
    assert!(matches!(unzip_plan(&sui, "/data/o"), Some(Err(1))));
    assert!(unzip_plan(b"", "/data/o").is_none());
}

#[test]
fn position_finds_the_first_match() {
    let items = vec![("a".to_string(), Vec::new()), ("b".to_string(), vec!["x".to_string()]), ("b".to_string(), Vec::new())];
    assert_eq!(move_crawler::lookup::position(&items, "b"), Some(1));
    assert_eq!(move_crawler::lookup::position(&items, "c"), None);
    let pairs = vec![("a".to_string(), UtcTime { secs: 1, nanos: 0 }), ("a".to_string(), UtcTime { secs: 2, nanos: 0 })];
    assert_eq!(move_crawler::lookup::position(&pairs, ("a", UtcTime { secs: 2, nanos: 0 })), Some(1));
    assert_eq!(move_crawler::lookup::position(&pairs, ("a", UtcTime { secs: 3, nanos: 0 })), None);
}
