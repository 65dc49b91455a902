use gql_codegen_core::glob_cache::{
    add_discovered_dir, full_glob, globbed_patterns, knows_dir, walk_keeps, DirEntry, DirStatus,
    GlobHit, IncrementalGlobCache,
};

fn strings(v: &[&str]) -> Vec<String> {
    v.iter().map(|s| s.to_string()).collect()
}

fn cache() -> IncrementalGlobCache {
    IncrementalGlobCache {
        patterns_hash: 42,
        dirs: vec![
            ("src".to_string(), DirEntry { mtime: 1, files: strings(&["src/a.ts"]) }),
            ("lib".to_string(), DirEntry { mtime: 2, files: strings(&["lib/b.ts", "lib/c.ts"]) }),
            ("old".to_string(), DirEntry { mtime: 3, files: strings(&["old/d.ts"]) }),
        ],
    }
}

#[test]
fn glob_cache_statuses() {
    let c = cache();
    assert!(c.patterns_match(42));
    assert!(!c.patterns_match(7));
    assert_eq!(c.dir_status(0, Some(1)), DirStatus::Unchanged);
    assert_eq!(c.dir_status(1, Some(5)), DirStatus::Changed(5));
    assert_eq!(c.dir_status(2, None), DirStatus::Removed);
    assert!(IncrementalGlobCache::new().dirs.is_empty());
}

#[test]
fn glob_cache_merge_keeps_unchanged_and_rewalks_changed() {
    let c = cache();
    let statuses = vec![DirStatus::Unchanged, DirStatus::Changed(5), DirStatus::Removed];
    let walked = vec![vec![], strings(&["lib/b.ts", "lib/e.ts", "lib/f.ts"]), vec![]];
    let r = c.merge(42, &statuses, &walked);
    assert_eq!(r.files, strings(&["src/a.ts", "lib/b.ts", "lib/e.ts", "lib/f.ts"]));
    assert_eq!(r.cache.dirs.len(), 2);
    assert_eq!(r.cache.dirs[1].1.mtime, 5);
    assert_eq!(r.stats.dirs_cached, 1);
    assert_eq!(r.stats.dirs_walked, 1);
    assert_eq!(r.stats.files_from_cache, 1);
    assert_eq!(r.stats.files_from_walk, 3);
    assert!(knows_dir(&r.cache, "src"));
    assert!(!knows_dir(&r.cache, "old"));
}

#[test]
fn glob_cache_discovered_dirs() {
    let c = cache();
    let mut r = c.merge(42, &vec![DirStatus::Unchanged, DirStatus::Removed, DirStatus::Removed], &vec![vec![], vec![], vec![]]);
    add_discovered_dir(&mut r, "new", 9, &strings(&["new/x.ts"]));
    assert_eq!(r.files, strings(&["src/a.ts", "new/x.ts"]));
    assert_eq!(r.cache.dirs.len(), 2);
    assert_eq!(r.stats.dirs_walked, 1);
    add_discovered_dir(&mut r, "new", 10, &strings(&["new/y.ts"]));
    assert_eq!(r.cache.dirs.len(), 2);
    assert_eq!(r.cache.dirs[1].1.files, strings(&["new/y.ts"]));
    assert_eq!(r.stats.dirs_walked, 2);
    assert_eq!(r.stats.files_from_walk, 2);
}

fn hit(path: &str, is_file: bool, parent: Option<(&str, u64)>) -> GlobHit {
    GlobHit {
        path: path.to_string(),
        is_file,
        components: path.split('/').map(|s| s.to_string()).collect(),
        parent: parent.map(|(p, m)| (p.to_string(), m)),
    }
}

#[test]
fn glob_cache_full_glob_groups_by_parent() {
    let hits = vec![
        hit("src/a.ts", true, Some(("src", 1))),
        hit("src/b.ts", true, Some(("src", 1))),
        hit("src", false, Some((".", 0))),
        hit("node_modules/x.ts", true, Some(("node_modules", 2))),
        hit("src/__generated__/g.ts", true, Some(("src/__generated__", 3))),
        hit("lib/c.ts", true, Some(("lib", 4))),
    ];
    let r = full_glob(7, &hits);
    assert_eq!(r.files, strings(&["src/a.ts", "src/b.ts", "lib/c.ts"]));
    assert_eq!(r.cache.patterns_hash, 7);
    assert_eq!(r.cache.dirs.len(), 2);
    assert_eq!(r.cache.dirs[0].1.files, strings(&["src/a.ts", "src/b.ts"]));
    assert_eq!(r.stats.dirs_walked, 2);
    assert_eq!(r.stats.files_from_walk, 3);
}

#[test]
fn glob_cache_pattern_rules() {
    assert_eq!(globbed_patterns(&vec!["src/**/*.ts", "!src/gen/**", "lib/*"]), vec!["src/**/*.ts", "lib/*"]);
    assert!(walk_keeps("ts", &vec!["src/**/*.ts"]));
    assert!(!walk_keeps("tsx", &vec!["src/**/*.ts", "!**/*.tsx"]));
    assert!(walk_keeps("md", &vec!["docs/*"]));
    assert!(!walk_keeps("md", &vec!["!docs/*"]));
}

#[test]
fn glob_cache_full_glob_keeps_first_mtime() {
    let hits = vec![
        hit("src/a.ts", true, Some(("src", 1))),
        hit("lib/c.ts", true, Some(("lib", 4))),
        hit("src/b.ts", true, Some(("src", 9))),
    ];
    let r = full_glob(7, &hits);
    assert_eq!(r.cache.dirs[0].0, "src");
    assert_eq!(r.cache.dirs[0].1.mtime, 1);
    assert_eq!(r.cache.dirs[0].1.files, strings(&["src/a.ts", "src/b.ts"]));
    assert_eq!(r.cache.dirs[1].0, "lib");
    assert_eq!(r.cache.dirs[1].1.files, strings(&["lib/c.ts"]));
}
