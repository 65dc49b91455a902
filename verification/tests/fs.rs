use gql_codegen_core::fs::MemoryFs;

#[test]
fn memory_fs_read_after_write() {
    let mut fs = MemoryFs::new();
    assert!(!fs.path_exists("a.graphql"));
    assert!(fs.read("a.graphql").is_none());
    fs.add_file("a.graphql", b"query { a }".to_vec());
    assert!(fs.path_exists("a.graphql"));
    assert_eq!(fs.read("a.graphql").unwrap(), b"query { a }".to_vec());
    assert_eq!(fs.read_to_string("a.graphql").unwrap(), "query { a }");
    fs.write("a.graphql", b"query { b }");
    assert_eq!(fs.read_to_string("a.graphql").unwrap(), "query { b }");
    let meta = fs.metadata("a.graphql").unwrap();
    assert_eq!(meta.size, 11);
    assert_eq!(meta.mtime_secs, 0);
    assert!(fs.metadata("missing").is_none());
    fs.create_dir_all("dir");
}

#[test]
fn memory_fs_lossy_text() {
    let mut fs = MemoryFs::default();
    fs.add_file("bin", vec![0x61, 0xff, 0x62]);
    assert_eq!(fs.read_to_string("bin").unwrap(), "a\u{fffd}b");
}

#[test]
fn memory_fs_glob() {
    let mut fs = MemoryFs::new();
    fs.add_file("src/a.graphql", Vec::new());
    fs.add_file("src/b.ts", Vec::new());
    fs.add_file("lib/c.graphql", Vec::new());
    let found = fs.glob(&vec!["src/*.graphql", "lib/**"], ".");
    assert_eq!(found, vec!["src/a.graphql".to_string(), "lib/c.graphql".to_string()]);
    // An invalid pattern is skipped.
    let found = fs.glob(&vec!["[", "**/*.ts"], ".");
    assert_eq!(found, vec!["src/b.ts".to_string()]);
    assert!(fs.glob(&vec![], ".").is_empty());
}
