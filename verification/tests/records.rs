use del::compress::PackResult;
use del::records::{
    database_name, is_database_file, is_referenced, restore_dir, sweep_removes, DatabaseRow,
};
use std::collections::HashMap;

fn row(id: i64, original: &str) -> DatabaseRow {
    DatabaseRow {
        id,
        original_path: original.to_string(),
        present_path: format!("/t/{id}.bak"),
        size: "1B".to_string(),
        time: 0,
    }
}

#[test]
fn row_from_pack_result() {
    let p = PackResult {
        original_path: "/a/b".to_string(),
        present_path: "/t/h.bak".to_string(),
        size: "3B".to_string(),
        time: 1234,
    };
    let r: DatabaseRow = p.into();
    assert_eq!(r.original_path, "/a/b");
    assert_eq!(r.present_path, "/t/h.bak");
    assert_eq!(r.size, "3B");
    assert_eq!(r.time, 1234);
}

#[test]
fn restore_directories() {
    let mut m: HashMap<i64, Option<String>> = HashMap::new();
    m.insert(1, Some("/home/alice/Downloads".to_string()));
    m.insert(2, None);
    m.insert(3, None);
    assert_eq!(restore_dir(&row(1, "/home/alice/x.txt"), &m), Some("/home/alice/Downloads".to_string()));
    assert_eq!(restore_dir(&row(2, "/home/alice/x.txt"), &m), Some("/home/alice".to_string()));
    assert_eq!(restore_dir(&row(3, "/"), &m), None);
    assert_eq!(restore_dir(&row(4, "/home/alice/x.txt"), &m), None);
}

#[test]
fn database_files_are_kept() {
    assert_eq!(database_name("/home/alice/.trash/database.db"), "database.db");
    assert_eq!(database_name("/"), "database.db");
    for f in ["database.db", "database.db-wal", "database.db-shm", "database.db-journal", "database.db-backup"] {
        assert!(is_database_file(&format!("/t/{f}"), "database.db"), "{f}");
    }
    assert!(!is_database_file("/t/abc.bak", "database.db"));
    assert!(!is_database_file("/t/database.d", "database.db"));
}

#[test]
fn sweep_removes_only_orphans() {
    let refs = vec!["/t/a.bak".to_string(), "/t//b.bak".to_string()];
    assert!(is_referenced("/t/a.bak", &refs));
    assert!(is_referenced("/t/b.bak", &refs));
    assert!(!is_referenced("/t/c.bak", &refs));
    assert!(!sweep_removes("/t/a.bak", "/t/a.bak", &refs, "database.db"));
    assert!(!sweep_removes("/t/database.db-wal", "/t/database.db-wal", &refs, "database.db"));
    assert!(sweep_removes("/t/.tmp-1-0", "/t/.tmp-1-0", &refs, "database.db"));
    assert!(sweep_removes("/t/c.bak", "/t/c.bak", &refs, "database.db"));
}
