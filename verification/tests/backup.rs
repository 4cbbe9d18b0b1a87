use reading_steiner::backup::{
    backup_candidate, backup_dir, backup_zip_path, cleanup_backup_dir, describe, dir_name,
    is_root_entry, is_safe_zip_path, is_valid_backup_name, order_backups, pack_backup_zip,
    plan_extraction, unique_backup_dir, BackupInfo, ExtractError, BACKUP_SUBDIR, DB_FILE_NAME,
};

fn info(name: &str) -> BackupInfo {
    BackupInfo { name: name.to_string(), path: format!("/s/backups/{name}"), has_zip: false }
}

#[test]
fn backup_names_are_time_stamps() {
    assert!(is_valid_backup_name("20260101-120000"));
    assert!(is_valid_backup_name("20260101-120000-1"));
    assert!(!is_valid_backup_name(""));
    assert!(!is_valid_backup_name("../etc"));
    assert!(!is_valid_backup_name("2026/01"));
    assert!(!is_valid_backup_name(&"1".repeat(33)));
    assert!(is_valid_backup_name(&"1".repeat(32)));
}

#[test]
fn archive_entries_must_stay_relative() {
    assert!(is_safe_zip_path("reading-steiner.db"));
    assert!(is_safe_zip_path("media/a/b.jpg"));
    assert!(is_safe_zip_path("./media\\x.png"));
    assert!(!is_safe_zip_path("/etc/passwd"));
    assert!(!is_safe_zip_path("\\windows"));
    assert!(!is_safe_zip_path("media/../../x"));
    assert!(!is_safe_zip_path("a\\..\\b"));
    assert!(!is_safe_zip_path(""));
    assert!(!is_safe_zip_path("./"));
    assert!(is_root_entry(""));
    assert!(is_root_entry("/"));
    assert!(!is_root_entry(DB_FILE_NAME));
    assert_eq!(BACKUP_SUBDIR, "backups");
}

#[test]
fn backup_paths() {
    assert_eq!(backup_dir("/s", "20260101-000000"), "/s/backups/20260101-000000");
    assert_eq!(backup_zip_path("/s/", "20260101-000000"), "/s/backups/20260101-000000.zip");
    assert_eq!(pack_backup_zip("/s/backups/20260101-000000"), "/s/backups/20260101-000000.zip");
    assert_eq!(dir_name("/s/backups/20260101-000000"), "20260101-000000");
    assert_eq!(dir_name("/"), "");
    let d = describe("/s/backups/20260101-000000", true);
    assert_eq!(d.name, "20260101-000000");
    assert_eq!(d.path, "/s/backups/20260101-000000");
    assert!(d.has_zip);
}

#[test]
fn restores_in_the_same_second_get_fresh_directories() {
    assert_eq!(backup_candidate("20260101-000000", 0), "20260101-000000");
    assert_eq!(backup_candidate("20260101-000000", 12), "20260101-000000-12");
    let taken = vec!["20260101-000000".to_string(), "20260101-000000-1".to_string(), "other".to_string()];
    assert_eq!(unique_backup_dir("/s/backups", "20260101-000000", &taken), "/s/backups/20260101-000000-2");
    assert_eq!(unique_backup_dir("/s/backups", "20260102-000000", &taken), "/s/backups/20260102-000000");
}

#[test]
fn clean_up_targets_valid_backups_only() {
    assert_eq!(
        cleanup_backup_dir("/s/backups/20260101-000000"),
        Some(("/s".to_string(), "20260101-000000".to_string()))
    );
    assert_eq!(cleanup_backup_dir("/s/backups/evil name"), None);
}

#[test]
fn backups_are_listed_newest_first() {
    let listed = order_backups(&[info("20250101-000000"), info("20260301-000000"), info("20260101-000000")]);
    let names: Vec<&str> = listed.iter().map(|b| b.name.as_str()).collect();
    assert_eq!(names, vec!["20260301-000000", "20260101-000000", "20250101-000000"]);
}

fn zip_of(entries: &[(&str, Option<&[u8]>)]) -> Vec<u8> {
    let mut cursor = std::io::Cursor::new(Vec::new());
    {
        let mut w = zip::ZipWriter::new(&mut cursor);
        let opts = zip::write::SimpleFileOptions::default();
        for (name, data) in entries {
            match data {
                Some(d) => {
                    w.start_file(*name, opts).unwrap();
                    std::io::Write::write_all(&mut w, d).unwrap();
                }
                None => {
                    w.add_directory(*name, opts).unwrap();
                }
            }
        }
        w.finish().unwrap();
    }
    cursor.into_inner()
}

#[test]
fn plan_extraction_lists_safe_entries_in_order() {
    let bytes = zip_of(&[
        ("reading-steiner.db", Some(b"db")),
        ("media/", None),
        ("media/a.png", Some(b"png")),
    ]);
    let files = plan_extraction(&bytes).unwrap();
    let names: Vec<&str> = files.iter().map(|f| f.name.as_str()).collect();
    assert_eq!(names, vec!["reading-steiner.db", "media/", "media/a.png"]);
    assert!(!files[0].is_dir);
    assert_eq!(files[0].data, b"db".to_vec());
    assert!(files[1].is_dir);
    assert_eq!(files[2].data, b"png".to_vec());
}

#[test]
fn plan_extraction_refuses_archive_without_database() {
    let bytes = zip_of(&[("notes.txt", Some(b"x"))]);
    assert_eq!(plan_extraction(&bytes).err(), Some(ExtractError::NoDatabase));
}

#[test]
fn plan_extraction_refuses_first_unsafe_entry() {
    let bytes = zip_of(&[
        ("reading-steiner.db", Some(b"db")),
        ("../evil.txt", Some(b"x")),
        ("/abs.txt", Some(b"y")),
    ]);
    assert_eq!(
        plan_extraction(&bytes).err(),
        Some(ExtractError::UnsafePath("../evil.txt".to_string()))
    );
}

#[test]
fn plan_extraction_refuses_bytes_that_are_not_an_archive() {
    assert_eq!(plan_extraction(b"not a zip").err(), Some(ExtractError::NotZip));
}
