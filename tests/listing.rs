use crepbook::listing::DirContent;

#[test]
fn test_fs_get_dir_content() {
    let entries = vec![
        ("/tmp/t/subdir".to_string(), true),
        ("/tmp/t/file.txt".to_string(), false),
    ];
    let content = DirContent::from_entries(&entries);

    assert_eq!(content.dirs.len(), 1);
    assert!(content.dirs[0].contains("subdir"));
    assert_eq!(content.files.len(), 1);
    assert!(content.files[0].contains("file.txt"));
}

#[test]
fn test_fs_get_dir_content_nonexistent() {
    let content = DirContent::from_entries(&Vec::new());
    assert!(content.dirs.is_empty());
    assert!(content.files.is_empty());
}

#[test]
fn dir_content_keeps_enumeration_order() {
    let entries = vec![
        ("b".to_string(), false),
        ("z".to_string(), true),
        ("a".to_string(), false),
        ("c".to_string(), true),
    ];
    let content = DirContent::from_entries(&entries);
    assert_eq!(content.dirs, vec!["z".to_string(), "c".to_string()]);
    assert_eq!(content.files, vec!["b".to_string(), "a".to_string()]);
}
