use crepbook::resolver::{fs_rename_dir, fs_rename_file, next_available_dir_path, next_available_path};
use std::path::Path;

fn within(name: &str) -> String {
    Path::new("/tmp/notes").join(name).to_str().unwrap().to_string()
}

fn oracle(taken: &[String]) -> impl Fn(&str) -> bool + '_ {
    move |p: &str| taken.iter().any(|t| t == p)
}

#[test]
fn test_next_available_dir_path_nonexistent() {
    let path = within("newfolder");
    let taken: Vec<String> = Vec::new();
    let result = next_available_dir_path(&path, oracle(&taken)).unwrap();
    assert_eq!(result, path);
}

#[test]
fn test_next_available_dir_path_exists() {
    let existing = within("mydir");
    let taken = vec![existing.clone()];
    let result = next_available_dir_path(&existing, oracle(&taken)).unwrap();
    assert_eq!(result, within("mydir1"));
}

#[test]
fn test_next_available_dir_path_multiple_exist() {
    let taken = vec![within("project"), within("project1"), within("project2")];
    let result = next_available_dir_path(&within("project"), oracle(&taken)).unwrap();
    assert_eq!(result, within("project3"));
}

#[test]
fn test_fs_next_available_dir_path() {
    let taken = vec![within("mydir")];
    let result = next_available_dir_path(&within("mydir"), oracle(&taken)).unwrap();
    assert_eq!(result, within("mydir1"));
}

#[test]
fn test_next_available_path_nonexistent() {
    let path = within("newfile.txt");
    let taken: Vec<String> = Vec::new();
    let result = next_available_path(&path, oracle(&taken)).unwrap();
    assert_eq!(result, path);
}

#[test]
fn test_next_available_path_exists() {
    let existing = within("file.txt");
    let taken = vec![existing.clone()];
    let result = next_available_path(&existing, oracle(&taken)).unwrap();
    assert_eq!(result, within("file1.txt"));
}

#[test]
fn test_next_available_path_multiple_exist() {
    let taken = vec![within("file.txt"), within("file1.txt"), within("file2.txt")];
    let result = next_available_path(&within("file.txt"), oracle(&taken)).unwrap();
    assert_eq!(result, within("file3.txt"));
}

#[test]
fn test_fs_next_available_file_path() {
    let taken = vec![within("doc.txt")];
    let result = next_available_path(&within("doc.txt"), oracle(&taken)).unwrap();
    assert_eq!(result, within("doc1.txt"));
}

#[test]
fn numbered_dir_counts_on_from_its_number() {
    let taken = vec![within("draft5"), within("draft6")];
    let result = next_available_dir_path(&within("draft5"), oracle(&taken)).unwrap();
    assert_eq!(result, within("draft7"));
}

#[test]
fn zero_suffix_restarts_at_one() {
    let taken = vec![within("name0")];
    let result = next_available_dir_path(&within("name0"), oracle(&taken)).unwrap();
    assert_eq!(result, within("name1"));
}

#[test]
fn gaps_are_filled_first() {
    let taken = vec![within("log"), within("log2")];
    let result = next_available_dir_path(&within("log"), oracle(&taken)).unwrap();
    assert_eq!(result, within("log1"));
}

#[test]
fn dir_without_parent_stays_relative() {
    let taken = vec!["inbox".to_string()];
    let result = next_available_dir_path("inbox", oracle(&taken)).unwrap();
    assert_eq!(result, "inbox1");
}

#[test]
fn dir_names_keep_their_dots() {
    let taken = vec![within("v1.2")];
    let result = next_available_dir_path(&within("v1.2"), oracle(&taken)).unwrap();
    assert_eq!(result, within("v1.3"));
}

#[test]
fn file_extension_is_kept_on_every_candidate() {
    let taken = vec![within("report7.md"), within("report8.md")];
    let result = next_available_path(&within("report7.md"), oracle(&taken)).unwrap();
    assert_eq!(result, within("report9.md"));
}

#[test]
fn file_only_last_extension_moves() {
    let taken = vec![within("notes.tar.gz")];
    let result = next_available_path(&within("notes.tar.gz"), oracle(&taken)).unwrap();
    assert_eq!(result, within("notes.tar1.gz"));
}

#[test]
fn file_without_extension() {
    let taken = vec![within("README")];
    let result = next_available_path(&within("README"), oracle(&taken)).unwrap();
    assert_eq!(result, within("README1"));
}

#[test]
fn largest_suffix_counts_past_u32() {
    let path = within("d4294967295");
    let taken = vec![path.clone()];
    let result = next_available_dir_path(&path, oracle(&taken)).unwrap();
    assert_eq!(result, within("d4294967296"));
    let file = within("f4294967295.txt");
    let taken = vec![file.clone(), within("f4294967296.txt")];
    let result = next_available_path(&file, oracle(&taken)).unwrap();
    assert_eq!(result, within("f4294967297.txt"));
}

#[test]
fn last_number_is_still_probed() {
    let path = within("d4294967294");
    let taken = vec![path.clone()];
    let result = next_available_dir_path(&path, oracle(&taken)).unwrap();
    assert_eq!(result, within("d4294967295"));
}

#[test]
fn test_fs_rename_file() {
    let old_path = within("old.txt");
    let new_path = within("new.txt");
    let taken = vec![old_path.clone()];
    let mut moves: Vec<(String, String)> = Vec::new();
    let result = fs_rename_file(&old_path, &new_path, oracle(&taken), |a: &str, b: &str| {
        moves.push((a.to_string(), b.to_string()));
        Ok(())
    })
    .unwrap();

    assert_eq!(result, new_path);
    assert_eq!(moves, vec![(old_path, new_path)]);
}

#[test]
fn test_fs_rename_file_same_path() {
    let path = within("file.txt");
    let taken = vec![path.clone()];
    let mut calls = 0;
    let result = fs_rename_file(&path, &path, oracle(&taken), |_: &str, _: &str| {
        calls += 1;
        Ok(())
    })
    .unwrap();

    assert_eq!(result, path);
    assert_eq!(calls, 0);
}

#[test]
fn rename_to_equivalent_path_is_no_op() {
    let taken = vec!["/tmp/notes/a.txt".to_string()];
    let mut calls = 0;
    let result = fs_rename_file("/tmp/notes/a.txt", "/tmp//notes/a.txt", oracle(&taken), |_: &str, _: &str| {
        calls += 1;
        Ok(())
    })
    .unwrap();
    assert_eq!(result, "/tmp/notes/a.txt");
    assert_eq!(calls, 0);
}

#[test]
fn rename_onto_occupied_path_moves_aside() {
    let old_path = within("old.txt");
    let taken = vec![old_path.clone(), within("doc.txt")];
    let mut moves: Vec<(String, String)> = Vec::new();
    let result = fs_rename_file(&old_path, &within("doc.txt"), oracle(&taken), |a: &str, b: &str| {
        moves.push((a.to_string(), b.to_string()));
        Ok(())
    })
    .unwrap();
    assert_eq!(result, within("doc1.txt"));
    assert_ne!(result, within("doc.txt"));
    assert_eq!(
        Some(result.clone()),
        next_available_path(&within("doc.txt"), oracle(&taken))
    );
    assert_eq!(moves, vec![(old_path, within("doc1.txt"))]);
}

#[test]
fn rename_error_is_passed_on() {
    let taken: Vec<String> = Vec::new();
    let result = fs_rename_file(&within("a.txt"), &within("b.txt"), oracle(&taken), |_: &str, _: &str| {
        Err("Permission denied (os error 13)".to_string())
    });
    assert_eq!(result, Err("Permission denied (os error 13)".to_string()));
}

#[test]
fn rename_past_largest_suffix() {
    let target = within("f4294967295.txt");
    let taken = vec![target.clone()];
    let result = fs_rename_file(&within("a.txt"), &target, oracle(&taken), |_: &str, _: &str| Ok(()));
    assert_eq!(result, Ok(within("f4294967296.txt")));
}

#[test]
fn test_fs_rename_dir() {
    let old_dir = within("oldname");
    let new_dir = within("newname");
    let taken = vec![old_dir.clone()];
    let mut moves: Vec<(String, String)> = Vec::new();
    let result = fs_rename_dir(&old_dir, &new_dir, oracle(&taken), |a: &str, b: &str| {
        moves.push((a.to_string(), b.to_string()));
        Ok(())
    });
    assert_eq!(result, Ok(new_dir.clone()));
    assert_eq!(moves, vec![(old_dir, new_dir)]);
}

#[test]
fn rename_dir_to_itself_is_no_op() {
    let dir = within("project");
    let taken = vec![dir.clone()];
    let mut calls = 0;
    let result = fs_rename_dir(&dir, &dir, oracle(&taken), |_: &str, _: &str| {
        calls += 1;
        Ok(())
    });
    assert_eq!(result, Ok(dir));
    assert_eq!(calls, 0);
}

#[test]
fn rename_dir_onto_occupied_moves_aside() {
    let old_dir = within("drafts");
    let taken = vec![old_dir.clone(), within("project"), within("project1"), within("project2")];
    let mut moves: Vec<(String, String)> = Vec::new();
    let result = fs_rename_dir(&old_dir, &within("project"), oracle(&taken), |a: &str, b: &str| {
        moves.push((a.to_string(), b.to_string()));
        Ok(())
    });
    assert_eq!(result, Ok(within("project3")));
    assert_eq!(moves, vec![(old_dir, within("project3"))]);
}

#[test]
fn rename_dir_error_is_passed_on() {
    let taken: Vec<String> = Vec::new();
    let result = fs_rename_dir(&within("a"), &within("b"), oracle(&taken), |_: &str, _: &str| {
        Err("Permission denied (os error 13)".to_string())
    });
    assert_eq!(result, Err("Permission denied (os error 13)".to_string()));
}
