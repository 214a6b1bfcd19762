//! Routine files: names, listing, sorting and renames.

use tauri_shell::ipc::routines::{
    rename_allowed, routine_file_name, routines_in, routines_list, sort_newest_first, validate_name,
    RoutineFile, RoutineMetadata,
};
use tauri_shell::ipc::IpcError;

fn file(name: &str, m: u64, s: u64) -> RoutineFile {
    RoutineFile { file_name: name.into(), modified_unix: m, size_bytes: s }
}

#[test]
fn names_and_files() {
    assert!(validate_name("ok").is_ok());
    assert!(matches!(validate_name("../x"), Err(IpcError::InvalidArgument(m)) if m == "invalid routine name: ../x"));
    assert_eq!(routine_file_name("a").unwrap(), "a.openbb");
    assert_eq!(routine_file_name("a.openbb").unwrap(), "a.openbb");
}

#[test]
fn only_openbb_files_are_routines() {
    let files = vec![
        file("a.openbb", 10, 1),
        file("notes.txt", 20, 2),
        file(".openbb", 30, 3),
        file("b.openbb", 40, 4),
        file("..openbb", 50, 5),
    ];
    let r = routines_in(&files);
    let names: Vec<&str> = r.iter().map(|m| m.name.as_str()).collect();
    assert_eq!(names, vec!["a", "b", "."]);
    assert_eq!(r[1].modified_unix, 40);
    assert_eq!(r[1].size_bytes, 4);
}

#[test]
fn listing_is_newest_first_and_stable() {
    let files = vec![file("a.openbb", 10, 1), file("b.openbb", 30, 2), file("c.openbb", 10, 3), file("d.openbb", 20, 4)];
    let names: Vec<String> = routines_list(&files).into_iter().map(|m| m.name).collect();
    assert_eq!(names, vec!["b", "d", "a", "c"]);
    let v = vec![
        RoutineMetadata { name: "x".into(), modified_unix: 1, size_bytes: 0 },
        RoutineMetadata { name: "y".into(), modified_unix: 2, size_bytes: 0 },
    ];
    assert_eq!(sort_newest_first(v)[0].name, "y");
}

#[test]
fn rename_decision() {
    assert!(matches!(rename_allowed(false, true, "n"), Ok(false)));
    assert!(matches!(rename_allowed(true, true, "n"), Err(IpcError::Conflict(m)) if m == "target exists: n"));
    assert!(matches!(rename_allowed(true, false, "n"), Ok(true)));
}
