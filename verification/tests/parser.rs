use jj_vcs::{status_to_change, find_rename, FileChange};

fn modified(path: &str) -> Option<FileChange> {
    status_to_change("FF", path)
}

#[test]
fn modified_codes_map_to_modified() {
    for code in ["FF", "LL", "CF", "CL", "FL", "LF"] {
        match status_to_change(code, "src/main.rs") {
            Some(FileChange::Modified { path }) => assert_eq!(path, "src/main.rs"),
            other => panic!("code {code}: expected Modified, got {:?}", other.is_some()),
        }
    }
}

#[test]
fn added_codes_map_to_added() {
    for code in ["-F", "-L"] {
        match status_to_change(code, "new_file.rs") {
            Some(FileChange::Added { path }) => assert_eq!(path, "new_file.rs"),
            _ => panic!("code {code}: expected Added"),
        }
    }
}

#[test]
fn deleted_codes_map_to_deleted() {
    for code in ["F-", "L-"] {
        match status_to_change(code, "gone.rs") {
            Some(FileChange::Deleted { path }) => assert_eq!(path, "gone.rs"),
            _ => panic!("code {code}: expected Deleted"),
        }
    }
}

#[test]
fn conflict_codes_map_to_conflict() {
    for code in ["FC", "LC"] {
        match status_to_change(code, "clash.rs") {
            Some(FileChange::Conflict { path }) => assert_eq!(path, "clash.rs"),
            _ => panic!("code {code}: expected Conflict"),
        }
    }
}

#[test]
fn unknown_codes_yield_no_event() {
    for code in ["CC", "C-", "-C", "--", "XX", "F", "L", "FFF", "", "ff"] {
        assert!(status_to_change(code, "a.rs").is_none(), "code {code:?}");
    }
}

#[test]
fn plain_modified_line() {
    match modified("src/main.rs") {
        Some(FileChange::Modified { path }) => assert_eq!(path, "src/main.rs"),
        _ => panic!("expected Modified"),
    }
}

#[test]
fn plain_added_line() {
    match status_to_change("-F", "new_file.rs") {
        Some(FileChange::Added { path }) => assert_eq!(path, "new_file.rs"),
        _ => panic!("expected Added"),
    }
}

#[test]
fn rename_wins_over_modified_code() {
    match modified("src/{old.rs => new.rs}") {
        Some(FileChange::Renamed { from_path, to_path }) => {
            assert_eq!(from_path, "src/old.rs");
            assert_eq!(to_path, "src/new.rs");
        },
        _ => panic!("expected Renamed"),
    }
}

#[test]
fn rename_wins_over_unknown_code() {
    match status_to_change("XX", "src/{old.rs => new.rs}") {
        Some(FileChange::Renamed { from_path, to_path }) => {
            assert_eq!(from_path, "src/old.rs");
            assert_eq!(to_path, "src/new.rs");
        },
        _ => panic!("expected Renamed"),
    }
}

#[test]
fn rename_inside_longer_path() {
    match find_rename("a/{b => c}/d.rs") {
        Some(FileChange::Renamed { from_path, to_path }) => {
            assert_eq!(from_path, "a/b/d.rs");
            assert_eq!(to_path, "a/c/d.rs");
        },
        _ => panic!("expected Renamed"),
    }
}

#[test]
fn rename_takes_first_matching_tokens() {
    match find_rename("x{a => b}y{c => d}z") {
        Some(FileChange::Renamed { from_path, to_path }) => {
            assert_eq!(from_path, "xay{c => d}z");
            assert_eq!(to_path, "xby{c => d}z");
        },
        _ => panic!("expected Renamed"),
    }
}

#[test]
fn rename_tokens_are_found_in_order() {
    match find_rename("a{b}c => d}e") {
        Some(FileChange::Renamed { from_path, to_path }) => {
            assert_eq!(from_path, "ab}ce");
            assert_eq!(to_path, "ade");
        },
        _ => panic!("expected Renamed"),
    }
}

#[test]
fn missing_close_brace_falls_back() {
    match modified("src/{a.rs => b.rs") {
        Some(FileChange::Modified { path }) => assert_eq!(path, "src/{a.rs => b.rs"),
        _ => panic!("expected fallback to Modified"),
    }
}

#[test]
fn missing_separator_falls_back() {
    match modified("src/{weird}.rs") {
        Some(FileChange::Modified { path }) => assert_eq!(path, "src/{weird}.rs"),
        _ => panic!("expected fallback to Modified"),
    }
}

#[test]
fn missing_open_brace_falls_back() {
    match modified("src/a => b}.rs") {
        Some(FileChange::Modified { path }) => assert_eq!(path, "src/a => b}.rs"),
        _ => panic!("expected fallback to Modified"),
    }
}

#[test]
fn out_of_order_tokens_fall_back() {
    assert!(find_rename("} => {").is_none());
    match status_to_change("-F", "} => {") {
        Some(FileChange::Added { path }) => assert_eq!(path, "} => {"),
        _ => panic!("expected fallback to Added"),
    }
}

#[test]
fn malformed_rename_with_unknown_code_yields_nothing() {
    assert!(status_to_change("XX", "src/{a.rs => b.rs").is_none());
}

#[test]
fn canonical_path_is_the_single_path() {
    let change = status_to_change("F-", "gone.rs").unwrap();
    assert_eq!(change.path().as_str(), "gone.rs");
}

#[test]
fn canonical_path_of_rename_is_destination() {
    let change = find_rename("src/{old.rs => new.rs}").unwrap();
    assert_eq!(change.path().as_str(), "src/new.rs");
}
