use canopy::dirty::{
    check_porcelain_v2, classify_xy, compute_fingerprint, parse_porcelain_v2, DirtyFile,
    DirtyState, DirtyStatus,
};

#[test]
fn test_parse_ordinary_modified() {
    let output = "1 .M N... 100644 100644 100644 abc123 def456 src/main.rs\0";
    let files = parse_porcelain_v2(output);
    assert_eq!(files.len(), 1);
    assert_eq!(files[0].path, "src/main.rs");
    assert_eq!(files[0].status, DirtyStatus::Modified);
}

#[test]
fn test_parse_ordinary_added() {
    let output = "1 A. N... 000000 100644 100644 0000000 abc123 src/new.rs\0";
    let files = parse_porcelain_v2(output);
    assert_eq!(files.len(), 1);
    assert_eq!(files[0].path, "src/new.rs");
    assert_eq!(files[0].status, DirtyStatus::Added);
}

#[test]
fn test_parse_ordinary_deleted() {
    let output = "1 D. N... 100644 000000 000000 abc123 0000000 src/old.rs\0";
    let files = parse_porcelain_v2(output);
    assert_eq!(files.len(), 1);
    assert_eq!(files[0].path, "src/old.rs");
    assert_eq!(files[0].status, DirtyStatus::Deleted);
}

#[test]
fn test_parse_renamed() {
    let output =
        "2 R. N... 100644 100644 100644 abc123 def456 R100 new_name.rs\0old_name.rs\0";
    let files = parse_porcelain_v2(output);
    assert_eq!(files.len(), 1);
    assert_eq!(files[0].path, "new_name.rs");
    assert_eq!(files[0].status, DirtyStatus::Renamed);
}

#[test]
fn test_parse_untracked() {
    let output = "? untracked.txt\0";
    let files = parse_porcelain_v2(output);
    assert_eq!(files.len(), 1);
    assert_eq!(files[0].path, "untracked.txt");
    assert_eq!(files[0].status, DirtyStatus::Added);
}

#[test]
fn test_parse_unmerged() {
    let output =
        "u UU N... 100644 100644 100644 100644 abc123 def456 789abc src/conflict.rs\0";
    let files = parse_porcelain_v2(output);
    assert_eq!(files.len(), 1);
    assert_eq!(files[0].path, "src/conflict.rs");
    assert_eq!(files[0].status, DirtyStatus::Unmerged);
}

#[test]
fn test_parse_multiple() {
    let output = "1 .M N... 100644 100644 100644 abc123 def456 src/a.rs\0? new.txt\01 D. N... 100644 000000 000000 abc123 0000000 src/old.rs\0";
    let files = parse_porcelain_v2(output);
    assert_eq!(files.len(), 3);
    assert_eq!(files[0].status, DirtyStatus::Modified);
    assert_eq!(files[1].status, DirtyStatus::Added);
    assert_eq!(files[2].status, DirtyStatus::Deleted);
}

#[test]
fn test_parse_empty() {
    let files = parse_porcelain_v2("");
    assert!(files.is_empty());
}

#[test]
fn test_dirty_state_is_dirty() {
    let state = DirtyState {
        files: vec![DirtyFile {
            path: "src/main.rs".to_string(),
            status: DirtyStatus::Modified,
        }],
        fingerprint: "abc".to_string(),
    };
    assert!(state.is_dirty("src/main.rs"));
    assert!(!state.is_dirty("src/other.rs"));
}

#[test]
fn test_dirty_state_is_clean() {
    let state = DirtyState {
        files: vec![],
        fingerprint: "empty".to_string(),
    };
    assert!(state.is_clean());
}

#[test]
fn test_classify_xy() {
    assert_eq!(classify_xy(".M"), DirtyStatus::Modified);
    assert_eq!(classify_xy("M."), DirtyStatus::Modified);
    assert_eq!(classify_xy("A."), DirtyStatus::Added);
    assert_eq!(classify_xy("D."), DirtyStatus::Deleted);
    assert_eq!(classify_xy(".D"), DirtyStatus::Deleted);
}

#[test]
fn test_compute_fingerprint_deterministic() {
    let stamps = vec![("b.rs".to_string(), 0), ("a.rs".to_string(), 0)];
    let fp1 = compute_fingerprint(&stamps);
    let fp2 = compute_fingerprint(&stamps);
    assert_eq!(fp1, fp2); // Same files → same fingerprint
}

#[test]
fn status_letters_must_be_whole() {
    assert!(check_porcelain_v2("1 .M N... 100644 100644 100644 abc123 def456 src/main.rs\0"));
    assert!(!check_porcelain_v2("1 .é N... 100644 100644 100644 abc123 def456 src/main.rs\0"));
    assert!(check_porcelain_v2(""));
}

#[test]
fn old_name_of_a_rename_is_no_entry() {
    let output = "2 R. N... 1 2 3 a b R100 new.rs\01 .é a b c d e f old.rs\0? more.rs\0";
    assert!(check_porcelain_v2(output));
    let files = parse_porcelain_v2(output);
    assert_eq!(files.len(), 2);
    assert_eq!(files[0].path, "new.rs");
    assert_eq!(files[1].path, "more.rs");
    assert_eq!(files[1].status, DirtyStatus::Added);
}
