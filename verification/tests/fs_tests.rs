use bubble::fs::{
    classify_rename_error, directories, files, is_temporary, symlinks, BackonError, DirEntryInfo,
    EntryKind, ProgressReader,
};

#[test]
fn backon_error_kinds() {
    let p: BackonError<&str> = BackonError::permanent("gone");
    let t: BackonError<&str> = BackonError::transient("busy");
    assert!(p.is_permanent());
    assert!(!p.is_transient());
    assert!(t.is_transient());
    assert!(!t.is_permanent());
    assert_eq!(p.description(), "permanent error");
    assert_eq!(t.description(), "transient error");
    assert_eq!(p.into_inner(), "gone");
    assert_eq!(t.into_inner(), "busy");
}

#[test]
fn rename_errors_are_retried_only_when_denied() {
    assert!(classify_rename_error(5, true).is_transient());
    assert!(classify_rename_error(5, false).is_permanent());
    assert_eq!(classify_rename_error(7, true).into_inner(), 7);
}

#[test]
fn temporary_names() {
    assert!(is_temporary(".tmp"));
    assert!(is_temporary(".tmpA1b2"));
    assert!(is_temporary("cache/.tmp-download"));
    assert!(!is_temporary("cache/file.tmp"));
    assert!(!is_temporary(".tm"));
    assert!(!is_temporary(".tmp/file"));
    assert!(!is_temporary("/"));
}

fn entry(path: &str, kind: Option<EntryKind>) -> DirEntryInfo {
    DirEntryInfo { path: path.to_string(), kind }
}

#[test]
fn entries_by_kind() {
    let listing = vec![
        entry("d/a", Some(EntryKind::Directory)),
        entry("d/b.txt", Some(EntryKind::File)),
        entry("d/link", Some(EntryKind::Symlink)),
        entry("d/unknown", None),
        entry("d/c", Some(EntryKind::Directory)),
        entry("d/pipe", Some(EntryKind::Other)),
        entry("d/e.txt", Some(EntryKind::File)),
    ];
    assert_eq!(directories(&listing), vec!["d/a".to_string(), "d/c".to_string()]);
    assert_eq!(files(&listing), vec!["d/b.txt".to_string(), "d/e.txt".to_string()]);
    assert_eq!(symlinks(&listing), vec!["d/link".to_string()]);
    assert!(directories(&Vec::new()).is_empty());
}

#[test]
fn progress_reader_keeps_parts() {
    let r = ProgressReader::new(vec![1u8, 2, 3], 17usize);
    assert_eq!(r.reader, vec![1u8, 2, 3]);
    assert_eq!(r.callback, 17);
}

#[test]
fn kinds_never_share_a_path() {
    let listing = vec![
        entry("d/a", Some(EntryKind::Directory)),
        entry("d/b", Some(EntryKind::File)),
        entry("d/c", Some(EntryKind::Symlink)),
    ];
    let dirs = directories(&listing);
    let fs = files(&listing);
    let links = symlinks(&listing);
    for p in &dirs {
        assert!(!fs.contains(p) && !links.contains(p));
    }
    for p in &fs {
        assert!(!links.contains(p));
    }
}
