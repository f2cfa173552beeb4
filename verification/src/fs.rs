//! File-system helpers: retry classification of errors, temporary names and
//! the selection of directory entries by kind.
use vstd::prelude::*;
use crate::text::{chars_of, path_file_name};

verus! {

/// An error of an operation that may be retried.
pub enum BackonError<E> {
    /// The operation cannot succeed; it is not retried.
    Permanent(E),
    /// The error is temporary; the operation is retried by the backoff policy.
    Transient(E),
}

impl<E> BackonError<E> {
    pub fn permanent(err: E) -> (r: Self)
        ensures
            r == BackonError::Permanent(err),
    {
        BackonError::Permanent(err)
    }

    pub fn transient(err: E) -> (r: Self)
        ensures
            r == BackonError::Transient(err),
    {
        BackonError::Transient(err)
    }

    pub fn is_transient(&self) -> (b: bool)
        ensures
            b == (*self is Transient),
    {
        match self {
            BackonError::Transient(_) => true,
            BackonError::Permanent(_) => false,
        }
    }

    pub fn is_permanent(&self) -> (b: bool)
        ensures
            b == (*self is Permanent),
    {
        match self {
            BackonError::Permanent(_) => true,
            BackonError::Transient(_) => false,
        }
    }

    /// The error inside, whatever its kind.
    pub fn into_inner(self) -> (e: E)
        ensures
            e == (match self {
                BackonError::Permanent(x) => x,
                BackonError::Transient(x) => x,
            }),
    {
        match self {
            BackonError::Permanent(err) => err,
            BackonError::Transient(err) => err,
        }
    }

    /// The short description of the kind.
    pub fn description(&self) -> (r: &'static str)
        ensures
            r@ == (if *self is Permanent { "permanent error"@ } else { "transient error"@ }),
    {
        match self {
            BackonError::Permanent(_) => "permanent error",
            BackonError::Transient(_) => "transient error",
        }
    }
}

/// How a failed rename is retried: a permission error (a file that another
/// program holds for a moment) is transient, every other error permanent.
pub fn classify_rename_error<E>(err: E, permission_denied: bool) -> (r: BackonError<E>)
    ensures
        r == (if permission_denied { BackonError::Transient(err) } else { BackonError::Permanent(err) }),
{
    if permission_denied {
        BackonError::transient(err)
    } else {
        BackonError::permanent(err)
    }
}

pub open spec fn tmp_prefix() -> Seq<char> {
    seq!['.', 't', 'm', 'p']
}

/// Whether a file name marks a temporary file or directory.
pub open spec fn is_temporary_name(name: Seq<char>) -> bool {
    name.len() >= 4 && name.take(4) == tmp_prefix()
}

/// Whether the last component of `path` starts with `.tmp`.
pub fn is_temporary(path: &str) -> (b: bool)
    ensures
        b == (match crate::text::path_file_name_of(path@) {
            Some(name) => is_temporary_name(name),
            None => false,
        }),
{
    match path_file_name(path) {
        Some(name) => {
            let c = chars_of(name.as_str());
            let r = c.len() >= 4 && c[0] == '.' && c[1] == 't' && c[2] == 'm' && c[3] == 'p';
            proof {
                if c.len() >= 4 {
                    if r {
                        assert(c@.take(4) =~= tmp_prefix());
                    } else {
                        assert(c@.take(4)[0] == c@[0] && c@.take(4)[1] == c@[1] && c@.take(4)[2]
                            == c@[2] && c@.take(4)[3] == c@[3]);
                    }
                }
            }
            r
        },
        None => false,
    }
}

/// The kind of a directory entry, as its file type (not followed through a
/// symlink) tells it.
#[derive(PartialEq, Eq, Structural, Clone, Copy)]
pub enum EntryKind {
    Directory,
    File,
    Symlink,
    Other,
}

/// A directory entry that was read: its path and its kind, `None` where the
/// file type could not be read.
pub struct DirEntryInfo {
    pub path: String,
    pub kind: Option<EntryKind>,
}

/// The paths of the entries of the given kind, in the order of the listing.
pub open spec fn paths_of_kind(entries: Seq<DirEntryInfo>, kind: EntryKind) -> Seq<Seq<char>>
    decreases entries.len(),
{
    if entries.len() == 0 {
        Seq::empty()
    } else {
        let rest = paths_of_kind(entries.drop_last(), kind);
        if entries.last().kind == Some(kind) {
            rest.push(entries.last().path@)
        } else {
            rest
        }
    }
}

fn select_kind(entries: &Vec<DirEntryInfo>, kind: EntryKind) -> (r: Vec<String>)
    ensures
        r@.map_values(|p: String| p@) == paths_of_kind(entries@, kind),
{
    let mut r: Vec<String> = Vec::new();
    let mut i: usize = 0;
    while i < entries.len()
        invariant
            i <= entries@.len(),
            r@.map_values(|p: String| p@) == paths_of_kind(entries@.take(i as int), kind),
        decreases entries@.len() - i,
    {
        let e = &entries[i];
        assert(entries@.take(i + 1).drop_last() =~= entries@.take(i as int));
        let wanted = match e.kind {
            Some(k) => k == kind,
            None => false,
        };
        if wanted {
            let p = e.path.clone();
            r.push(p);
        }
        i = i + 1;
        assert(r@.map_values(|p: String| p@) =~= paths_of_kind(entries@.take(i as int), kind));
    }
    assert(entries@.take(entries@.len() as int) =~= entries@);
    r
}

/// The subdirectories of a listed directory (an empty listing where the
/// directory does not exist).
pub fn directories(entries: &Vec<DirEntryInfo>) -> (r: Vec<String>)
    ensures
        r@.map_values(|p: String| p@) == paths_of_kind(entries@, EntryKind::Directory),
        distinct_paths(entries@) ==> forall|a: int, b: int|
            0 <= a < b < r@.len() ==> r@[a]@ != r@[b]@,
{
    let r = select_kind(entries, EntryKind::Directory);
    proof {
        if distinct_paths(entries@) {
            lemma_selected_once(entries@, EntryKind::Directory);
            assert forall|a: int, b: int| 0 <= a < b < r@.len() implies r@[a]@ != r@[b]@ by {
                assert(r@.map_values(|p: String| p@)[a] == r@[a]@);
                assert(r@.map_values(|p: String| p@)[b] == r@[b]@);
            }
        }
    }
    r
}

/// The symlinks of a listed directory.
pub fn symlinks(entries: &Vec<DirEntryInfo>) -> (r: Vec<String>)
    ensures
        r@.map_values(|p: String| p@) == paths_of_kind(entries@, EntryKind::Symlink),
        distinct_paths(entries@) ==> forall|a: int, b: int|
            0 <= a < b < r@.len() ==> r@[a]@ != r@[b]@,
{
    let r = select_kind(entries, EntryKind::Symlink);
    proof {
        if distinct_paths(entries@) {
            lemma_selected_once(entries@, EntryKind::Symlink);
            assert forall|a: int, b: int| 0 <= a < b < r@.len() implies r@[a]@ != r@[b]@ by {
                assert(r@.map_values(|p: String| p@)[a] == r@[a]@);
                assert(r@.map_values(|p: String| p@)[b] == r@[b]@);
            }
        }
    }
    r
}

/// The regular files of a listed directory.
pub fn files(entries: &Vec<DirEntryInfo>) -> (r: Vec<String>)
    ensures
        r@.map_values(|p: String| p@) == paths_of_kind(entries@, EntryKind::File),
        distinct_paths(entries@) ==> forall|a: int, b: int|
            0 <= a < b < r@.len() ==> r@[a]@ != r@[b]@,
{
    let r = select_kind(entries, EntryKind::File);
    proof {
        if distinct_paths(entries@) {
            lemma_selected_once(entries@, EntryKind::File);
            assert forall|a: int, b: int| 0 <= a < b < r@.len() implies r@[a]@ != r@[b]@ by {
                assert(r@.map_values(|p: String| p@)[a] == r@[a]@);
                assert(r@.map_values(|p: String| p@)[b] == r@[b]@);
            }
        }
    }
    r
}

/// A reader that reports, through its callback, how many bytes each read
/// gave.
pub struct ProgressReader<Reader, Callback> {
    pub reader: Reader,
    pub callback: Callback,
}

impl<Reader, Callback> ProgressReader<Reader, Callback> {
    pub fn new(reader: Reader, callback: Callback) -> (r: Self)
        ensures
            r.reader == reader,
            r.callback == callback,
    {
        ProgressReader { reader, callback }
    }
}

/// No two entries of the listing share a path (as a directory read gives it).
pub open spec fn distinct_paths(entries: Seq<DirEntryInfo>) -> bool {
    forall|i: int, j: int| 0 <= i < entries.len() && 0 <= j < entries.len() && i != j ==> (
    #[trigger] entries[i]).path@ != (#[trigger] entries[j]).path@
}

proof fn lemma_selected_from_listing(entries: Seq<DirEntryInfo>, kind: EntryKind, p: Seq<char>)
    ensures
        paths_of_kind(entries, kind).contains(p) ==> exists|i: int|
            0 <= i < entries.len() && (#[trigger] entries[i]).path@ == p && entries[i].kind == Some(kind),
    decreases entries.len(),
{
    if entries.len() > 0 {
        let rest = entries.drop_last();
        lemma_selected_from_listing(rest, kind, p);
        let r = paths_of_kind(rest, kind);
        if paths_of_kind(entries, kind).contains(p) {
            if r.contains(p) {
                let i = choose|i: int| 0 <= i < rest.len() && (#[trigger] rest[i]).path@ == p && rest[i].kind == Some(kind);
                assert(entries[i] == rest[i]);
            } else {
                let i = entries.len() - 1;
                assert(entries[i].path@ == p && entries[i].kind == Some(kind));
            }
        }
    }
}

proof fn lemma_selected_once(entries: Seq<DirEntryInfo>, kind: EntryKind)
    requires
        distinct_paths(entries),
    ensures
        forall|a: int, b: int| 0 <= a < b < paths_of_kind(entries, kind).len() ==> paths_of_kind(entries, kind)[a]
            != paths_of_kind(entries, kind)[b],
    decreases entries.len(),
{
    if entries.len() > 0 {
        let rest = entries.drop_last();
        assert(distinct_paths(rest)) by {
            assert forall|i: int, j: int| 0 <= i < rest.len() && 0 <= j < rest.len() && i != j implies (
            #[trigger] rest[i]).path@ != (#[trigger] rest[j]).path@ by {
                assert(rest[i] == entries[i] && rest[j] == entries[j]);
            }
        }
        lemma_selected_once(rest, kind);
        let r = paths_of_kind(rest, kind);
        let last = entries.last();
        if last.kind == Some(kind) {
            assert forall|a: int| 0 <= a < r.len() implies r[a] != last.path@ by {
                lemma_selected_from_listing(rest, kind, r[a]);
                assert(r.contains(r[a]));
                let i = choose|i: int| 0 <= i < rest.len() && (#[trigger] rest[i]).path@ == r[a] && rest[i].kind == Some(kind);
                assert(rest[i] == entries[i]);
                assert(entries[i].path@ != entries[entries.len() - 1].path@);
            }
        }
    }
}

/// Each selected path comes from one entry of its kind, each path is
/// selected once, and where no two entries share a path no path is selected
/// for two kinds: `directories`, `files` and `symlinks` never share a path.
pub proof fn law_kinds_share_no_path(entries: Seq<DirEntryInfo>, k1: EntryKind, k2: EntryKind, p: Seq<char>)
    requires
        distinct_paths(entries),
    ensures
        paths_of_kind(entries, k1).contains(p) ==> exists|i: int|
            0 <= i < entries.len() && (#[trigger] entries[i]).path@ == p && entries[i].kind == Some(k1),
        forall|a: int, b: int| 0 <= a < b < paths_of_kind(entries, k1).len() ==> paths_of_kind(entries, k1)[a]
            != paths_of_kind(entries, k1)[b],
        k1 != k2 ==> !(paths_of_kind(entries, k1).contains(p) && paths_of_kind(entries, k2).contains(p)),
{
    lemma_selected_from_listing(entries, k1, p);
    lemma_selected_from_listing(entries, k2, p);
    lemma_selected_once(entries, k1);
    if k1 != k2 && paths_of_kind(entries, k1).contains(p) && paths_of_kind(entries, k2).contains(p) {
        let i = choose|i: int| 0 <= i < entries.len() && (#[trigger] entries[i]).path@ == p && entries[i].kind == Some(k1);
        let j = choose|j: int| 0 <= j < entries.len() && (#[trigger] entries[j]).path@ == p && entries[j].kind == Some(k2);
        assert(i != j);
    }
}

} // verus!
