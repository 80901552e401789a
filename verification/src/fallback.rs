//! Watching without inotify: every directory on the way to the file, both as
//! the path is written and as it resolves, is watched by whatever the
//! platform offers, and any change in one of them counts.

use crate::path::{ancestors_of, leads_to, views, NormalPath};
use vstd::prelude::*;

verus! {

/// What kind of change a platform event reports.
#[derive(Debug, Clone, Copy, PartialEq, Eq, Structural)]
pub enum ChangeKind {
    /// A file opened for writing was closed.
    CloseWrite,
    /// Something was modified, renamed or had its metadata changed.
    Modify,
    /// Something was removed.
    Remove,
    /// Anything else.
    Other,
}

/// Whether a change of this kind can alter what the file holds.
pub open spec fn counts(kind: ChangeKind) -> bool {
    kind != ChangeKind::Other
}

/// The paths to watch, none of them recursively: the file as written and
/// every directory above it, then the file as it resolves and every directory
/// above that.
pub open spec fn watch_list(file: Seq<Seq<u8>>, resolved: Seq<Seq<u8>>) -> Seq<Seq<Seq<u8>>> {
    ancestors_of(file) + ancestors_of(resolved)
}

/// Whether an event of `kind` about `paths` is a reason to read the file
/// again: the kind counts, and one of the paths is one of those watched.
pub open spec fn relevant(
    kind: ChangeKind,
    paths: Seq<Seq<Seq<u8>>>,
    file: Seq<Seq<u8>>,
    resolved: Seq<Seq<u8>>,
) -> bool {
    counts(kind) && exists|i: int|
        0 <= i < paths.len() && (leads_to(#[trigger] paths[i], file) || leads_to(paths[i], resolved))
}

/// Every watched path leads to the file as written or as it resolves, and every
/// path that does is watched.
pub proof fn lemma_watch_list(file: Seq<Seq<u8>>, resolved: Seq<Seq<u8>>, path: Seq<Seq<u8>>)
    ensures
        watch_list(file, resolved).contains(path) <==> leads_to(path, file) || leads_to(path, resolved),
{
    let list = watch_list(file, resolved);
    if list.contains(path) {
        let i = choose|i: int| 0 <= i < list.len() && list[i] == path;
        if i < ancestors_of(file).len() {
            assert(path == file.take(file.len() - i));
            assert(file.take(path.len() as int) =~= path);
        } else {
            let j = i - ancestors_of(file).len();
            assert(path == resolved.take(resolved.len() - j));
            assert(resolved.take(path.len() as int) =~= path);
        }
    }
    if leads_to(path, file) {
        let i = file.len() - path.len();
        assert(ancestors_of(file)[i] == path);
        assert(list[i] == path);
    }
    if leads_to(path, resolved) {
        let j = resolved.len() - path.len();
        assert(ancestors_of(resolved)[j] == path);
        assert(list[ancestors_of(file).len() + j] == path);
    }
}

/// The paths to watch for `file`, which resolves to `resolved`.
pub fn paths_to_watch(file: &NormalPath, resolved: &NormalPath) -> (r: Vec<NormalPath>)
    ensures
        views(r@) == watch_list(file@, resolved@),
{
    let mut list = file.ancestors();
    let mut more = resolved.ancestors();
    let ghost head = views(list@);
    let ghost tail = views(more@);
    let n = more.len();
    let mut i: usize = 0;
    while i < n
        invariant
            i <= n,
            n == more.len(),
            tail.len() == n,
            views(list@) == head + tail.take(i as int),
            forall|k: int| i <= k < n ==> (#[trigger] more@[k])@ == tail[k],
        decreases n - i,
    {
        let mut path = NormalPath::root();
        assert(more@[i as int]@ == tail[i as int]);
        core::mem::swap(&mut path, &mut more[i]);
        let ghost before = list@;
        list.push(path);
        assert(views(list@) =~= views(before).push(path@));
        assert(tail.take(i + 1) =~= tail.take(i as int).push(tail[i as int]));
        assert(views(list@) =~= head + tail.take(i + 1));
        i += 1;
    }
    assert(tail.take(n as int) =~= tail);
    list
}

/// Whether an event of `kind` about `paths` is a reason to read the file
/// again and to watch anew.
pub fn is_relevant(
    kind: ChangeKind,
    paths: &Vec<NormalPath>,
    file: &NormalPath,
    resolved: &NormalPath,
) -> (r: bool)
    ensures
        r == relevant(kind, views(paths@), file@, resolved@),
{
    match kind {
        ChangeKind::Other => {
            return false;
        },
        _ => {},
    }
    let mut i: usize = 0;
    while i < paths.len()
        invariant
            i <= paths.len(),
            counts(kind),
            forall|k: int|
                0 <= k < i ==> !(leads_to(#[trigger] views(paths@)[k], file@) || leads_to(
                    views(paths@)[k],
                    resolved@,
                )),
        decreases paths.len() - i,
    {
        if paths[i].leads_to(file) || paths[i].leads_to(resolved) {
            assert(leads_to(views(paths@)[i as int], file@) || leads_to(
                views(paths@)[i as int],
                resolved@,
            ));
            return true;
        }
        i += 1;
    }
    false
}

} // verus!
