//! The collection tree of the sidebar: reading a node by its path, and the
//! edits that the sidebar's actions make (new collection, folder or
//! request, delete, rename, select, load from history).
use vstd::prelude::*;

use crate::models::{Collection, Folder, Request, blank_request, copy_request};
use crate::text::{chars_of, owned, push_range, push_str, trim, trim_exec};
use crate::vars::{nat_text, push_nat};

verus! {

/// A text cut to `max` characters, marked with `...` when cut.
pub open spec fn truncated(s: Seq<char>, max: nat) -> Seq<char> {
    if s.len() > max {
        s.take(max as int) + "..."@
    } else {
        s
    }
}

pub fn truncate(s: &str, max: usize) -> (r: String)
    ensures
        r@ == truncated(s@, max as nat),
{
    let v = chars_of(s);
    if v.len() > max {
        let mut r = String::new();
        push_range(&mut r, v.as_slice(), 0, max);
        push_str(&mut r, "...");
        assert(v@.subrange(0, max as int) == v@.take(max as int));
        r
    } else {
        owned(s)
    }
}

/// A node of the collection tree: collection `col`, then down the folders
/// by position; `req` names a request of that container.
#[derive(Clone, PartialEq, Debug)]
pub struct TreePath {
    pub col: usize,
    pub folders: Vec<usize>,
    pub req: Option<usize>,
}

/// The folder reached from `fs` down the positions of `path`.
pub open spec fn folder_at(fs: Seq<Folder>, path: Seq<usize>) -> Option<Folder>
    decreases path.len(),
{
    if path.len() == 0 || path[0] >= fs.len() {
        None
    } else if path.len() == 1 {
        Some(fs[path[0] as int])
    } else {
        folder_at(fs[path[0] as int].folders@, path.drop_first())
    }
}

pub open spec fn deref_folder(r: Option<&Folder>) -> Option<Folder> {
    match r {
        Some(f) => Some(*f),
        None => None,
    }
}

pub fn folder_ref<'a>(folders: &'a [Folder], path: &[usize]) -> (r: Option<&'a Folder>)
    ensures
        deref_folder(r) == folder_at(folders@, path@),
    decreases path@.len(),
{
    if path.len() == 0 || path[0] >= folders.len() {
        return None;
    }
    let f = &folders[path[0]];
    if path.len() == 1 {
        return Some(f);
    }
    let rest = vstd::slice::slice_subrange(path, 1, path.len());
    assert(rest@ == path@.drop_first());
    folder_ref(f.folders.as_slice(), rest)
}

/// The folders and requests of the container a path names: the
/// collection's own for an empty path, else the folder's.
pub open spec fn container_at(c: Collection, path: Seq<usize>) -> Option<(Seq<Folder>, Seq<Request>)> {
    if path.len() == 0 {
        Some((c.folders@, c.requests@))
    } else {
        match folder_at(c.folders@, path) {
            Some(f) => Some((f.folders@, f.requests@)),
            None => None,
        }
    }
}

/// The request a path names.
pub open spec fn request_at_spec(cols: Seq<Collection>, p: TreePath) -> Option<Request> {
    match p.req {
        None => None,
        Some(ri) => if p.col >= cols.len() {
            None
        } else {
            match container_at(cols[p.col as int], p.folders@) {
                Some((_, rs)) => if ri < rs.len() {
                    Some(rs[ri as int])
                } else {
                    None
                },
                None => None,
            }
        },
    }
}

/// The name of the node a path names: a request, a folder or a collection.
pub open spec fn name_at_spec(cols: Seq<Collection>, p: TreePath) -> Option<Seq<char>> {
    if p.col >= cols.len() {
        None
    } else if p.req is Some {
        match request_at_spec(cols, p) {
            Some(r) => Some(r.name@),
            None => None,
        }
    } else if p.folders@.len() == 0 {
        Some(cols[p.col as int].name@)
    } else {
        match folder_at(cols[p.col as int].folders@, p.folders@) {
            Some(f) => Some(f.name@),
            None => None,
        }
    }
}

pub fn request_at<'a>(collections: &'a [Collection], p: &TreePath) -> (r: Option<&'a Request>)
    ensures
        match r {
            Some(q) => request_at_spec(collections@, *p) == Some(*q),
            None => request_at_spec(collections@, *p) is None,
        },
{
    let ri = match p.req {
        Some(ri) => ri,
        None => return None,
    };
    if p.col >= collections.len() {
        return None;
    }
    let col = &collections[p.col];
    let reqs = if p.folders.len() == 0 {
        &col.requests
    } else {
        match folder_ref(col.folders.as_slice(), p.folders.as_slice()) {
            Some(f) => &f.requests,
            None => return None,
        }
    };
    if ri < reqs.len() {
        Some(&reqs[ri])
    } else {
        None
    }
}

pub fn name_at(collections: &[Collection], p: &TreePath) -> (r: Option<String>)
    ensures
        match r {
            Some(n) => name_at_spec(collections@, *p) == Some(n@),
            None => name_at_spec(collections@, *p) is None,
        },
{
    if p.col >= collections.len() {
        return None;
    }
    if p.req.is_some() {
        return match request_at(collections, p) {
            Some(r) => Some(r.name.clone()),
            None => None,
        };
    }
    let col = &collections[p.col];
    if p.folders.len() == 0 {
        Some(col.name.clone())
    } else {
        match folder_ref(col.folders.as_slice(), p.folders.as_slice()) {
            Some(f) => Some(f.name.clone()),
            None => None,
        }
    }
}

/// An edit of a container's folders and requests.
pub enum Edit {
    AddFolder,
    AddRequest,
    RemoveFolder(usize),
    RemoveRequest(usize),
    RenameFolder(usize, String),
    RenameRequest(usize, String),
}

/// Whether an edit changes a container with `nf` folders and `nr` requests.
pub open spec fn edit_applies(e: Edit, nf: nat, nr: nat) -> bool {
    match e {
        Edit::AddFolder => true,
        Edit::AddRequest => true,
        Edit::RemoveFolder(j) => j < nf,
        Edit::RemoveRequest(j) => j < nr,
        Edit::RenameFolder(j, _) => j < nf,
        Edit::RenameRequest(j, _) => j < nr,
    }
}

/// `n` is `o` renamed to `name`.
pub open spec fn folder_renamed(o: Folder, n: Folder, name: Seq<char>) -> bool {
    &&& n.id == o.id
    &&& n.name@ == name
    &&& n.folders@ == o.folders@
    &&& n.requests@ == o.requests@
}

/// The container `(nfs, nrs)` is `(ofs, ors)` after the edit: a new empty
/// folder "New Folder" or a new blank request "New Request" at the end, a
/// folder or request removed or renamed; an edit out of range changes
/// nothing.
pub open spec fn container_edited(
    ofs: Seq<Folder>,
    ors: Seq<Request>,
    nfs: Seq<Folder>,
    nrs: Seq<Request>,
    e: Edit,
) -> bool {
    match e {
        Edit::AddFolder => {
            &&& nrs == ors
            &&& nfs.len() == ofs.len() + 1
            &&& nfs.take(ofs.len() as int) == ofs
            &&& nfs.last().name@ == "New Folder"@
            &&& nfs.last().folders@.len() == 0
            &&& nfs.last().requests@.len() == 0
        },
        Edit::AddRequest => {
            &&& nfs == ofs
            &&& nrs.len() == ors.len() + 1
            &&& nrs.take(ors.len() as int) == ors
            &&& nrs.last()@ == blank_request("New Request"@)
        },
        Edit::RemoveFolder(j) => nrs == ors && nfs == if j < ofs.len() {
            ofs.remove(j as int)
        } else {
            ofs
        },
        Edit::RemoveRequest(j) => nfs == ofs && nrs == if j < ors.len() {
            ors.remove(j as int)
        } else {
            ors
        },
        Edit::RenameFolder(j, name) => {
            &&& nrs == ors
            &&& nfs.len() == ofs.len()
            &&& forall|k: int| 0 <= k < ofs.len() && k != j ==> nfs[k] == ofs[k]
            &&& j < ofs.len() ==> folder_renamed(ofs[j as int], nfs[j as int], name@)
        },
        Edit::RenameRequest(j, name) => {
            &&& nfs == ofs
            &&& nrs.len() == ors.len()
            &&& forall|k: int| 0 <= k < ors.len() && k != j ==> nrs[k] == ors[k]
            &&& j < ors.len() ==> nrs[j as int].id == ors[j as int].id && nrs[j as int]@
                == (crate::models::RequestV { name: name@, ..ors[j as int]@ })
        },
    }
}

/// Applies an edit to a container; true when it changed something.
fn edit_container(fs: &mut Vec<Folder>, rs: &mut Vec<Request>, e: &Edit) -> (changed: bool)
    ensures
        container_edited(old(fs)@, old(rs)@, final(fs)@, final(rs)@, *e),
        changed == edit_applies(*e, old(fs)@.len(), old(rs)@.len()),
{
    match e {
        Edit::AddFolder => {
            fs.push(Folder::new("New Folder"));
            assert(fs@.take(old(fs)@.len() as int) == old(fs)@);
            true
        },
        Edit::AddRequest => {
            rs.push(Request::new("New Request"));
            assert(rs@.take(old(rs)@.len() as int) == old(rs)@);
            true
        },
        Edit::RemoveFolder(j) => {
            if *j < fs.len() {
                fs.remove(*j);
                true
            } else {
                false
            }
        },
        Edit::RemoveRequest(j) => {
            if *j < rs.len() {
                rs.remove(*j);
                true
            } else {
                false
            }
        },
        Edit::RenameFolder(j, name) => {
            if *j < fs.len() {
                let mut f = fs.remove(*j);
                f.name = name.clone();
                fs.insert(*j, f);
                assert forall|k: int| 0 <= k < old(fs)@.len() && k != *j implies fs@[k]
                    == old(fs)@[k] by {
                    if k < *j {
                    } else {
                    }
                }
                true
            } else {
                false
            }
        },
        Edit::RenameRequest(j, name) => {
            if *j < rs.len() {
                let mut r = rs.remove(*j);
                r.name = name.clone();
                rs.insert(*j, r);
                assert forall|k: int| 0 <= k < old(rs)@.len() && k != *j implies rs@[k]
                    == old(rs)@[k] by {
                    if k < *j {
                    } else {
                    }
                }
                true
            } else {
                false
            }
        },
    }
}

/// The folders `nfs` are `ofs` with the edit applied to the container of
/// the folder at `path` (a non-empty path); every other folder is the same.
pub open spec fn tree_edited(ofs: Seq<Folder>, nfs: Seq<Folder>, path: Seq<usize>, e: Edit) -> bool
    decreases path.len(),
{
    if path.len() == 0 || path[0] >= ofs.len() {
        nfs == ofs
    } else {
        let i = path[0] as int;
        let o = ofs[i];
        let n = nfs[i];
        &&& nfs.len() == ofs.len()
        &&& forall|k: int| 0 <= k < ofs.len() && k != i ==> nfs[k] == ofs[k]
        &&& n.id == o.id
        &&& n.name@ == o.name@
        &&& if path.len() == 1 {
            container_edited(o.folders@, o.requests@, n.folders@, n.requests@, e)
        } else {
            n.requests@ == o.requests@ && tree_edited(o.folders@, n.folders@, path.drop_first(), e)
        }
    }
}

/// Whether the edit changes the container of the folder at `path`.
pub open spec fn tree_edit_applies(fs: Seq<Folder>, path: Seq<usize>, e: Edit) -> bool {
    match folder_at(fs, path) {
        Some(f) => edit_applies(e, f.folders@.len(), f.requests@.len()),
        None => false,
    }
}

/// Applies an edit to the container of the folder at `path`; true when it
/// changed something.
fn edit_tree(fs: &mut Vec<Folder>, path: &[usize], e: &Edit) -> (changed: bool)
    ensures
        tree_edited(old(fs)@, final(fs)@, path@, *e),
        changed == tree_edit_applies(old(fs)@, path@, *e),
    decreases path@.len(),
{
    if path.len() == 0 || path[0] >= fs.len() {
        return false;
    }
    let i = path[0];
    let mut f = fs.remove(i);
    let ghost of = f;
    let changed = if path.len() == 1 {
        edit_container(&mut f.folders, &mut f.requests, e)
    } else {
        let rest = vstd::slice::slice_subrange(path, 1, path.len());
        assert(rest@ == path@.drop_first());
        edit_tree(&mut f.folders, rest, e)
    };
    fs.insert(i, f);
    assert forall|k: int| 0 <= k < old(fs)@.len() && k != i implies fs@[k] == old(fs)@[k] by {
        if k < i {
        } else {
        }
    }
    changed
}

/// The collection `n` is `o` with the edit applied to the container at
/// `path` (the collection itself for an empty path).
pub open spec fn collection_edited(o: Collection, n: Collection, path: Seq<usize>, e: Edit) -> bool {
    &&& n.id == o.id
    &&& n.name@ == o.name@
    &&& if path.len() == 0 {
        container_edited(o.folders@, o.requests@, n.folders@, n.requests@, e)
    } else {
        n.requests@ == o.requests@ && tree_edited(o.folders@, n.folders@, path, e)
    }
}

/// Whether the edit changes the container at `path` of a collection.
pub open spec fn collection_edit_applies(c: Collection, path: Seq<usize>, e: Edit) -> bool {
    match container_at(c, path) {
        Some((fs, rs)) => edit_applies(e, fs.len(), rs.len()),
        None => false,
    }
}

/// The collections `ncs` are `ocs` with the edit applied to the container
/// at `path` of collection `col`; nothing changes for a missing collection.
pub open spec fn edited_at(
    ocs: Seq<Collection>,
    ncs: Seq<Collection>,
    col: usize,
    path: Seq<usize>,
    e: Edit,
) -> bool {
    if col >= ocs.len() {
        ncs == ocs
    } else {
        &&& ncs.len() == ocs.len()
        &&& forall|k: int| 0 <= k < ocs.len() && k != col ==> ncs[k] == ocs[k]
        &&& collection_edited(ocs[col as int], ncs[col as int], path, e)
    }
}

pub open spec fn edit_applies_at(ocs: Seq<Collection>, col: usize, path: Seq<usize>, e: Edit) -> bool {
    col < ocs.len() && collection_edit_applies(ocs[col as int], path, e)
}

/// Applies an edit to the container at `path` of collection `col`; true
/// when it changed something.
fn edit_at(cols: &mut Vec<Collection>, col: usize, path: &[usize], e: &Edit) -> (changed: bool)
    ensures
        edited_at(old(cols)@, final(cols)@, col, path@, *e),
        changed == edit_applies_at(old(cols)@, col, path@, *e),
{
    if col >= cols.len() {
        return false;
    }
    let mut c = cols.remove(col);
    let changed = if path.len() == 0 {
        edit_container(&mut c.folders, &mut c.requests, e)
    } else {
        edit_tree(&mut c.folders, path, e)
    };
    cols.insert(col, c);
    assert forall|k: int| 0 <= k < old(cols)@.len() && k != col implies cols@[k]
        == old(cols)@[k] by {
        if k < col {
        } else {
        }
    }
    changed
}

/// What the sidebar asks of the tree and of the editor.
pub enum Action {
    NewCollection,
    /// A new folder in the container the path names (`req` ignored).
    NewFolder(TreePath),
    NewRequest(TreePath),
    /// Deletes a request, a folder, or (no folders, no request) a
    /// collection.
    Delete(TreePath),
    StartRename(TreePath),
    CommitRename(TreePath, String),
    CancelRename,
    Select(TreePath),
    LoadHistory(usize),
}

/// The sidebar's state: the collections, the node being renamed and the
/// text of the rename box, and whether the collections changed since they
/// were last saved.
pub struct SidebarState {
    pub collections: Vec<Collection>,
    pub renaming: Option<TreePath>,
    pub rename_buf: String,
    pub dirty: bool,
}

/// The edit that deletes what a path names, with the container it applies
/// to; none for a collection.
pub open spec fn delete_edit(p: TreePath) -> Option<(Seq<usize>, Edit)> {
    match p.req {
        Some(ri) => Some((p.folders@, Edit::RemoveRequest(ri))),
        None => if p.folders@.len() > 0 {
            Some((p.folders@.drop_last(), Edit::RemoveFolder(p.folders@.last())))
        } else {
            None
        },
    }
}

/// A tree edit made by an action: the tree and `dirty` change as the edit
/// says; the rename state stays.
pub open spec fn edit_step(
    old: SidebarState,
    new: SidebarState,
    col: usize,
    path: Seq<usize>,
    e: Edit,
) -> bool {
    &&& edited_at(old.collections@, new.collections@, col, path, e)
    &&& new.dirty == (old.dirty || edit_applies_at(old.collections@, col, path, e))
    &&& new.renaming == old.renaming
    &&& new.rename_buf@ == old.rename_buf@
}

/// The collections and the rest of the state are unchanged.
pub open spec fn unchanged(old: SidebarState, new: SidebarState) -> bool {
    &&& new.collections@ == old.collections@
    &&& new.dirty == old.dirty
    &&& new.renaming == old.renaming
    &&& new.rename_buf@ == old.rename_buf@
}

/// `load` is a copy of `r`, when there is one.
pub open spec fn loads(load: Option<Request>, r: Option<Request>) -> bool {
    match (load, r) {
        (Some(l), Some(r)) => l@ == r@ && l.id == r.id,
        (None, None) => true,
        _ => false,
    }
}

/// What one action does: `new` is the state after it, `load` the request
/// it loads into the editor.
pub open spec fn step_ok(
    old: SidebarState,
    new: SidebarState,
    history: Seq<Request>,
    a: Action,
    load: Option<Request>,
) -> bool {
    match a {
        Action::NewCollection => {
            &&& load is None
            &&& new.collections@.len() == old.collections@.len() + 1
            &&& new.collections@.take(old.collections@.len() as int) == old.collections@
            &&& new.collections@.last().name@ == "Collection "@ + nat_text(
                old.collections@.len() + 1,
            )
            &&& new.collections@.last().folders@.len() == 0
            &&& new.collections@.last().requests@.len() == 0
            &&& new.dirty
            &&& new.renaming == old.renaming
            &&& new.rename_buf@ == old.rename_buf@
        },
        Action::NewFolder(p) => load is None && edit_step(old, new, p.col, p.folders@, Edit::AddFolder),
        Action::NewRequest(p) => load is None && edit_step(
            old,
            new,
            p.col,
            p.folders@,
            Edit::AddRequest,
        ),
        Action::Delete(p) => load is None && if p.col >= old.collections@.len() {
            unchanged(old, new)
        } else {
            match delete_edit(p) {
                Some((path, e)) => edit_step(old, new, p.col, path, e),
                None => {
                    &&& new.collections@ == old.collections@.remove(p.col as int)
                    &&& new.dirty
                    &&& new.renaming == old.renaming
                    &&& new.rename_buf@ == old.rename_buf@
                },
            }
        },
        Action::StartRename(p) => {
            &&& load is None
            &&& new.collections@ == old.collections@
            &&& new.dirty == old.dirty
            &&& new.renaming == Some(p)
            &&& new.rename_buf@ == match name_at_spec(old.collections@, p) {
                Some(n) => n,
                None => Seq::<char>::empty(),
            }
        },
        Action::CommitRename(p, name) => {
            let n = trim(name@);
            &&& load is None
            &&& new.renaming is None
            &&& new.rename_buf@ == old.rename_buf@
            &&& if n.len() == 0 || p.col >= old.collections@.len() {
                new.collections@ == old.collections@ && new.dirty == old.dirty
            } else {
                renamed_at(old, new, p, n)
            }
        },
        Action::CancelRename => {
            &&& load is None
            &&& new.collections@ == old.collections@
            &&& new.dirty == old.dirty
            &&& new.renaming is None
            &&& new.rename_buf@ == old.rename_buf@
        },
        Action::Select(p) => unchanged(old, new) && loads(load, request_at_spec(old.collections@, p)),
        Action::LoadHistory(i) => unchanged(old, new) && loads(
            load,
            if i < history.len() {
                Some(history[i as int])
            } else {
                None
            },
        ),
    }
}

/// The node at `p` renamed to `n`: a request or a folder by an edit of its
/// container, a collection directly.
pub open spec fn renamed_at(old: SidebarState, new: SidebarState, p: TreePath, n: Seq<char>) -> bool {
    match p.req {
        Some(ri) => rename_edit_ok(old, new, p.col, p.folders@, ri, n, true),
        None => if p.folders@.len() > 0 {
            rename_edit_ok(old, new, p.col, p.folders@.drop_last(), p.folders@.last(), n, false)
        } else {
            let i = p.col as int;
            &&& new.collections@.len() == old.collections@.len()
            &&& forall|k: int| 0 <= k < old.collections@.len() && k != i ==> new.collections@[k]
                == old.collections@[k]
            &&& new.collections@[i].id == old.collections@[i].id
            &&& new.collections@[i].name@ == n
            &&& new.collections@[i].folders@ == old.collections@[i].folders@
            &&& new.collections@[i].requests@ == old.collections@[i].requests@
            &&& new.dirty
        },
    }
}

/// A rename of request (or folder) `j` of the container at `path`: the
/// edit's effect, with the new name `n`.
pub open spec fn rename_edit_ok(
    old: SidebarState,
    new: SidebarState,
    col: usize,
    path: Seq<usize>,
    j: usize,
    n: Seq<char>,
    request: bool,
) -> bool {
    exists|s: String|
        #![trigger s@]
        s@ == n && {
            let e = if request {
                Edit::RenameRequest(j, s)
            } else {
                Edit::RenameFolder(j, s)
            };
            &&& edited_at(old.collections@, new.collections@, col, path, e)
            &&& new.dirty == (old.dirty || edit_applies_at(old.collections@, col, path, e))
        }
}


/// The folder at `q` then `j`: folder `j` of the container at `q` (the
/// top level for an empty `q`).
proof fn lemma_folder_at_push(fs: Seq<Folder>, q: Seq<usize>, j: usize)
    ensures
        folder_at(fs, q.push(j)) == (if q.len() == 0 {
            if j < fs.len() {
                Some(fs[j as int])
            } else {
                None
            }
        } else {
            match folder_at(fs, q) {
                Some(f) => if j < f.folders@.len() {
                    Some(f.folders@[j as int])
                } else {
                    None
                },
                None => None,
            }
        }),
    decreases q.len(),
{
    let qj = q.push(j);
    assert(qj.len() == q.len() + 1 && qj[q.len() as int] == j);
    if q.len() > 0 {
        assert(qj[0] == q[0]);
        if q[0] < fs.len() {
            let inner = fs[q[0] as int].folders@;
            if q.len() == 1 {
                assert(qj.drop_first() =~= seq![j]);
                assert(folder_at(inner, seq![j]) == if j < inner.len() {
                    Some(inner[j as int])
                } else {
                    None::<Folder>
                });
            } else {
                assert(qj.drop_first() =~= q.drop_first().push(j));
                lemma_folder_at_push(inner, q.drop_first(), j);
            }
        }
    }
}

/// After an edit of the container of the folder at `path`, that folder is
/// still there, with the edit applied to its container.
proof fn lemma_tree_edited_folder(ofs: Seq<Folder>, nfs: Seq<Folder>, path: Seq<usize>, e: Edit)
    requires
        tree_edited(ofs, nfs, path, e),
        folder_at(ofs, path) is Some,
    ensures
        folder_at(nfs, path) matches Some(nf) && container_edited(
            folder_at(ofs, path)->0.folders@,
            folder_at(ofs, path)->0.requests@,
            nf.folders@,
            nf.requests@,
            e,
        ),
    decreases path.len(),
{
    let i = path[0] as int;
    if path.len() > 1 {
        lemma_tree_edited_folder(ofs[i].folders@, nfs[i].folders@, path.drop_first(), e);
    }
}

/// After an edit of the container at `path` of a collection, the
/// container is still there, with the edit applied.
proof fn lemma_collection_edited_container(o: Collection, n: Collection, path: Seq<usize>, e: Edit)
    requires
        collection_edited(o, n, path, e),
        container_at(o, path) is Some,
    ensures
        ({
            let (ofs, ors) = container_at(o, path)->0;
            container_at(n, path) matches Some((nfs, nrs)) && container_edited(
                ofs,
                ors,
                nfs,
                nrs,
                e,
            )
        }),
{
    if path.len() > 0 {
        lemma_tree_edited_folder(o.folders@, n.folders@, path, e);
    }
}

/// The container at `q` read as the parent of the folder at `q` then `j`.
proof fn lemma_container_child(c: Collection, q: Seq<usize>, j: usize)
    ensures
        folder_at(c.folders@, q.push(j)) == match container_at(c, q) {
            Some((fs, _)) => if j < fs.len() {
                Some(fs[j as int])
            } else {
                None
            },
            None => None,
        },
{
    lemma_folder_at_push(c.folders@, q, j);
}

/// Renaming a node that exists to a name that is not blank, then reading
/// the node's name, gives the name without its surrounding whitespace.
pub proof fn law_rename_reads_back(
    old: SidebarState,
    new: SidebarState,
    history: Seq<Request>,
    p: TreePath,
    name: String,
    load: Option<Request>,
)
    requires
        step_ok(old, new, history, Action::CommitRename(p, name), load),
        trim(name@).len() > 0,
        name_at_spec(old.collections@, p) is Some,
    ensures
        name_at_spec(new.collections@, p) == Some(trim(name@)),
{
    let n = trim(name@);
    let col = p.col as int;
    match p.req {
        Some(ri) => {
            let s = choose|s: String|
                #![trigger s@]
                s@ == n && {
                    let e = Edit::RenameRequest(ri, s);
                    &&& edited_at(old.collections@, new.collections@, p.col, p.folders@, e)
                    &&& new.dirty == (old.dirty || edit_applies_at(
                        old.collections@,
                        p.col,
                        p.folders@,
                        e,
                    ))
                };
            lemma_collection_edited_container(
                old.collections@[col],
                new.collections@[col],
                p.folders@,
                Edit::RenameRequest(ri, s),
            );
        },
        None => {
            if p.folders@.len() > 0 {
                let q = p.folders@.drop_last();
                let j = p.folders@.last();
                assert(q.push(j) =~= p.folders@);
                let s = choose|s: String|
                    #![trigger s@]
                    s@ == n && {
                        let e = Edit::RenameFolder(j, s);
                        &&& edited_at(old.collections@, new.collections@, p.col, q, e)
                        &&& new.dirty == (old.dirty || edit_applies_at(
                            old.collections@,
                            p.col,
                            q,
                            e,
                        ))
                    };
                lemma_container_child(old.collections@[col], q, j);
                lemma_container_child(new.collections@[col], q, j);
                lemma_collection_edited_container(
                    old.collections@[col],
                    new.collections@[col],
                    q,
                    Edit::RenameFolder(j, s),
                );
            }
        },
    }
}

/// Deleting a folder removes it from the container it is in: when `p`
/// names an existing folder `j` of the container at `q` (its path being
/// `q` then `j`), afterwards that container's folders are the old ones
/// without the `j`-th, its requests are unchanged, and the collections are
/// marked changed.  Deleting a request likewise removes it from its
/// container.
pub proof fn law_delete_removes_from_parent(
    old: SidebarState,
    new: SidebarState,
    history: Seq<Request>,
    p: TreePath,
    load: Option<Request>,
)
    requires
        step_ok(old, new, history, Action::Delete(p), load),
        p.col < old.collections@.len(),
        p.req is None ==> p.folders@.len() > 0,
    ensures
        ({
            let col = p.col as int;
            match p.req {
                None => {
                    let q = p.folders@.drop_last();
                    let j = p.folders@.last() as int;
                    container_at(old.collections@[col], q) matches Some((fs, rs)) ==> (j < fs.len()
                        ==> container_at(new.collections@[col], q) == Some((fs.remove(j), rs))
                        && new.dirty)
                },
                Some(ri) => container_at(old.collections@[col], p.folders@) matches Some((fs, rs))
                    ==> (ri < rs.len() ==> container_at(new.collections@[col], p.folders@) == Some(
                    (fs, rs.remove(ri as int)),
                ) && new.dirty),
            }
        }),
{
    let col = p.col as int;
    match p.req {
        None => {
            let q = p.folders@.drop_last();
            let j = p.folders@.last();
            if let Some((fs, rs)) = container_at(old.collections@[col], q) {
                lemma_collection_edited_container(
                    old.collections@[col],
                    new.collections@[col],
                    q,
                    Edit::RemoveFolder(j),
                );
            }
        },
        Some(ri) => {
            if let Some((fs, rs)) = container_at(old.collections@[col], p.folders@) {
                lemma_collection_edited_container(
                    old.collections@[col],
                    new.collections@[col],
                    p.folders@,
                    Edit::RemoveRequest(ri),
                );
            }
        },
    }
}

/// The parent path and last position of a non-empty folder path.
fn split_last(path: &[usize]) -> (r: (&[usize], usize))
    requires
        path@.len() > 0,
    ensures
        r.0@ == path@.drop_last(),
        r.1 == path@.last(),
{
    let n = path.len();
    (vstd::slice::slice_subrange(path, 0, n - 1), path[n - 1])
}

/// Applies one action of the sidebar; returns the request to load into the
/// editor, if the action loads one.
pub fn apply_action(state: &mut SidebarState, history: &[Request], action: Action) -> (load: Option<
    Request,
>)
    ensures
        step_ok(*old(state), *final(state), history@, action, load),
{
    match action {
        Action::NewCollection => {
            let mut name = owned("Collection ");
            let n = state.collections.len();
            push_nat(&mut name, (n as u128) + 1);
            state.collections.push(Collection::new(name.as_str()));
            assert(state.collections@.take(n as int) == old(state).collections@);
            state.dirty = true;
            None
        },
        Action::NewFolder(p) => {
            if edit_at(&mut state.collections, p.col, p.folders.as_slice(), &Edit::AddFolder) {
                state.dirty = true;
            }
            None
        },
        Action::NewRequest(p) => {
            if edit_at(&mut state.collections, p.col, p.folders.as_slice(), &Edit::AddRequest) {
                state.dirty = true;
            }
            None
        },
        Action::Delete(p) => {
            if p.col >= state.collections.len() {
                return None;
            }
            match p.req {
                Some(ri) => {
                    if edit_at(
                        &mut state.collections,
                        p.col,
                        p.folders.as_slice(),
                        &Edit::RemoveRequest(ri),
                    ) {
                        state.dirty = true;
                    }
                },
                None => {
                    if p.folders.len() > 0 {
                        let (parent, last) = split_last(p.folders.as_slice());
                        if edit_at(&mut state.collections, p.col, parent, &Edit::RemoveFolder(last)) {
                            state.dirty = true;
                        }
                    } else {
                        state.collections.remove(p.col);
                        state.dirty = true;
                    }
                },
            }
            None
        },
        Action::StartRename(p) => {
            state.rename_buf = match name_at(state.collections.as_slice(), &p) {
                Some(n) => n,
                None => String::new(),
            };
            state.renaming = Some(p);
            None
        },
        Action::CommitRename(p, name) => {
            let n = trim_exec(name.as_str());
            if !n.as_str().is_empty() && p.col < state.collections.len() {
                match p.req {
                    Some(ri) => {
                        let e = Edit::RenameRequest(ri, n);
                        if edit_at(&mut state.collections, p.col, p.folders.as_slice(), &e) {
                            state.dirty = true;
                        }
                    },
                    None => {
                        if p.folders.len() > 0 {
                            let (parent, last) = split_last(p.folders.as_slice());
                            let e = Edit::RenameFolder(last, n);
                            if edit_at(&mut state.collections, p.col, parent, &e) {
                                state.dirty = true;
                            }
                        } else {
                            let mut c = state.collections.remove(p.col);
                            c.name = n;
                            state.collections.insert(p.col, c);
                            assert forall|k: int|
                                0 <= k < old(state).collections@.len() && k != p.col implies state.collections@[k]
                                == old(state).collections@[k] by {
                                if k < p.col {
                                } else {
                                }
                            }
                            state.dirty = true;
                        }
                    },
                }
            }
            state.renaming = None;
            None
        },
        Action::CancelRename => {
            state.renaming = None;
            None
        },
        Action::Select(p) => match request_at(state.collections.as_slice(), &p) {
            Some(r) => Some(copy_request(r)),
            None => None,
        },
        Action::LoadHistory(i) => {
            if i < history.len() {
                Some(copy_request(&history[i]))
            } else {
                None
            }
        },
    }
}

/// The last request loaded, if any.
pub open spec fn last_load(ls: Seq<Option<Request>>) -> Option<Request>
    decreases ls.len(),
{
    if ls.len() == 0 {
        None
    } else if ls.last() is Some {
        ls.last()
    } else {
        last_load(ls.drop_last())
    }
}

/// Applies the sidebar's actions in order; returns the last request that
/// they load into the editor.
pub fn apply(state: &mut SidebarState, history: &[Request], actions: Vec<Action>) -> (load: Option<
    Request,
>)
    ensures
        exists|states: Seq<SidebarState>, ls: Seq<Option<Request>>|
            {
                &&& states.len() == actions@.len() + 1
                &&& ls.len() == actions@.len()
                &&& states[0] == *old(state)
                &&& states.last() == *final(state)
                &&& forall|i: int|
                    0 <= i < actions@.len() ==> step_ok(
                        #[trigger] states[i],
                        states[i + 1],
                        history@,
                        actions@[i],
                        ls[i],
                    )
                &&& load == last_load(ls)
            },
{
    let ghost all = actions@;
    let ghost mut states: Seq<SidebarState> = seq![*state];
    let ghost mut ls: Seq<Option<Request>> = seq![];
    let mut actions = actions;
    let mut load: Option<Request> = None;
    while actions.len() > 0
        invariant
            states.len() == ls.len() + 1,
            ls.len() + actions@.len() == all.len(),
            actions@ == all.skip(ls.len() as int),
            states[0] == *old(state),
            states.last() == *state,
            forall|i: int|
                0 <= i < ls.len() ==> step_ok(
                    #[trigger] states[i],
                    states[i + 1],
                    history@,
                    all[i],
                    ls[i],
                ),
            load == last_load(ls),
        decreases actions@.len(),
    {
        let ghost k = ls.len() as int;
        let a = actions.remove(0);
        assert(a == all[k]);
        let ghost before = *state;
        let l = apply_action(state, history, a);
        proof {
            let ns = states.push(*state);
            let nl = ls.push(l);
            assert forall|i: int| 0 <= i < nl.len() implies step_ok(
                #[trigger] ns[i],
                ns[i + 1],
                history@,
                all[i],
                nl[i],
            ) by {
                if i < k {
                    assert(ns[i] == states[i]);
                    assert(ns[i + 1] == states[i + 1]);
                    assert(nl[i] == ls[i]);
                } else {
                    assert(ns[i] == before);
                }
            }
            assert(nl.drop_last() == ls);
            assert(actions@ =~= all.skip(nl.len() as int));
            states = ns;
            ls = nl;
        }
        if l.is_some() {
            load = l;
        }
    }
    assert(ls.len() == all.len());
    load
}

} // verus!
