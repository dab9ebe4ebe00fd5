use firebee::models::{Collection, Request};
use firebee::sidebar::{Action, SidebarState, TreePath, apply, name_at, request_at, truncate};

fn state() -> SidebarState {
    SidebarState { collections: vec![], renaming: None, rename_buf: String::new(), dirty: false }
}

fn path(col: usize, folders: Vec<usize>, req: Option<usize>) -> TreePath {
    TreePath { col, folders, req }
}

#[test]
fn truncates_long_names() {
    assert_eq!(truncate("abcdef", 3), "abc...");
    assert_eq!(truncate("abc", 3), "abc");
    assert_eq!(truncate("请求名字很长", 2), "请求...");
}

#[test]
fn new_collection_folder_and_request() {
    let mut s = state();
    let load = apply(
        &mut s,
        &[],
        vec![
            Action::NewCollection,
            Action::NewFolder(path(0, vec![], None)),
            Action::NewRequest(path(0, vec![0], None)),
        ],
    );
    assert!(load.is_none());
    assert!(s.dirty);
    assert_eq!(s.collections[0].name, "Collection 1");
    assert_eq!(s.collections[0].folders[0].name, "New Folder");
    assert_eq!(s.collections[0].folders[0].requests[0].name, "New Request");
    assert_eq!(name_at(&s.collections, &path(0, vec![0], Some(0))).unwrap(), "New Request");
}

#[test]
fn rename_commits_trimmed_names_and_ignores_blank_ones() {
    let mut s = state();
    s.collections.push(Collection::new("A"));
    apply(&mut s, &[], vec![Action::StartRename(path(0, vec![], None))]);
    assert_eq!(s.rename_buf, "A");
    assert_eq!(s.renaming, Some(path(0, vec![], None)));
    apply(&mut s, &[], vec![Action::CommitRename(path(0, vec![], None), "  B  ".into())]);
    assert_eq!(s.collections[0].name, "B");
    assert!(s.renaming.is_none());
    assert!(s.dirty);
    s.dirty = false;
    apply(&mut s, &[], vec![Action::CommitRename(path(0, vec![], None), "   ".into())]);
    assert_eq!(s.collections[0].name, "B");
    assert!(!s.dirty);
}

#[test]
fn delete_removes_requests_folders_and_collections() {
    let mut s = state();
    let mut c = Collection::new("C");
    c.requests.push(Request::new("r0"));
    c.requests.push(Request::new("r1"));
    s.collections.push(c);
    apply(&mut s, &[], vec![Action::Delete(path(0, vec![], Some(0)))]);
    assert_eq!(s.collections[0].requests.len(), 1);
    assert_eq!(s.collections[0].requests[0].name, "r1");
    apply(&mut s, &[], vec![Action::Delete(path(0, vec![], None))]);
    assert!(s.collections.is_empty());
    assert!(s.dirty);
}

#[test]
fn select_and_history_load_requests() {
    let mut s = state();
    let mut c = Collection::new("C");
    c.requests.push(Request::new("picked"));
    s.collections.push(c);
    let history = vec![Request::new("old")];
    let load = apply(&mut s, &history, vec![Action::Select(path(0, vec![], Some(0)))]);
    assert_eq!(load.unwrap().name, "picked");
    let load = apply(&mut s, &history, vec![Action::LoadHistory(0), Action::LoadHistory(5)]);
    assert_eq!(load.unwrap().name, "old");
    assert!(request_at(&s.collections, &path(0, vec![], Some(3))).is_none());
    assert!(!s.dirty);
}
