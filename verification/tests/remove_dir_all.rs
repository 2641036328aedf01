use std::collections::BTreeMap;

use cargo_cache::remove_dir_all::{
    ensure_empty_dir, remove_dir_all, remove_dir_contents, remove_open_dir_contents, Action, Event,
    Removal,
};

/// A file-system node in a small in-memory tree.
#[derive(Clone, Debug, PartialEq)]
enum Node {
    File,
    Link,
    Dir(BTreeMap<String, Node>),
}

fn dir(entries: Vec<(&str, Node)>) -> Node {
    Node::Dir(entries.into_iter().map(|(n, e)| (n.to_string(), e)).collect())
}

fn children<'a>(top: &'a mut Node, path: &[String]) -> &'a mut BTreeMap<String, Node> {
    let mut cur = top;
    for p in path {
        cur = match cur {
            Node::Dir(m) => m.get_mut(p).unwrap(),
            _ => panic!("not a directory"),
        };
    }
    match cur {
        Node::Dir(m) => m,
        _ => panic!("not a directory"),
    }
}

/// Drives `removal` against `top` (the directory that holds the root path `root`); returns
/// whether it succeeded and the operations it asked for.
fn drive(top: &mut Node, root: &str, mut removal: Removal) -> (bool, Vec<String>) {
    let mut log = Vec::new();
    // open directories: path from `top`, and the names still to be listed
    let mut open: Vec<(Vec<String>, Vec<String>)> = Vec::new();
    let mut action = removal.action();
    loop {
        log.push(format!("{:?}", action));
        let event = match &action {
            Action::Succeed => return (true, log),
            Action::Fail => return (false, log),
            Action::CreateDir => {
                let m = children(top, &[]);
                if m.contains_key(root) {
                    Event::AlreadyExists
                } else {
                    m.insert(root.to_string(), Node::Dir(BTreeMap::new()));
                    Event::Done
                }
            }
            Action::OpenDir => match children(top, &[]).get(root) {
                Some(Node::Dir(m)) => {
                    let mut names = vec![".".to_string(), "..".to_string()];
                    names.extend(m.keys().cloned());
                    open.push((vec![root.to_string()], names));
                    Event::Done
                }
                Some(Node::File) => {
                    // opening a file succeeds; reading it as a directory fails
                    open.push((vec![root.to_string()], vec![]));
                    open.last_mut().unwrap().1.push("\u{0}not a directory".to_string());
                    Event::Done
                }
                _ => Event::Failed,
            },
            Action::ReadEntry => {
                let (_, names) = open.last_mut().unwrap();
                if names.is_empty() {
                    Event::EndOfDir
                } else {
                    let n = names.remove(0);
                    if n.starts_with('\u{0}') {
                        Event::Failed
                    } else {
                        Event::Entry(n)
                    }
                }
            }
            Action::OpenEntry(n) => {
                let path = open.last().unwrap().0.clone();
                match children(top, &path).get(n) {
                    Some(Node::Dir(m)) => {
                        let mut names = vec![".".to_string(), "..".to_string()];
                        names.extend(m.keys().cloned());
                        let mut p = path.clone();
                        p.push(n.clone());
                        open.push((p, names));
                        Event::IsDir
                    }
                    Some(Node::File) => Event::NotDir,
                    Some(Node::Link) => Event::IsLink,
                    None => Event::Failed,
                }
            }
            Action::Unlink(n) => {
                let path = open.last().unwrap().0.clone();
                match children(top, &path).remove(n) {
                    Some(Node::File) | Some(Node::Link) => Event::Done,
                    _ => Event::Failed,
                }
            }
            Action::RemoveDir(n) => {
                open.pop();
                let path = open.last().unwrap().0.clone();
                let m = children(top, &path);
                match m.get(n) {
                    Some(Node::Dir(c)) if c.is_empty() => {
                        m.remove(n);
                        Event::Done
                    }
                    _ => Event::Failed,
                }
            }
            Action::RemoveRoot => {
                open.pop();
                let m = children(top, &[]);
                match m.get(root) {
                    Some(Node::Dir(c)) if c.is_empty() => {
                        m.remove(root);
                        Event::Done
                    }
                    _ => Event::Failed,
                }
            }
        };
        assert!(removal.accepts(&event));
        action = removal.step(event);
    }
}

fn sample_tree() -> Node {
    dir(vec![(
        "t.mkdir",
        dir(vec![
            ("file", Node::File),
            ("another_dir", dir(vec![("inner", Node::File), ("deeper", dir(vec![("x", Node::File)]))])),
            ("link", Node::Link),
        ]),
    )])
}

fn get<'a>(top: &'a Node, name: &str) -> Option<&'a Node> {
    match top {
        Node::Dir(m) => m.get(name),
        _ => None,
    }
}

#[test]
fn ensure_empty_dir_missing_dir() {
    let mut top = dir(vec![]);
    let (ok, log) = drive(&mut top, "newdir", ensure_empty_dir("newdir"));
    assert!(ok);
    assert_eq!(log, vec!["CreateDir", "Succeed"]);
    assert_eq!(get(&top, "newdir"), Some(&Node::Dir(BTreeMap::new())));
}

#[test]
fn ensure_empty_dir_existing_dir() {
    let mut top = dir(vec![("newdir", dir(vec![]))]);
    let (ok, _) = drive(&mut top, "newdir", ensure_empty_dir("newdir"));
    assert!(ok);
    assert_eq!(get(&top, "newdir"), Some(&Node::Dir(BTreeMap::new())));
}

#[test]
fn ensure_empty_dir_not_empty() {
    let mut top = dir(vec![("newdir", dir(vec![("child", Node::File)]))]);
    let (ok, _) = drive(&mut top, "newdir", ensure_empty_dir("newdir"));
    assert!(ok);
    assert_eq!(get(&top, "newdir"), Some(&Node::Dir(BTreeMap::new())));
}

#[test]
fn ensure_empty_dir_is_file() {
    let mut top = dir(vec![("newfile", Node::File)]);
    let (ok, _) = drive(&mut top, "newfile", ensure_empty_dir("newfile"));
    assert!(!ok);
    assert_eq!(get(&top, "newfile"), Some(&Node::File));
}

#[test]
fn ensure_empty_dir_is_filelink() {
    let mut top = dir(vec![("newlink", Node::Link)]);
    let (ok, _) = drive(&mut top, "newlink", ensure_empty_dir("newlink"));
    assert!(!ok);
    assert_eq!(get(&top, "newlink"), Some(&Node::Link));
}

#[test]
fn removes_empty() {
    let mut top = dir(vec![("empty", dir(vec![]))]);
    let (ok, log) = drive(&mut top, "empty", remove_dir_all("empty"));
    assert!(ok);
    assert_eq!(
        log,
        vec!["OpenDir", "ReadEntry", "ReadEntry", "ReadEntry", "RemoveRoot", "Succeed"]
    );
    assert_eq!(get(&top, "empty"), None);
}

#[test]
fn removes_files() {
    let mut top = dir(vec![("files", dir(vec![("a", Node::File), ("b", Node::File)]))]);
    let (ok, _) = drive(&mut top, "files", remove_dir_all("files"));
    assert!(ok);
    assert_eq!(get(&top, "files"), None);
}

#[test]
fn removes_dirs() {
    let mut top = sample_tree();
    let (ok, log) = drive(&mut top, "t.mkdir", remove_dir_all("t.mkdir"));
    assert!(ok);
    assert_eq!(get(&top, "t.mkdir"), None);
    assert!(log.contains(&"RemoveDir(\"deeper\")".to_string()));
    assert!(log.contains(&"RemoveDir(\"another_dir\")".to_string()));
}

#[test]
fn removes_symlinks() {
    let mut top = dir(vec![("t", dir(vec![("link", Node::Link)]))]);
    let (ok, log) = drive(&mut top, "t", remove_dir_all("t"));
    assert!(ok);
    assert!(log.contains(&"OpenEntry(\"link\")".to_string()));
    assert!(log.contains(&"Unlink(\"link\")".to_string()));
    assert_eq!(get(&top, "t"), None);
}

#[test]
fn mkdir_rm() {
    let mut top = sample_tree();
    let (ok, _) = drive(&mut top, "file_at_top", remove_dir_contents("file_at_top"));
    assert!(!ok);
    let (ok, _) = drive(&mut top, "t.mkdir", remove_dir_contents("t.mkdir"));
    assert!(ok);
    assert_eq!(get(&top, "t.mkdir"), Some(&Node::Dir(BTreeMap::new())));
    let (ok, _) = drive(&mut top, "t.mkdir", remove_dir_contents("t.mkdir"));
    assert!(ok);
    let (ok, _) = drive(&mut top, "t.mkdir", remove_dir_all("t.mkdir"));
    assert!(ok);
    let (ok, _) = drive(&mut top, "t.mkdir", remove_dir_contents("t.mkdir"));
    assert!(!ok);
}

#[test]
fn ensure_rm() {
    let mut top = sample_tree();
    let (ok, _) = drive(&mut top, "t.mkdir", ensure_empty_dir("t.mkdir"));
    assert!(ok);
    assert_eq!(get(&top, "t.mkdir"), Some(&Node::Dir(BTreeMap::new())));
    let (ok, _) = drive(&mut top, "t.mkdir", remove_dir_all("t.mkdir"));
    assert!(ok);
    let (ok, _) = drive(&mut top, "t.mkdir", ensure_empty_dir("t.mkdir"));
    assert!(ok);
    assert_eq!(get(&top, "t.mkdir"), Some(&Node::Dir(BTreeMap::new())));
}

#[test]
fn failure_stops_removal() {
    let mut r = remove_dir_all("x");
    assert!(matches!(r.action(), Action::OpenDir));
    assert!(matches!(r.step(Event::Done), Action::ReadEntry));
    assert!(matches!(r.step(Event::Entry("a".to_string())), Action::OpenEntry(_)));
    assert!(matches!(r.step(Event::IsDir), Action::ReadEntry));
    assert_eq!(r.depth(), 1);
    assert!(matches!(r.step(Event::Failed), Action::Fail));
    assert!(!r.accepts(&Event::Done));
    assert_eq!(r.root(), "x");
}

#[test]
fn dot_entries_are_skipped() {
    let mut r = remove_open_dir_contents("d");
    assert!(matches!(r.step(Event::Entry(".".to_string())), Action::ReadEntry));
    assert!(matches!(r.step(Event::Entry("..".to_string())), Action::ReadEntry));
    assert!(matches!(r.step(Event::Entry("...".to_string())), Action::OpenEntry(ref n) if n == "..."));
    assert!(matches!(r.step(Event::NotDir), Action::Unlink(ref n) if n == "..."));
    assert!(matches!(r.step(Event::Done), Action::ReadEntry));
    assert!(matches!(r.step(Event::EndOfDir), Action::Succeed));
}
