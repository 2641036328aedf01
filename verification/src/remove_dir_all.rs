//! Removing a directory tree, or only its contents, one file-system operation at a time.
//!
//! The decisions of a removal are a state machine: each step takes the outcome of the operation
//! asked for last and says which operation comes next. Whoever drives it performs the operations
//! (create, open, read, unlink and remove directories) and reports their outcomes. Entries are
//! opened without following symbolic links; a link is unlinked and never descended into; a
//! directory is removed only after everything in it is gone; the first failure ends the removal.
use vstd::prelude::*;

use crate::text::chars_of;

verus! {

/// What a removal is asked to do with the directory at its root path.
#[derive(PartialEq, Eq, Structural, Clone, Copy, Debug)]
pub enum Mode {
    /// Create the directory, or empty it when it already exists.
    EnsureEmpty,
    /// Remove everything in the directory but keep the directory.
    Contents,
    /// Remove the directory and everything in it.
    All,
}

/// The outcome of the operation a removal asked for last.
#[derive(Debug)]
pub enum Event<N> {
    /// The operation succeeded.
    Done,
    /// The directory to create exists already.
    AlreadyExists,
    /// Reading the innermost open directory gave an entry of this name.
    Entry(N),
    /// The innermost open directory has no more entries.
    EndOfDir,
    /// The entry opened is a directory; it is now the innermost open directory.
    IsDir,
    /// The entry opened is not a directory; it has been closed again.
    NotDir,
    /// The entry could not be opened because it is a symbolic link.
    IsLink,
    /// The operation failed; its error is what the removal reports when it fails.
    Failed,
}

/// The next file-system operation of a removal.
#[derive(Debug)]
pub enum Action<N> {
    /// Create the directory at the root path.
    CreateDir,
    /// Open the directory at the root path, without following a symbolic link.
    OpenDir,
    /// Read the next entry of the innermost open directory.
    ReadEntry,
    /// Open this entry of the innermost open directory without following a symbolic link.
    OpenEntry(N),
    /// Remove this non-directory entry of the innermost open directory.
    Unlink(N),
    /// Close the innermost open directory and remove it, by this name, from its parent.
    RemoveDir(N),
    /// Close the root directory and remove it by its path.
    RemoveRoot,
    /// The removal is complete.
    Succeed,
    /// The removal stops with the error of the last operation.
    Fail,
}

impl View for Event<String> {
    type V = Event<Seq<char>>;

    open spec fn view(&self) -> Event<Seq<char>> {
        match self {
            Event::Done => Event::Done,
            Event::AlreadyExists => Event::AlreadyExists,
            Event::Entry(n) => Event::Entry(n@),
            Event::EndOfDir => Event::EndOfDir,
            Event::IsDir => Event::IsDir,
            Event::NotDir => Event::NotDir,
            Event::IsLink => Event::IsLink,
            Event::Failed => Event::Failed,
        }
    }
}

impl View for Action<String> {
    type V = Action<Seq<char>>;

    open spec fn view(&self) -> Action<Seq<char>> {
        match self {
            Action::CreateDir => Action::CreateDir,
            Action::OpenDir => Action::OpenDir,
            Action::ReadEntry => Action::ReadEntry,
            Action::OpenEntry(n) => Action::OpenEntry(n@),
            Action::Unlink(n) => Action::Unlink(n@),
            Action::RemoveDir(n) => Action::RemoveDir(n@),
            Action::RemoveRoot => Action::RemoveRoot,
            Action::Succeed => Action::Succeed,
            Action::Fail => Action::Fail,
        }
    }
}

/// The state of a removal: what it was asked to do, the names of the directories below the root
/// that are open (outermost first), and the operation it asked for last.
pub struct Removal {
    mode: Mode,
    root: String,
    open_dirs: Vec<String>,
    pending: Action<String>,
}

/// The mathematical content of a `Removal`.
pub struct RemovalView {
    pub mode: Mode,
    pub root: Seq<char>,
    pub open_dirs: Seq<Seq<char>>,
    pub pending: Action<Seq<char>>,
}

impl View for Removal {
    type V = RemovalView;

    closed spec fn view(&self) -> RemovalView {
        RemovalView {
            mode: self.mode,
            root: self.root@,
            open_dirs: self.open_dirs@.map_values(|n: String| n@),
            pending: self.pending@,
        }
    }
}

/// The names a directory lists for itself and for its parent.
pub open spec fn is_dot_entry(name: Seq<char>) -> bool {
    name == seq!['.'] || name == seq!['.', '.']
}

/// Whether `e` is an outcome that the operation `pending` can have.
pub open spec fn accepts(pending: Action<Seq<char>>, e: Event<Seq<char>>) -> bool {
    match pending {
        Action::CreateDir => e is Done || e is AlreadyExists || e is Failed,
        Action::OpenDir => e is Done || e is Failed,
        Action::ReadEntry => e is Entry || e is EndOfDir || e is Failed,
        Action::OpenEntry(_) => e is IsDir || e is NotDir || e is IsLink || e is Failed,
        Action::Unlink(_) => e is Done || e is Failed,
        Action::RemoveDir(_) => e is Done || e is Failed,
        Action::RemoveRoot => e is Done || e is Failed,
        Action::Succeed => false,
        Action::Fail => false,
    }
}

/// The state after the operation `r.pending` had the outcome `e`; its `pending` is the next
/// operation.
pub open spec fn next(r: RemovalView, e: Event<Seq<char>>) -> RemovalView {
    let dirs = r.open_dirs;
    let (open_dirs, action) = if e is Failed {
        (dirs, Action::Fail)
    } else {
        match r.pending {
            Action::CreateDir => if e is AlreadyExists {
                (dirs, Action::OpenDir)
            } else {
                (dirs, Action::Succeed)
            },
            Action::OpenDir => (dirs, Action::ReadEntry),
            Action::ReadEntry => match e {
                Event::Entry(name) => if is_dot_entry(name) {
                    (dirs, Action::ReadEntry)
                } else {
                    (dirs, Action::OpenEntry(name))
                },
                _ => if dirs.len() > 0 {
                    (dirs.drop_last(), Action::RemoveDir(dirs.last()))
                } else if r.mode == Mode::All {
                    (dirs, Action::RemoveRoot)
                } else {
                    (dirs, Action::Succeed)
                },
            },
            Action::OpenEntry(name) => if e is IsDir {
                (dirs.push(name), Action::ReadEntry)
            } else {
                (dirs, Action::Unlink(name))
            },
            Action::Unlink(_) => (dirs, Action::ReadEntry),
            Action::RemoveDir(_) => (dirs, Action::ReadEntry),
            Action::RemoveRoot => (dirs, Action::Succeed),
            Action::Succeed => (dirs, Action::Succeed),
            Action::Fail => (dirs, Action::Fail),
        }
    };
    RemovalView { mode: r.mode, root: r.root, open_dirs, pending: action }
}

/// The state in which a removal of `root` in `mode` starts: nothing is open, and the first
/// operation creates the directory (to ensure it is empty) or opens it.
pub open spec fn start(mode: Mode, root: Seq<char>) -> RemovalView {
    RemovalView {
        mode,
        root,
        open_dirs: seq![],
        pending: if mode == Mode::EnsureEmpty {
            Action::CreateDir
        } else {
            Action::OpenDir
        },
    }
}

fn copy_string(s: &String) -> (r: String)
    ensures
        r@ == s@,
{
    s.clone()
}

fn copy_action(a: &Action<String>) -> (r: Action<String>)
    ensures
        r@ == a@,
{
    match a {
        Action::CreateDir => Action::CreateDir,
        Action::OpenDir => Action::OpenDir,
        Action::ReadEntry => Action::ReadEntry,
        Action::OpenEntry(n) => Action::OpenEntry(copy_string(n)),
        Action::Unlink(n) => Action::Unlink(copy_string(n)),
        Action::RemoveDir(n) => Action::RemoveDir(copy_string(n)),
        Action::RemoveRoot => Action::RemoveRoot,
        Action::Succeed => Action::Succeed,
        Action::Fail => Action::Fail,
    }
}

/// Whether `name` is `"."` or `".."`.
pub fn is_dot_name(name: &String) -> (b: bool)
    ensures
        b == is_dot_entry(name@),
{
    let cs = chars_of(name.as_str());
    if cs.len() == 1 {
        let b = cs[0] == '.';
        assert(b ==> cs@ =~= seq!['.']);
        assert(cs@.len() != 2);
        b
    } else if cs.len() == 2 {
        let b = cs[0] == '.' && cs[1] == '.';
        assert(b ==> cs@ =~= seq!['.', '.']);
        assert(cs@.len() != 1);
        b
    } else {
        assert(cs@.len() != 1 && cs@.len() != 2);
        false
    }
}

fn start_removal(mode: Mode, root: &str) -> (r: Removal)
    ensures
        r@ == start(mode, root@),
{
    let mut path = String::new();
    crate::text::push_str(&mut path, root);
    let pending = if mode == Mode::EnsureEmpty {
        Action::CreateDir
    } else {
        Action::OpenDir
    };
    let r = Removal { mode, root: path, open_dirs: Vec::new(), pending };
    assert(r@.open_dirs =~= seq![]);
    r
}

/// Starts making `path` an empty directory: it is created when it does not exist, and its
/// contents are removed when it does. A `path` that exists but is not a directory (a symbolic
/// link to one included) makes the removal fail.
pub fn ensure_empty_dir(path: &str) -> (r: Removal)
    ensures
        r@ == start(Mode::EnsureEmpty, path@),
{
    start_removal(Mode::EnsureEmpty, path)
}

/// Starts removing the contents of the directory `path` but not the directory itself. A `path`
/// that is not a directory makes the removal fail.
pub fn remove_dir_contents(path: &str) -> (r: Removal)
    ensures
        r@ == start(Mode::Contents, path@),
{
    start_removal(Mode::Contents, path)
}

/// Starts removing the directory `path` and everything in it. A `path` that is not a directory
/// (a symbolic link to one included) makes the removal fail.
pub fn remove_dir_all(path: &str) -> (r: Removal)
    ensures
        r@ == start(Mode::All, path@),
{
    start_removal(Mode::All, path)
}

/// Starts removing the contents of a directory that is already open: the first operation reads
/// its entries.
pub fn remove_open_dir_contents(debug_root: &str) -> (r: Removal)
    ensures
        r@ == next(start(Mode::Contents, debug_root@), Event::Done),
        r@.pending == Action::<Seq<char>>::ReadEntry,
{
    let mut r = start_removal(Mode::Contents, debug_root);
    r.pending = Action::ReadEntry;
    r
}

impl Removal {
    /// The operation asked for last.
    pub fn action(&self) -> (a: Action<String>)
        ensures
            a@ == self@.pending,
    {
        copy_action(&self.pending)
    }

    /// The path of the directory the removal works on.
    pub fn root(&self) -> (r: &str)
        ensures
            r@ == self@.root,
    {
        self.root.as_str()
    }

    /// How many directories below the root are open.
    pub fn depth(&self) -> (n: usize)
        ensures
            n == self@.open_dirs.len(),
    {
        self.open_dirs.len()
    }

    /// Whether `event` is an outcome that the operation asked for last can have; after `Succeed`
    /// or `Fail` nothing is.
    pub fn accepts(&self, event: &Event<String>) -> (b: bool)
        ensures
            b == accepts(self@.pending, event@),
    {
        match &self.pending {
            Action::CreateDir => matches!(event, Event::Done | Event::AlreadyExists | Event::Failed),
            Action::OpenDir => matches!(event, Event::Done | Event::Failed),
            Action::ReadEntry => matches!(event, Event::Entry(_) | Event::EndOfDir | Event::Failed),
            Action::OpenEntry(_) => matches!(
                event,
                Event::IsDir | Event::NotDir | Event::IsLink | Event::Failed
            ),
            Action::Unlink(_) => matches!(event, Event::Done | Event::Failed),
            Action::RemoveDir(_) => matches!(event, Event::Done | Event::Failed),
            Action::RemoveRoot => matches!(event, Event::Done | Event::Failed),
            Action::Succeed => false,
            Action::Fail => false,
        }
    }

    /// Takes the outcome of the operation asked for last and returns the next operation.
    pub fn step(&mut self, event: Event<String>) -> (a: Action<String>)
        requires
            accepts(old(self)@.pending, event@),
        ensures
            final(self)@ == next(old(self)@, event@),
            a@ == final(self)@.pending,
    {
        let ghost before = self@;
        match event {
            Event::Failed => {
                self.pending = Action::Fail;
            },
            Event::AlreadyExists => {
                self.pending = Action::OpenDir;
            },
            Event::Entry(name) => {
                if is_dot_name(&name) {
                    self.pending = Action::ReadEntry;
                } else {
                    self.pending = Action::OpenEntry(name);
                }
            },
            Event::EndOfDir => {
                if self.open_dirs.len() > 0 {
                    let name = self.open_dirs.pop().unwrap();
                    proof {
                        assert(self@.open_dirs =~= before.open_dirs.drop_last());
                    }
                    self.pending = Action::RemoveDir(name);
                } else if self.mode == Mode::All {
                    self.pending = Action::RemoveRoot;
                } else {
                    self.pending = Action::Succeed;
                }
            },
            Event::IsDir => {
                let name = match &self.pending {
                    Action::OpenEntry(n) => copy_string(n),
                    _ => String::new(),
                };
                self.open_dirs.push(name);
                proof {
                    assert(self@.open_dirs =~= before.open_dirs.push(name@));
                }
                self.pending = Action::ReadEntry;
            },
            Event::NotDir | Event::IsLink => {
                let name = match &self.pending {
                    Action::OpenEntry(n) => copy_string(n),
                    _ => String::new(),
                };
                self.pending = Action::Unlink(name);
            },
            Event::Done => {
                let next_action = match &self.pending {
                    Action::CreateDir => Action::Succeed,
                    Action::OpenDir => Action::ReadEntry,
                    Action::RemoveRoot => Action::Succeed,
                    _ => Action::ReadEntry,
                };
                self.pending = next_action;
            },
        }
        copy_action(&self.pending)
    }
}

/// What holds of every state a removal reaches: the root is opened or created only while nothing
/// below it is open, the root is removed only by a removal of the whole tree and only once nothing
/// below it is open, and only a removal that ensures an empty directory creates one.
pub open spec fn consistent(r: RemovalView) -> bool {
    &&& (r.pending is CreateDir ==> r.mode == Mode::EnsureEmpty && r.open_dirs.len() == 0)
    &&& (r.pending is OpenDir ==> r.open_dirs.len() == 0)
    &&& (r.pending is RemoveRoot ==> r.mode == Mode::All && r.open_dirs.len() == 0)
    &&& (r.pending is Succeed ==> r.open_dirs.len() == 0)
}

/// Every removal starts consistent, every step keeps it so, and a removal that succeeds has
/// nothing left open.
pub proof fn lemma_removal_stays_consistent(r: RemovalView, e: Event<Seq<char>>, mode: Mode, root: Seq<char>)
    ensures
        consistent(start(mode, root)),
        consistent(r) && accepts(r.pending, e) ==> consistent(next(r, e)),
        consistent(r) && accepts(r.pending, e) && next(r, e).pending is Succeed ==> next(r, e).open_dirs.len() == 0,
{
}

/// A removal fails exactly when an operation fails, and then stops.
pub proof fn lemma_failure_ends_removal(r: RemovalView, e: Event<Seq<char>>)
    requires
        accepts(r.pending, e),
    ensures
        (next(r, e).pending is Fail) <==> (e is Failed),
        forall|f: Event<Seq<char>>| e is Failed ==> !accepts(next(r, e).pending, f),
{
}

/// The entries `.` and `..` are skipped: reading one only leads to reading the next entry.
pub proof fn lemma_dot_entries_skipped(r: RemovalView, name: Seq<char>)
    requires
        r.pending is ReadEntry,
        is_dot_entry(name),
    ensures
        next(r, Event::Entry(name)) == (RemovalView { pending: Action::ReadEntry, ..r }),
{
}

/// A symbolic link is unlinked and never entered, and an entry that is not a directory is
/// unlinked; only a directory is entered.
pub proof fn lemma_links_are_unlinked(r: RemovalView, name: Seq<char>)
    requires
        r.pending == Action::OpenEntry(name),
    ensures
        next(r, Event::IsLink) == (RemovalView { pending: Action::Unlink(name), ..r }),
        next(r, Event::NotDir) == (RemovalView { pending: Action::Unlink(name), ..r }),
        next(r, Event::IsDir) == (RemovalView {
            open_dirs: r.open_dirs.push(name),
            pending: Action::ReadEntry,
            ..r
        }),
{
}

/// Every operation on an entry concerns an entry just listed: an entry is opened right after it
/// was read (and it is neither `.` nor `..`), unlinked right after opening it showed a
/// non-directory or a link, and a directory is removed only once reading it reached its end,
/// by the name under which it was entered. The root is removed only by a removal of the whole
/// tree, once reading the root reached its end.
pub proof fn lemma_operations_follow_listing(r: RemovalView, e: Event<Seq<char>>)
    requires
        accepts(r.pending, e),
    ensures
        next(r, e).pending matches Action::OpenEntry(n) ==> r.pending is ReadEntry && e == Event::Entry(n)
            && !is_dot_entry(n),
        next(r, e).pending matches Action::Unlink(n) ==> r.pending == Action::OpenEntry(n) && (e is NotDir
            || e is IsLink),
        next(r, e).pending matches Action::RemoveDir(n) ==> r.pending is ReadEntry && e is EndOfDir
            && r.open_dirs.len() > 0 && n == r.open_dirs.last() && next(r, e).open_dirs
            == r.open_dirs.drop_last(),
        next(r, e).pending is RemoveRoot ==> r.mode == Mode::All && r.pending is ReadEntry
            && e is EndOfDir && r.open_dirs.len() == 0,
{
}

/// Each step enters at most one directory or leaves at most one.
pub proof fn lemma_depth_changes_by_one(r: RemovalView, e: Event<Seq<char>>)
    requires
        accepts(r.pending, e),
    ensures
        next(r, e).open_dirs == r.open_dirs || next(r, e).open_dirs == r.open_dirs.drop_last()
            || exists|n: Seq<char>| next(r, e).open_dirs == r.open_dirs.push(n),
        next(r, e).mode == r.mode && next(r, e).root == r.root,
{
    if let Action::OpenEntry(n) = r.pending {
        if e is IsDir {
            assert(next(r, e).open_dirs == r.open_dirs.push(n));
        }
    }
}

/// Making a directory empty that does not exist yet only creates it; one that exists is opened
/// and emptied like any other.
pub proof fn lemma_ensure_empty_creates(root: Seq<char>)
    ensures
        next(start(Mode::EnsureEmpty, root), Event::Done).pending is Succeed,
        next(start(Mode::EnsureEmpty, root), Event::AlreadyExists).pending is OpenDir,
        next(next(start(Mode::EnsureEmpty, root), Event::AlreadyExists), Event::Done).pending is ReadEntry,
{
}

} // verus!
