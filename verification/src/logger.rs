//! Size-based rotating log files, used both for the main log and for each
//! child process's captured stdout and stderr.
//!
//! A [`RotatingLogger`] decides; whoever owns the file performs the
//! [`FileAction`]s it asks for and reports back how opening and appending went.
use crate::number;
use crate::text;
use vstd::prelude::*;

verus! {

/// A log sink that rotates when it grows past `maxbytes`.
///
/// Rotation renames `file` -> `file.1` -> `file.2` ... up to `backups`
/// files. A `maxbytes` of `0` disables rotation (the file grows without
/// bound). A logger with no path silently discards everything written to it.
#[derive(Debug)]
pub struct RotatingLogger {
    pub path: Option<String>,
    pub maxbytes: u64,
    pub backups: u32,
    /// Whether the file is open for appending.
    pub open: bool,
    pub size: u64,
}

/// The mathematical content of a [`RotatingLogger`].
#[verifier::ext_equal]
pub struct LoggerModel {
    pub path: Option<Seq<char>>,
    pub maxbytes: u64,
    pub backups: u32,
    pub open: bool,
    pub size: u64,
}

impl View for RotatingLogger {
    type V = LoggerModel;

    open spec fn view(&self) -> LoggerModel {
        LoggerModel {
            path: text::opt_text(self.path),
            maxbytes: self.maxbytes,
            backups: self.backups,
            open: self.open,
            size: self.size,
        }
    }
}

/// Something to do to a file. A failure is ignored.
#[derive(Debug, PartialEq)]
pub enum FileAction {
    /// Delete the file.
    Remove(String),
    /// Give the first file the second name, replacing what had it.
    Rename(String, String),
    /// Make the file empty, creating it if need be.
    Truncate(String),
    /// Open the file for appending, creating it if need be.
    Open(String),
}

/// The mathematical content of a [`FileAction`].
pub enum ActionModel {
    Remove(Seq<char>),
    Rename(Seq<char>, Seq<char>),
    Truncate(Seq<char>),
    Open(Seq<char>),
}

impl View for FileAction {
    type V = ActionModel;

    open spec fn view(&self) -> ActionModel {
        match self {
            FileAction::Remove(p) => ActionModel::Remove(p@),
            FileAction::Rename(a, b) => ActionModel::Rename(a@, b@),
            FileAction::Truncate(p) => ActionModel::Truncate(p@),
            FileAction::Open(p) => ActionModel::Open(p@),
        }
    }
}

/// The contents of a list of actions.
pub open spec fn action_list(v: Seq<FileAction>) -> Seq<ActionModel> {
    v.map_values(|a: FileAction| a@)
}

/// The name of backup `n` of a log file.
pub open spec fn backup_name(path: Seq<char>, n: nat) -> Seq<char> {
    path + seq!['.'] + number::nat_text(n)
}

/// Giving each of the backups `n`, ..., 1 the next higher number.
pub open spec fn shifts(path: Seq<char>, n: nat) -> Seq<ActionModel>
    decreases n,
{
    if n == 0 {
        Seq::empty()
    } else {
        seq![ActionModel::Rename(backup_name(path, n), backup_name(path, n + 1))] + shifts(
            path,
            (n - 1) as nat,
        )
    }
}

/// Making room for a new log file: the oldest backup goes, every other moves
/// up by one, and the file becomes the first backup. Without backups the file
/// just goes.
pub open spec fn rotation(path: Seq<char>, backups: nat) -> Seq<ActionModel> {
    (if backups > 0 {
        seq![ActionModel::Remove(backup_name(path, backups))] + shifts(path, (backups - 1) as nat)
            + seq![ActionModel::Rename(path, backup_name(path, 1))]
    } else {
        seq![ActionModel::Remove(path)]
    }) + seq![ActionModel::Open(path)]
}

/// Deleting the backups `n`, ..., `last`.
pub open spec fn removals(path: Seq<char>, n: nat, last: nat) -> Seq<ActionModel>
    decreases last + 1 - n,
{
    if n > last {
        Seq::empty()
    } else {
        seq![ActionModel::Remove(backup_name(path, n))] + removals(path, n + 1, last)
    }
}

/// Emptying a log file and deleting its backups.
pub open spec fn clearing(path: Seq<char>, backups: nat) -> Seq<ActionModel> {
    removals(path, 1, backups) + seq![ActionModel::Truncate(path), ActionModel::Open(path)]
}

/// Whether writing `len` bytes takes a rotation first.
pub open spec fn must_rotate(l: LoggerModel, len: nat) -> bool {
    l.open && l.maxbytes > 0 && l.size + len > l.maxbytes && l.path is Some
}

/// A logger once its file was opened, or could not be.
pub open spec fn after_opening(l: LoggerModel, size: Option<u64>) -> LoggerModel {
    match size {
        Some(n) => LoggerModel { open: l.path is Some, size: n, ..l },
        None => null_logger(),
    }
}

/// A logger once its file was opened again, or could not be.
pub open spec fn after_reopening(l: LoggerModel, ok: bool) -> LoggerModel {
    LoggerModel { open: ok && l.path is Some, ..l }
}

/// A logger once `len` bytes were appended.
pub open spec fn after_append(l: LoggerModel, len: nat) -> LoggerModel {
    LoggerModel {
        size: if l.size + len <= u64::MAX {
            (l.size + len) as u64
        } else {
            u64::MAX
        },
        ..l
    }
}

/// `path.n`
fn backup_path(path: &str, n: u32) -> (r: String)
    ensures
        r@ == backup_name(path@, n as nat),
{
    let mut r = path.to_string();
    r.push('.');
    r.append(number::nat_string(n as u64).as_str());
    proof {
        assert(r@ =~= backup_name(path@, n as nat));
    }
    r
}

/// The actions of a rotation.
fn plan_rotation(path: &str, backups: u32) -> (r: Vec<FileAction>)
    ensures
        action_list(r@) == rotation(path@, backups as nat),
{
    let mut r: Vec<FileAction> = Vec::new();
    if backups > 0 {
        r.push(FileAction::Remove(backup_path(path, backups)));
        let mut i: u32 = backups - 1;
        let ghost all = shifts(path@, (backups - 1) as nat);
        let ghost head = seq![ActionModel::Remove(backup_name(path@, backups as nat))];
        proof {
            assert(action_list(r@) =~= head);
        }
        while i > 0
            invariant
                i < backups,
                action_list(r@) + shifts(path@, i as nat) == head + all,
            decreases i,
        {
            let ghost before = action_list(r@);
            let step = FileAction::Rename(backup_path(path, i), backup_path(path, i + 1));
            let ghost s = step@;
            r.push(step);
            proof {
                assert(action_list(r@) =~= before + seq![s]);
                let rest = shifts(path@, (i - 1) as nat);
                assert(before + (seq![s] + rest) =~= action_list(r@) + rest);
            }
            i = i - 1;
        }
        proof {
            assert(action_list(r@) + Seq::<ActionModel>::empty() =~= action_list(r@));
        }
        let ghost before = action_list(r@);
        r.push(FileAction::Rename(path.to_string(), backup_path(path, 1)));
        proof {
            assert(action_list(r@) =~= before + seq![
                ActionModel::Rename(path@, backup_name(path@, 1)),
            ]);
        }
    } else {
        r.push(FileAction::Remove(path.to_string()));
        proof {
            assert(action_list(r@) =~= seq![ActionModel::Remove(path@)]);
        }
    }
    let ghost before = action_list(r@);
    r.push(FileAction::Open(path.to_string()));
    proof {
        assert(action_list(r@) =~= before + seq![ActionModel::Open(path@)]);
    }
    r
}

/// The actions of clearing a log.
fn plan_clearing(path: &str, backups: u32) -> (r: Vec<FileAction>)
    ensures
        action_list(r@) == clearing(path@, backups as nat),
{
    let mut r: Vec<FileAction> = Vec::new();
    let ghost all = removals(path@, 1, backups as nat);
    let mut i: u32 = 0;
    proof {
        assert(action_list(r@) + all =~= all);
    }
    while i < backups
        invariant
            i <= backups,
            action_list(r@) + removals(path@, i as nat + 1, backups as nat) == all,
        decreases backups - i,
    {
        i = i + 1;
        let ghost before = action_list(r@);
        let step = FileAction::Remove(backup_path(path, i));
        let ghost s = step@;
        r.push(step);
        proof {
            assert(action_list(r@) =~= before + seq![s]);
            let rest = removals(path@, i as nat + 1, backups as nat);
            assert(before + (seq![s] + rest) =~= action_list(r@) + rest);
        }
    }
    proof {
        assert(removals(path@, i as nat + 1, backups as nat) =~= Seq::<ActionModel>::empty());
        assert(action_list(r@) + Seq::<ActionModel>::empty() =~= action_list(r@));
    }
    r.push(FileAction::Truncate(path.to_string()));
    r.push(FileAction::Open(path.to_string()));
    proof {
        assert(action_list(r@) =~= clearing(path@, backups as nat));
    }
    r
}

/// A logger that discards everything.
pub open spec fn null_logger() -> LoggerModel {
    LoggerModel { path: None, maxbytes: 0, backups: 0, open: false, size: 0 }
}

impl RotatingLogger {
    /// A logger for `path`, whose file is yet to be opened. A `path` of `None`
    /// discards output.
    pub fn new(path: Option<String>, maxbytes: u64, backups: u32) -> (r: Self)
        ensures
            r@ == (LoggerModel {
                path: text::opt_text(path),
                maxbytes,
                backups,
                open: false,
                size: 0,
            }),
    {
        RotatingLogger { path, maxbytes, backups, open: false, size: 0 }
    }

    /// A logger that discards everything.
    pub fn null() -> (r: Self)
        ensures
            r@ == null_logger(),
    {
        RotatingLogger { path: None, maxbytes: 0, backups: 0, open: false, size: 0 }
    }

    /// Takes note of the first opening of the file: its size, or `None` when
    /// it cannot be opened, which makes this a logger that discards everything.
    pub fn opened(&mut self, size: Option<u64>)
        ensures
            final(self)@ == after_opening(old(self)@, size),
    {
        match size {
            Some(n) => {
                self.open = self.path.is_some();
                self.size = n;
            },
            None => {
                self.path = None;
                self.maxbytes = 0;
                self.backups = 0;
                self.open = false;
                self.size = 0;
            },
        }
    }

    /// What has to be done before `len` bytes are appended: a rotation if they
    /// would make the file exceed `maxbytes`, else nothing. A rotation closes
    /// the file; see [`RotatingLogger::reopened`].
    pub fn write(&mut self, len: usize) -> (r: Vec<FileAction>)
        ensures
            must_rotate(old(self)@, len as nat) ==> action_list(r@) == rotation(
                old(self)@.path->0,
                old(self)@.backups as nat,
            ) && final(self)@ == (LoggerModel { open: false, size: 0, ..old(self)@ }),
            !must_rotate(old(self)@, len as nat) ==> r@.len() == 0 && final(self)@ == old(self)@,
    {
        let full = self.size as u128 + len as u128 > self.maxbytes as u128;
        if self.open && self.maxbytes > 0 && full {
            if let Some(p) = &self.path {
                let r = plan_rotation(p.as_str(), self.backups);
                self.open = false;
                self.size = 0;
                return r;
            }
        }
        Vec::new()
    }

    /// Takes note of whether the file could be opened again after a rotation
    /// or a clearing.
    pub fn reopened(&mut self, ok: bool)
        ensures
            final(self)@ == after_reopening(old(self)@, ok),
    {
        self.open = ok && self.path.is_some();
    }

    /// Takes note of `len` bytes having been appended.
    pub fn appended(&mut self, len: usize)
        ensures
            final(self)@ == after_append(old(self)@, len as nat),
    {
        let total: u128 = self.size as u128 + len as u128;
        self.size =
        if total <= u64::MAX as u128 {
            total as u64
        } else {
            u64::MAX
        };
    }

    /// What has to be done to truncate the log and delete its rotated backups.
    /// The file is closed meanwhile; see [`RotatingLogger::reopened`].
    pub fn clear(&mut self) -> (r: Vec<FileAction>)
        ensures
            match old(self)@.path {
                Some(p) => {
                    &&& action_list(r@) == clearing(p, old(self)@.backups as nat)
                    &&& final(self)@ == LoggerModel { open: false, size: 0, ..old(self)@ }
                },
                None => r@.len() == 0 && final(self)@ == old(self)@,
            },
    {
        if let Some(p) = &self.path {
            let r = plan_clearing(p.as_str(), self.backups);
            self.open = false;
            self.size = 0;
            return r;
        }
        Vec::new()
    }
}

// ---------------------------------------------------------------------------
// Laws
// ---------------------------------------------------------------------------

/// The files after an action that does not fail for want of the file.
pub open spec fn after(files: Map<Seq<char>, Seq<u8>>, a: ActionModel) -> Map<Seq<char>, Seq<u8>> {
    match a {
        ActionModel::Remove(p) => files.remove(p),
        ActionModel::Rename(p, q) => if files.contains_key(p) {
            files.remove(p).insert(q, files[p])
        } else {
            files
        },
        ActionModel::Truncate(p) => files.insert(p, Seq::empty()),
        ActionModel::Open(p) => if files.contains_key(p) {
            files
        } else {
            files.insert(p, Seq::empty())
        },
    }
}

/// The files after a list of actions.
pub open spec fn after_all(files: Map<Seq<char>, Seq<u8>>, actions: Seq<ActionModel>) -> Map<
    Seq<char>,
    Seq<u8>,
>
    decreases actions.len(),
{
    if actions.len() == 0 {
        files
    } else {
        after_all(after(files, actions[0]), actions.skip(1))
    }
}

/// What a file holds, if it exists.
pub open spec fn content(files: Map<Seq<char>, Seq<u8>>, p: Seq<char>) -> Option<Seq<u8>> {
    if files.contains_key(p) {
        Some(files[p])
    } else {
        None
    }
}

proof fn lemma_after_all_concat(
    files: Map<Seq<char>, Seq<u8>>,
    a: Seq<ActionModel>,
    b: Seq<ActionModel>,
)
    ensures
        after_all(files, a + b) == after_all(after_all(files, a), b),
    decreases a.len(),
{
    if a.len() == 0 {
        assert(a + b =~= b);
    } else {
        assert((a + b)[0] == a[0]);
        assert((a + b).skip(1) =~= a.skip(1) + b);
        lemma_after_all_concat(after(files, a[0]), a.skip(1), b);
    }
}

proof fn lemma_after_one(files: Map<Seq<char>, Seq<u8>>, a: ActionModel)
    ensures
        after_all(files, seq![a]) == after(files, a),
{
    assert(seq![a].skip(1) =~= Seq::<ActionModel>::empty());
    assert(after_all(after(files, a), Seq::<ActionModel>::empty()) == after(files, a));
}

/// The log file and its backups all have different names.
pub proof fn law_backup_names_differ(path: Seq<char>, a: nat, b: nat)
    ensures
        backup_name(path, a) != path,
        backup_name(path, a) == backup_name(path, b) ==> a == b,
{
    let x = backup_name(path, a);
    let y = backup_name(path, b);
    number::lemma_nat_text_digits(a);
    assert(x.len() > path.len());
    if x == y {
        let n = path.len() as int + 1;
        assert(x.skip(n) =~= number::nat_text(a));
        assert(y.skip(n) =~= number::nat_text(b));
        number::law_nat_text_injective(a, b);
    }
}

/// Shifting the backups `n`, ..., 1 up moves each content by one number.
proof fn lemma_shifts(files: Map<Seq<char>, Seq<u8>>, path: Seq<char>, n: nat)
    requires
        content(files, backup_name(path, n + 1)) is None,
    ensures
        ({
            let r = after_all(files, shifts(path, n));
            &&& forall|i: nat|
                1 <= i <= n ==> content(r, backup_name(path, i + 1)) == content(
                    files,
                    #[trigger] backup_name(path, i),
                )
            &&& content(r, backup_name(path, 1)) is None
            &&& forall|p: Seq<char>|
                (forall|i: nat| 1 <= i <= n + 1 ==> p != #[trigger] backup_name(path, i))
                    ==> #[trigger] content(r, p) == content(files, p)
        }),
    decreases n,
{
    if n > 0 {
        let src = backup_name(path, n);
        let dst = backup_name(path, n + 1);
        let step = ActionModel::Rename(src, dst);
        law_backup_names_differ(path, n, n + 1);
        let mid = after(files, step);
        assert(shifts(path, n)[0] == step);
        assert(shifts(path, n).skip(1) =~= shifts(path, (n - 1) as nat));
        assert(content(mid, src) is None);
        assert(content(mid, dst) == content(files, src));
        assert forall|p: Seq<char>| p != src && p != dst implies #[trigger] content(mid, p)
            == content(files, p) by {}
        lemma_shifts(mid, path, (n - 1) as nat);
        let r = after_all(files, shifts(path, n));
        assert forall|i: nat| 1 <= i <= n implies content(r, backup_name(path, i + 1)) == content(
            files,
            #[trigger] backup_name(path, i),
        ) by {
            law_backup_names_differ(path, i, n);
            law_backup_names_differ(path, i, n + 1);
            if i == n {
                assert forall|k: nat| 1 <= k <= n implies dst != #[trigger] backup_name(
                    path,
                    k,
                ) by {
                    law_backup_names_differ(path, n + 1, k);
                }
                assert(content(r, dst) == content(mid, dst));
            } else {
                assert(content(mid, backup_name(path, i)) == content(files, backup_name(path, i)));
            }
        }
        assert forall|p: Seq<char>|
            (forall|i: nat| 1 <= i <= n + 1 ==> p != #[trigger] backup_name(path, i)) implies
            #[trigger] content(r, p) == content(files, p) by {
            assert(p != src && p != dst);
            assert(content(mid, p) == content(files, p));
        }
    }
}

/// A rotation moves the log to its first backup and every backup to the next,
/// drops the oldest, leaves an empty log, and touches no other file.
pub proof fn law_rotation(files: Map<Seq<char>, Seq<u8>>, path: Seq<char>, backups: nat)
    requires
        backups > 0,
    ensures
        ({
            let r = after_all(files, rotation(path, backups));
            &&& content(r, path) == Some(Seq::<u8>::empty())
            &&& content(r, backup_name(path, 1)) == content(files, path)
            &&& forall|i: nat|
                1 <= i < backups ==> content(r, backup_name(path, i + 1)) == content(
                    files,
                    #[trigger] backup_name(path, i),
                )
            &&& forall|p: Seq<char>|
                p != path && (forall|i: nat|
                    1 <= i <= backups ==> p != #[trigger] backup_name(path, i)) ==> #[trigger] content(
                    r,
                    p,
                ) == content(files, p)
        }),
{
    let first = seq![ActionModel::Remove(backup_name(path, backups))];
    let moves = shifts(path, (backups - 1) as nat);
    let last = seq![ActionModel::Rename(path, backup_name(path, 1))];
    let open = seq![ActionModel::Open(path)];
    let f1 = files.remove(backup_name(path, backups));
    let f2 = after_all(f1, moves);
    let f3 = after(f2, last[0]);
    let r = after_all(files, rotation(path, backups));
    lemma_after_all_concat(files, first + moves + last, open);
    lemma_after_all_concat(files, first + moves, last);
    lemma_after_all_concat(files, first, moves);
    lemma_after_one(files, first[0]);
    lemma_after_one(f2, last[0]);
    lemma_after_one(f3, open[0]);
    assert(r == after(f3, open[0]));
    lemma_shifts(f1, path, (backups - 1) as nat);
    assert forall|p: Seq<char>| p != backup_name(path, backups) implies #[trigger] content(f1, p)
        == content(files, p) by {}
    // The log itself is no backup.
    assert forall|i: nat| path != #[trigger] backup_name(path, i) by {
        law_backup_names_differ(path, i, i);
    }
    assert(content(f2, path) == content(f1, path));
    law_backup_names_differ(path, 1, backups);
    assert(content(f2, backup_name(path, 1)) is None);
    assert(content(f3, path) is None);
    assert(content(f3, backup_name(path, 1)) == content(files, path));
    assert forall|i: nat| 1 <= i < backups implies content(r, backup_name(path, i + 1)) == content(
        files,
        #[trigger] backup_name(path, i),
    ) by {
        law_backup_names_differ(path, i, backups);
        law_backup_names_differ(path, i + 1, 1);
        assert(content(f1, backup_name(path, i)) == content(files, backup_name(path, i)));
        assert(content(f2, backup_name(path, i + 1)) == content(f1, backup_name(path, i)));
        assert(backup_name(path, i + 1) != path);
        assert(content(f3, backup_name(path, i + 1)) == content(f2, backup_name(path, i + 1)));
    }
    assert forall|p: Seq<char>|
        p != path && (forall|i: nat| 1 <= i <= backups ==> p != #[trigger] backup_name(path, i))
        implies #[trigger] content(r, p) == content(files, p) by {
        assert(p != backup_name(path, backups));
        assert(p != backup_name(path, 1));
        assert(content(f1, p) == content(files, p));
        assert forall|i: nat| 1 <= i <= (backups - 1) + 1 implies p != #[trigger] backup_name(
            path,
            i,
        ) by {}
        assert(content(f2, p) == content(f1, p));
    }
}

/// Deleting backups deletes these and nothing else.
proof fn lemma_removals(files: Map<Seq<char>, Seq<u8>>, path: Seq<char>, n: nat, last: nat)
    ensures
        ({
            let r = after_all(files, removals(path, n, last));
            &&& forall|i: nat|
                n <= i <= last ==> content(r, #[trigger] backup_name(path, i)) is None
            &&& forall|p: Seq<char>|
                (forall|i: nat| n <= i <= last ==> p != #[trigger] backup_name(path, i))
                    ==> #[trigger] content(r, p) == content(files, p)
            &&& forall|p: Seq<char>|
                content(files, p) is None ==> #[trigger] content(r, p) is None
        }),
    decreases last + 1 - n,
{
    if n <= last {
        let first = backup_name(path, n);
        let mid = after(files, ActionModel::Remove(first));
        assert(removals(path, n, last)[0] == ActionModel::Remove(first));
        assert(removals(path, n, last).skip(1) =~= removals(path, n + 1, last));
        lemma_removals(mid, path, n + 1, last);
        let r = after_all(files, removals(path, n, last));
        assert(content(mid, first) is None);
        assert(content(r, first) is None);
        assert forall|p: Seq<char>| p != first implies #[trigger] content(mid, p) == content(
            files,
            p,
        ) by {}
        assert forall|p: Seq<char>|
            (forall|i: nat| n <= i <= last ==> p != #[trigger] backup_name(path, i)) implies
            #[trigger] content(r, p) == content(files, p) by {
            assert(p != first);
            assert(content(mid, p) == content(files, p));
        }
        assert forall|p: Seq<char>| content(files, p) is None implies #[trigger] content(
            r,
            p,
        ) is None by {
            assert(content(mid, p) is None);
        }
    }
}

/// Clearing a log leaves an empty log and no backups, and touches no other file.
pub proof fn law_clearing(files: Map<Seq<char>, Seq<u8>>, path: Seq<char>, backups: nat)
    ensures
        ({
            let r = after_all(files, clearing(path, backups));
            &&& content(r, path) == Some(Seq::<u8>::empty())
            &&& forall|i: nat|
                1 <= i <= backups ==> content(r, #[trigger] backup_name(path, i)) is None
            &&& forall|p: Seq<char>|
                p != path && (forall|i: nat|
                    1 <= i <= backups ==> p != #[trigger] backup_name(path, i)) ==> #[trigger] content(
                    r,
                    p,
                ) == content(files, p)
        }),
{
    let gone = removals(path, 1, backups);
    let last = seq![ActionModel::Truncate(path), ActionModel::Open(path)];
    let mid = after_all(files, gone);
    let r = after_all(files, clearing(path, backups));
    lemma_after_all_concat(files, gone, last);
    lemma_removals(files, path, 1, backups);
    let f1 = after(mid, last[0]);
    assert(last.skip(1) =~= seq![last[1]]);
    lemma_after_one(f1, last[1]);
    assert(r == after(f1, last[1]));
    assert forall|i: nat| 1 <= i <= backups implies content(
        r,
        #[trigger] backup_name(path, i),
    ) is None by {
        law_backup_names_differ(path, i, i);
        assert(content(mid, backup_name(path, i)) is None);
    }
    assert forall|p: Seq<char>|
        p != path && (forall|i: nat| 1 <= i <= backups ==> p != #[trigger] backup_name(path, i))
        implies #[trigger] content(r, p) == content(files, p) by {
        assert(content(mid, p) == content(files, p));
    }
}

/// A log file never grows past `maxbytes` by more than what one write needs:
/// after a write it holds no more than `maxbytes`, or just that write.
pub proof fn law_size_is_bounded(l: LoggerModel, len: nat)
    requires
        l.open,
        l.path is Some,
        l.maxbytes > 0,
    ensures
        ({
            let before = if must_rotate(l, len) {
                0int
            } else {
                l.size as int
            };
            before + len <= l.maxbytes || (before == 0 && before + len == len)
        }),
{
}

/// A `maxbytes` of zero disables rotation.
pub proof fn law_zero_disables_rotation(l: LoggerModel, len: nat)
    requires
        l.maxbytes == 0,
    ensures
        !must_rotate(l, len),
{
}

/// A log is rotated before a write just if it is open, has a limit, and the
/// write would take it past the limit.
pub proof fn law_when_to_rotate(l: LoggerModel, len: nat)
    requires
        l.path is Some,
    ensures
        must_rotate(l, len) <==> l.open && l.maxbytes > 0 && l.size + len > l.maxbytes,
{
}

/// The size of a log is what was appended to it: two appends count like one of
/// both, and nothing else about the log changes. A log that cannot be opened
/// takes nothing.
pub proof fn law_size_is_counted(l: LoggerModel, a: nat, b: nat, n: u64)
    requires
        l.size + a + b <= u64::MAX,
    ensures
        after_append(after_append(l, a), b) == after_append(l, a + b),
        after_append(l, a).size == l.size + a,
        after_append(l, a) == (LoggerModel { size: after_append(l, a).size, ..l }),
        l.path is Some ==> after_opening(l, Some(n)) == (LoggerModel { open: true, size: n, ..l }),
        after_opening(l, None).path is None && !after_opening(l, None).open,
        l.path is Some ==> after_reopening(l, true).open && !after_reopening(l, false).open,
        after_reopening(l, true).size == l.size,
        l.path is None ==> !after_reopening(l, true).open,
{
}

/// A log without backups is just replaced by an empty one.
pub proof fn law_rotation_without_backups(files: Map<Seq<char>, Seq<u8>>, path: Seq<char>, p: Seq<char>)
    ensures
        ({
            let r = after_all(files, rotation(path, 0));
            &&& content(r, path) == Some(Seq::<u8>::empty())
            &&& p != path ==> content(r, p) == content(files, p)
        }),
{
    let a = ActionModel::Remove(path);
    let b = ActionModel::Open(path);
    assert(rotation(path, 0) =~= seq![a] + seq![b]);
    lemma_after_all_concat(files, seq![a], seq![b]);
    lemma_after_one(files, a);
    lemma_after_one(after(files, a), b);
}

/// A backup is named after the log, with its number behind a point.
pub proof fn law_backup_name(path: Seq<char>, n: nat)
    ensures
        backup_name(path, n).take(path.len() as int) == path,
        backup_name(path, n).skip(path.len() as int) == seq!['.'] + number::nat_text(n),
{
    assert(backup_name(path, n).take(path.len() as int) =~= path);
    assert(backup_name(path, n).skip(path.len() as int) =~= seq!['.'] + number::nat_text(n));
}

} // verus!
