//! The command-line client: what each command asks the supervisor, and what
//! it prints.
//!
//! A command is a list of [`Task`]s. Whoever has the connection makes the calls
//! and hands the answers to [`answer::report`], which says what to print and what else
//! to do.
pub mod answer;
pub mod commands;
pub mod laws;
pub mod plan;

use crate::control::ClientError;
use crate::control::ErrorModel;
use crate::number;
use crate::text;
use crate::web;
use crate::xmlrpc;
use crate::xmlrpc::Value;
use crate::xmlrpc::ValueModel;
use vstd::prelude::*;

verus! {

// ---------------------------------------------------------------------------
// Types
// ---------------------------------------------------------------------------

/// How long to wait for processes to stop, at most, in milliseconds.
pub const WAIT_LIMIT: u64 = 12000;

/// How long to wait before asking again, in milliseconds.
pub const WAIT_PAUSE: u64 = 150;

/// How the answer to a call is reported.
#[derive(Debug)]
pub enum Report {
    /// Not at all.
    Quiet,
    /// As text.
    Text,
    /// As a line of text.
    Line,
    /// As a number.
    Number,
    /// By this line, if the call succeeded.
    Fixed(String),
    /// As the status of the process with this name, or of every process.
    Status(Option<String>),
    /// As one line per process: this word, or what went wrong.
    Results(String),
    /// As one line per process.
    Cleared,
    /// As a line about the process with this name: the word, or what went wrong.
    Named(String, String),
    /// As the pid of the process with this name.
    PidOf(String),
    /// As the log of the process with this name.
    LogOf(String),
    /// As the processes that are to be restarted.
    RestartAll,
    /// As whether the process with this name runs, to be attached to.
    Attach(String),
    /// As the groups that a new configuration adds, changes and removes.
    Reread,
    /// As the groups that are to be added, changed and removed, of those listed.
    Update(Vec<String>),
    /// As the removal of a group in an update.
    UpdateRemoved(String),
    /// As the addition of a group in an update.
    UpdateAdded(String),
    /// As the addition of a group.
    Added(String),
    /// As the removal of a group.
    Removed(String),
}

/// The mathematical content of a [`Report`].
pub enum ReportModel {
    Quiet,
    Text,
    Line,
    Number,
    Fixed(Seq<char>),
    Status(Option<Seq<char>>),
    Results(Seq<char>),
    Cleared,
    Named(Seq<char>, Seq<char>),
    PidOf(Seq<char>),
    LogOf(Seq<char>),
    RestartAll,
    Attach(Seq<char>),
    Reread,
    Update(Seq<Seq<char>>),
    UpdateRemoved(Seq<char>),
    UpdateAdded(Seq<char>),
    Added(Seq<char>),
    Removed(Seq<char>),
}

impl View for Report {
    type V = ReportModel;

    open spec fn view(&self) -> ReportModel {
        match self {
            Report::Quiet => ReportModel::Quiet,
            Report::Text => ReportModel::Text,
            Report::Line => ReportModel::Line,
            Report::Number => ReportModel::Number,
            Report::Fixed(s) => ReportModel::Fixed(s@),
            Report::Status(w) => ReportModel::Status(text::opt_text(*w)),
            Report::Results(s) => ReportModel::Results(s@),
            Report::Cleared => ReportModel::Cleared,
            Report::Named(n, s) => ReportModel::Named(n@, s@),
            Report::PidOf(n) => ReportModel::PidOf(n@),
            Report::LogOf(n) => ReportModel::LogOf(n@),
            Report::RestartAll => ReportModel::RestartAll,
            Report::Attach(n) => ReportModel::Attach(n@),
            Report::Reread => ReportModel::Reread,
            Report::Update(f) => ReportModel::Update(text::texts(f@)),
            Report::UpdateRemoved(n) => ReportModel::UpdateRemoved(n@),
            Report::UpdateAdded(n) => ReportModel::UpdateAdded(n@),
            Report::Added(n) => ReportModel::Added(n@),
            Report::Removed(n) => ReportModel::Removed(n@),
        }
    }
}

/// One thing to do for a command.
#[derive(Debug)]
pub enum Task {
    /// Call a method with these parameters, and report the answer.
    Call(String, Vec<Value>, Report),
    /// Print a text.
    Say(String),
    /// Wait until a process has stopped.
    Await(String),
    /// Wait until every process of a group has stopped.
    AwaitGroup(String),
    /// Attach to a process.
    Foreground(String),
    /// Print how the client is used.
    Usage,
}

/// The mathematical content of a [`Task`].
pub enum TaskModel {
    Call(Seq<char>, Seq<ValueModel>, ReportModel),
    Say(Seq<char>),
    Await(Seq<char>),
    AwaitGroup(Seq<char>),
    Foreground(Seq<char>),
    Usage,
}

impl View for Task {
    type V = TaskModel;

    open spec fn view(&self) -> TaskModel {
        match self {
            Task::Call(m, p, r) => TaskModel::Call(m@, xmlrpc::value_models(p@), r@),
            Task::Say(s) => TaskModel::Say(s@),
            Task::Await(n) => TaskModel::Await(n@),
            Task::AwaitGroup(g) => TaskModel::AwaitGroup(g@),
            Task::Foreground(n) => TaskModel::Foreground(n@),
            Task::Usage => TaskModel::Usage,
        }
    }
}

/// The contents of a list of tasks.
pub open spec fn task_list(v: Seq<Task>) -> Seq<TaskModel> {
    v.map_values(|t: Task| t@)
}

/// What comes of an answer.
#[derive(Debug)]
pub struct Outcome {
    /// What to print.
    pub text: String,
    /// What else to do, before the tasks that are left.
    pub more: Vec<Task>,
    /// The error that ends the command.
    pub failure: Option<ClientError>,
}

/// The mathematical content of an [`Outcome`].
#[verifier::ext_equal]
pub struct OutcomeModel {
    pub text: Seq<char>,
    pub more: Seq<TaskModel>,
    pub failure: Option<ErrorModel>,
}

/// The content of an error, if there is one.
pub open spec fn opt_error(e: Option<ClientError>) -> Option<ErrorModel> {
    match e {
        Some(e) => Some(e@),
        None => None,
    }
}

impl View for Outcome {
    type V = OutcomeModel;

    open spec fn view(&self) -> OutcomeModel {
        OutcomeModel {
            text: self.text@,
            more: task_list(self.more@),
            failure: opt_error(self.failure),
        }
    }
}

/// The content of an answer.
pub open spec fn reply_model(r: Result<Value, ClientError>) -> Result<ValueModel, ErrorModel> {
    match r {
        Ok(v) => Ok(v@),
        Err(e) => Err(e@),
    }
}

// ---------------------------------------------------------------------------
// Values
// ---------------------------------------------------------------------------

/// A simple value as text; nothing for any other.
pub open spec fn value_words(v: ValueModel) -> Seq<char> {
    match v {
        ValueModel::Str(s) => s,
        ValueModel::Int(i) => number::int_text(i),
        ValueModel::Bool(b) => if b {
            "true"@
        } else {
            "false"@
        },
        _ => Seq::empty(),
    }
}

/// A number; zero for any other value.
pub open spec fn value_number(v: ValueModel) -> int {
    match v {
        ValueModel::Int(i) => i,
        _ => 0,
    }
}

/// The member of a struct with this name.
pub open spec fn member_of(v: ValueModel, key: Seq<char>) -> Option<ValueModel> {
    match v {
        ValueModel::Struct(members) => xmlrpc::member_value(members, key),
        _ => None,
    }
}

/// The text of a member, if there is one.
pub open spec fn member_words(v: ValueModel, key: Seq<char>) -> Seq<char> {
    match member_of(v, key) {
        Some(m) => value_words(m),
        None => Seq::empty(),
    }
}

/// The number of a member, if there is one.
pub open spec fn member_number(v: ValueModel, key: Seq<char>) -> int {
    match member_of(v, key) {
        Some(m) => value_number(m),
        None => 0,
    }
}

/// The items of a list; none for any other value.
pub open spec fn value_items(v: ValueModel) -> Seq<ValueModel> {
    match v {
        ValueModel::Array(items) => items,
        _ => Seq::empty(),
    }
}

/// The items of a list as texts.
pub open spec fn word_list(v: ValueModel) -> Seq<Seq<char>> {
    value_items(v).map_values(|i: ValueModel| value_words(i))
}

/// A simple value as text.
pub fn as_str(v: &Value) -> (r: String)
    ensures
        r@ == value_words(v@),
{
    match v {
        Value::Str(s) => s.clone(),
        Value::Int(i) => number::int_string(*i),
        Value::Bool(b) => if *b {
            "true".to_string()
        } else {
            "false".to_string()
        },
        _ => nothing(),
    }
}

/// The empty text.
fn nothing() -> (r: String)
    ensures
        r@ == Seq::<char>::empty(),
{
    let r = String::new();
    proof {
        assert(r@ =~= Seq::<char>::empty());
    }
    r
}

/// A number; zero for any other value.
pub fn as_int(v: &Value) -> (r: i64)
    ensures
        r == value_number(v@),
{
    match v {
        Value::Int(i) => *i,
        _ => 0,
    }
}

/// The member of a struct with this name.
fn member<'a>(v: &'a Value, key: &str) -> (r: Option<&'a Value>)
    ensures
        match (r, member_of(v@, key@)) {
            (Some(m), Some(n)) => m@ == n,
            (None, None) => true,
            _ => false,
        },
{
    if let Value::Struct(members) = v {
        let ghost all = xmlrpc::member_models(members@);
        let mut i: usize = 0;
        proof {
            xmlrpc::lemma_member_models(members@);
            assert(all.skip(0) =~= all);
        }
        while i < members.len()
            invariant
                i <= members@.len(),
                all == xmlrpc::member_models(members@),
                all.len() == members@.len(),
                forall|k: int|
                    0 <= k < members@.len() ==> #[trigger] all[k] == (
                        members@[k].0@,
                        members@[k].1@,
                    ),
                member_of(v@, key@) == xmlrpc::member_value(all.skip(i as int), key@),
            decreases members@.len() - i,
        {
            proof {
                assert(all.skip(i as int)[0] == all[i as int]);
                assert(all.skip(i as int).skip(1) =~= all.skip(i as int + 1));
            }
            if text::same(members[i].0.as_str(), key) {
                return Some(&members[i].1);
            }
            i = i + 1;
        }
    }
    None
}

/// The text of a member, if there is one.
pub fn get_str(v: &Value, key: &str) -> (r: String)
    ensures
        r@ == member_words(v@, key@),
{
    match member(v, key) {
        Some(m) => as_str(m),
        None => nothing(),
    }
}

/// The number of a member, if there is one.
pub fn get_int(v: &Value, key: &str) -> (r: i64)
    ensures
        r == member_number(v@, key@),
{
    match member(v, key) {
        Some(m) => as_int(m),
        None => 0,
    }
}

/// The items of a list as texts.
pub fn str_list(v: &Value) -> (r: Vec<String>)
    ensures
        text::texts(r@) == word_list(v@),
{
    let mut r: Vec<String> = Vec::new();
    if let Value::Array(items) = v {
        let mut i: usize = 0;
        proof {
            xmlrpc::lemma_value_models(items@);
        }
        while i < items.len()
            invariant
                i <= items@.len(),
                r@.len() == i,
                forall|k: int| 0 <= k < i ==> (#[trigger] r@[k])@ == value_words(items@[k]@),
            decreases items@.len() - i,
        {
            r.push(as_str(&items[i]));
            i = i + 1;
        }
    }
    proof {
        assert(text::texts(r@) =~= word_list(v@));
    }
    r
}

// ---------------------------------------------------------------------------
// Lines
// ---------------------------------------------------------------------------

/// A text filled up with spaces to `width` characters.
pub open spec fn filled(s: Seq<char>, width: nat) -> Seq<char> {
    if s.len() >= width {
        s
    } else {
        s + Seq::new((width - s.len()) as nat, |i: int| ' ')
    }
}

/// Why an operation on a process failed.
pub open spec fn reason_of(code: i32) -> Seq<char> {
    if code == 10 {
        "no such process"@
    } else if code == 11 {
        "bad signal"@
    } else if code == 20 {
        "no such file"@
    } else if code == 21 {
        "file is not executable"@
    } else if code == 50 {
        "spawn error"@
    } else if code == 60 {
        "already started"@
    } else if code == 70 {
        "not running"@
    } else {
        "error"@
    }
}

/// The line about an operation that failed.
pub open spec fn error_line(name: Seq<char>, reason: Seq<char>) -> Seq<char> {
    name + ": ERROR ("@ + reason + ")\n"@
}

/// The line about an operation that succeeded.
pub open spec fn done_line(name: Seq<char>, word: Seq<char>) -> Seq<char> {
    name + ": "@ + word + "\n"@
}

/// The line about an operation that ended with this code.
pub open spec fn result_line(name: Seq<char>, code: i32, word: Seq<char>) -> Seq<char> {
    if code == 80 {
        done_line(name, word)
    } else {
        error_line(name, reason_of(code))
    }
}

/// The line about the status of one process.
pub open spec fn status_line(v: ValueModel) -> Seq<char> {
    filled(
        web::namespec(member_words(v, "group"@), member_words(v, "name"@)),
        28,
    ) + " "@ + filled(member_words(v, "statename"@), 10) + " "@ + member_words(v, "description"@)
        + "\n"@
}

/// Whether the status of a process is asked for.
pub open spec fn is_wanted(v: ValueModel, want: Option<Seq<char>>) -> bool {
    match want {
        None => true,
        Some(w) => member_words(v, "name"@) == w || web::namespec(
            member_words(v, "group"@),
            member_words(v, "name"@),
        ) == w,
    }
}

/// The lines about the processes that are asked for.
pub open spec fn status_lines(items: Seq<ValueModel>, want: Option<Seq<char>>) -> Seq<char>
    decreases items.len(),
{
    if items.len() == 0 {
        Seq::empty()
    } else {
        let front = status_lines(items.drop_last(), want);
        if is_wanted(items.last(), want) {
            front + status_line(items.last())
        } else {
            front
        }
    }
}

/// Whether any process is asked for.
pub open spec fn any_wanted(items: Seq<ValueModel>, want: Option<Seq<char>>) -> bool {
    exists|i: int| 0 <= i < items.len() && is_wanted(#[trigger] items[i], want)
}

/// What the status command prints.
pub open spec fn status_text(items: Seq<ValueModel>, want: Option<Seq<char>>) -> Seq<char> {
    match want {
        Some(w) => if any_wanted(items, want) {
            status_lines(items, want)
        } else {
            error_line(w, "no such process"@)
        },
        None => status_lines(items, want),
    }
}

/// The lines about the outcomes of an operation on every process.
pub open spec fn result_lines(items: Seq<ValueModel>, word: Seq<char>) -> Seq<char>
    decreases items.len(),
{
    if items.len() == 0 {
        Seq::empty()
    } else {
        result_lines(items.drop_last(), word) + result_line(
            member_words(items.last(), "name"@),
            member_number(items.last(), "status"@) as i32,
            word,
        )
    }
}

/// The lines about the logs that were cleared.
pub open spec fn cleared_lines(items: Seq<ValueModel>) -> Seq<char>
    decreases items.len(),
{
    if items.len() == 0 {
        Seq::empty()
    } else {
        cleared_lines(items.drop_last()) + done_line(
            member_words(items.last(), "name"@),
            "cleared"@,
        )
    }
}

/// One line per name.
pub open spec fn labelled_lines(names: Seq<Seq<char>>, label: Seq<char>) -> Seq<char>
    decreases names.len(),
{
    if names.len() == 0 {
        Seq::empty()
    } else {
        labelled_lines(names.drop_last(), label) + done_line(names.last(), label)
    }
}

/// A text filled up with spaces to `width` characters.
fn fill(s: &str, width: usize) -> (r: String)
    ensures
        r@ == filled(s@, width as nat),
{
    let mut r = s.to_string();
    let mut n: usize = text::chars_of(s).len();
    let ghost start = n;
    proof {
        assert(r@ =~= s@ + Seq::new(0nat, |i: int| ' '));
    }
    while n < width
        invariant
            start == s@.len(),
            start <= n,
            start <= width ==> n <= width,
            n > start ==> n <= width,
            r@ == s@ + Seq::new((n - start) as nat, |i: int| ' '),
        decreases width - n,
    {
        r.push(' ');
        n = n + 1;
        proof {
            assert(r@ =~= s@ + Seq::new((n - start) as nat, |i: int| ' '));
        }
    }
    proof {
        assert(r@ =~= filled(s@, width as nat));
    }
    r
}

/// Why an operation on a process failed.
fn reason(code: i32) -> (r: &'static str)
    ensures
        r@ == reason_of(code),
{
    if code == 10 {
        "no such process"
    } else if code == 11 {
        "bad signal"
    } else if code == 20 {
        "no such file"
    } else if code == 21 {
        "file is not executable"
    } else if code == 50 {
        "spawn error"
    } else if code == 60 {
        "already started"
    } else if code == 70 {
        "not running"
    } else {
        "error"
    }
}

/// The line about an operation that failed, for this reason.
fn error_text(name: &str, why: &str) -> (r: String)
    ensures
        r@ == error_line(name@, why@),
{
    let mut r = name.to_string();
    r.append(": ERROR (");
    r.append(why);
    r.append(")\n");
    r
}

/// The line about an operation that failed with this code.
pub fn result_error(name: &str, code: i32) -> (r: String)
    ensures
        r@ == error_line(name@, reason_of(code)),
{
    error_text(name, reason(code))
}

/// The line about an operation that succeeded.
fn done_text(name: &str, word: &str) -> (r: String)
    ensures
        r@ == done_line(name@, word@),
{
    let mut r = name.to_string();
    r.append(": ");
    r.append(word);
    r.append("\n");
    r
}

/// The line about the status of one process.
fn status_of(v: &Value, namespec: &str) -> (r: String)
    requires
        namespec@ == web::namespec(member_words(v@, "group"@), member_words(v@, "name"@)),
    ensures
        r@ == status_line(v@),
{
    let mut r = fill(namespec, 28);
    r.append(" ");
    r.append(fill(get_str(v, "statename").as_str(), 10).as_str());
    r.append(" ");
    r.append(get_str(v, "description").as_str());
    r.append("\n");
    r
}

/// What the status command prints.
fn print_status(items: &Vec<Value>, want: &Option<String>) -> (r: String)
    ensures
        r@ == status_text(xmlrpc::value_models(items@), text::opt_text(*want)),
{
    let ghost all = xmlrpc::value_models(items@);
    let ghost w = text::opt_text(*want);
    let mut r = nothing();
    let mut shown = false;
    let mut i: usize = 0;
    proof {
        xmlrpc::lemma_value_models(items@);
        assert(status_lines(all.take(0), w) =~= Seq::<char>::empty());
    }
    while i < items.len()
        invariant
            i <= items@.len(),
            all == xmlrpc::value_models(items@),
            w == text::opt_text(*want),
            all.len() == items@.len(),
            forall|k: int| 0 <= k < items@.len() ==> #[trigger] all[k] == items@[k]@,
            r@ == status_lines(all.take(i as int), w),
            shown == any_wanted(all.take(i as int), w),
        decreases items@.len() - i,
    {
        let v = &items[i];
        let name = get_str(v, "name");
        let spec = web::make_namespec(get_str(v, "group").as_str(), name.as_str());
        let wanted = match want {
            None => true,
            Some(x) => text::same(name.as_str(), x.as_str()) || text::same(
                spec.as_str(),
                x.as_str(),
            ),
        };
        proof {
            let t = all.take(i as int + 1);
            assert(t.drop_last() =~= all.take(i as int));
            assert(t.last() == v@);
            assert(wanted == is_wanted(v@, w));
            if shown {
                let k = choose|k: int|
                    0 <= k < all.take(i as int).len() && is_wanted(
                        #[trigger] all.take(i as int)[k],
                        w,
                    );
                assert(t[k] == all.take(i as int)[k]);
            }
            if wanted {
                assert(is_wanted(t[i as int], w));
            }
            if any_wanted(t, w) && !wanted {
                let k = choose|k: int| 0 <= k < t.len() && is_wanted(#[trigger] t[k], w);
                assert(all.take(i as int)[k] == t[k]);
            }
        }
        if wanted {
            shown = true;
            r.append(status_of(v, spec.as_str()).as_str());
        }
        i = i + 1;
    }
    proof {
        assert(all.take(i as int) =~= all);
    }
    if !shown {
        if let Some(x) = want {
            return error_text(x.as_str(), "no such process");
        }
    }
    r
}

/// The lines about the outcomes of an operation on every process.
fn print_results(items: &Vec<Value>, word: &str) -> (r: String)
    ensures
        r@ == result_lines(xmlrpc::value_models(items@), word@),
{
    let ghost all = xmlrpc::value_models(items@);
    let mut r = nothing();
    let mut i: usize = 0;
    proof {
        xmlrpc::lemma_value_models(items@);
        assert(result_lines(all.take(0), word@) =~= Seq::<char>::empty());
    }
    while i < items.len()
        invariant
            i <= items@.len(),
            all == xmlrpc::value_models(items@),
            all.len() == items@.len(),
            forall|k: int| 0 <= k < items@.len() ==> #[trigger] all[k] == items@[k]@,
            r@ == result_lines(all.take(i as int), word@),
        decreases items@.len() - i,
    {
        let name = get_str(&items[i], "name");
        let status = get_int(&items[i], "status");
        let code = status as i32;
        proof {
            let t = all.take(i as int + 1);
            assert(t.drop_last() =~= all.take(i as int));
            assert(t.last() == items@[i as int]@);
        }
        if code == 80 {
            r.append(done_text(name.as_str(), word).as_str());
        } else {
            r.append(result_error(name.as_str(), code).as_str());
        }
        i = i + 1;
    }
    proof {
        assert(all.take(i as int) =~= all);
    }
    r
}

/// The lines about the logs that were cleared.
fn print_cleared(items: &Vec<Value>) -> (r: String)
    ensures
        r@ == cleared_lines(xmlrpc::value_models(items@)),
{
    let ghost all = xmlrpc::value_models(items@);
    let mut r = nothing();
    let mut i: usize = 0;
    proof {
        xmlrpc::lemma_value_models(items@);
        assert(cleared_lines(all.take(0)) =~= Seq::<char>::empty());
    }
    while i < items.len()
        invariant
            i <= items@.len(),
            all == xmlrpc::value_models(items@),
            all.len() == items@.len(),
            forall|k: int| 0 <= k < items@.len() ==> #[trigger] all[k] == items@[k]@,
            r@ == cleared_lines(all.take(i as int)),
        decreases items@.len() - i,
    {
        proof {
            let t = all.take(i as int + 1);
            assert(t.drop_last() =~= all.take(i as int));
            assert(t.last() == items@[i as int]@);
        }
        r.append(done_text(get_str(&items[i], "name").as_str(), "cleared").as_str());
        i = i + 1;
    }
    proof {
        assert(all.take(i as int) =~= all);
    }
    r
}

/// One line per name.
fn print_labelled(names: &Vec<String>, label: &str) -> (r: String)
    ensures
        r@ == labelled_lines(text::texts(names@), label@),
{
    let ghost all = text::texts(names@);
    let mut r = nothing();
    let mut i: usize = 0;
    proof {
        assert(labelled_lines(all.take(0), label@) =~= Seq::<char>::empty());
    }
    while i < names.len()
        invariant
            i <= names@.len(),
            all == text::texts(names@),
            r@ == labelled_lines(all.take(i as int), label@),
        decreases names@.len() - i,
    {
        proof {
            let t = all.take(i as int + 1);
            assert(t.drop_last() =~= all.take(i as int));
            assert(t.last() == names@[i as int]@);
        }
        r.append(done_text(names[i].as_str(), label).as_str());
        i = i + 1;
    }
    proof {
        assert(all.take(i as int) =~= all);
    }
    r
}

} // verus!
