//! From an answer to what is printed and what else is done.
use crate::config::difference::ConfigDiff;
use crate::config::difference::DiffModel;
use crate::control;
use crate::control::ClientError;
use crate::control::ErrorModel;
use crate::ctl;
use crate::ctl::plan;
use crate::ctl::Outcome;
use crate::ctl::OutcomeModel;
use crate::ctl::Report;
use crate::ctl::ReportModel;
use crate::ctl::Task;
use crate::ctl::TaskModel;
use crate::number;
use crate::text;
use crate::xmlrpc;
use crate::xmlrpc::Value;
use crate::xmlrpc::ValueModel;
use vstd::prelude::*;

verus! {

// ---------------------------------------------------------------------------
// Reconfiguration
// ---------------------------------------------------------------------------

/// The groups in a `[[added, changed, removed]]` value.
pub open spec fn diff_in(v: ValueModel) -> Option<DiffModel> {
    let items = ctl::value_items(v);
    if items.len() > 0 && items[0] is Array && items[0]->Array_0.len() == 3 {
        let triple = items[0]->Array_0;
        Some(
            DiffModel {
                added: ctl::word_list(triple[0]),
                changed: ctl::word_list(triple[1]),
                removed: ctl::word_list(triple[2]),
            },
        )
    } else {
        None
    }
}

/// The error for any other value.
pub open spec fn malformed_diff() -> ErrorModel {
    ErrorModel::Protocol("malformed reloadConfig result"@)
}

/// What the reread command prints.
pub open spec fn reread_text(d: DiffModel) -> Seq<char> {
    if d.added.len() == 0 && d.changed.len() == 0 && d.removed.len() == 0 {
        "No config updates to processes\n"@
    } else {
        ctl::labelled_lines(d.added, "available"@) + ctl::labelled_lines(d.changed, "changed"@)
            + ctl::labelled_lines(d.removed, "disappeared"@)
    }
}

/// Whether a group is to be updated.
pub open spec fn in_filter(filter: Seq<Seq<char>>, name: Seq<char>) -> bool {
    filter.len() == 0 || filter.contains(name)
}

/// Stopping a group, until all of it has stopped.
pub open spec fn group_stop(n: Seq<char>) -> Seq<TaskModel> {
    seq![
        plan::text_call("supervisor.stopProcessGroup"@, n, ReportModel::Quiet),
        TaskModel::AwaitGroup(n),
        TaskModel::Say(ctl::done_line(n, "stopped"@)),
    ]
}

/// Stopping and removing the groups that have gone.
pub open spec fn removed_tasks(names: Seq<Seq<char>>, filter: Seq<Seq<char>>) -> Seq<TaskModel>
    decreases names.len(),
{
    if names.len() == 0 {
        Seq::empty()
    } else {
        let n = names.last();
        let front = removed_tasks(names.drop_last(), filter);
        if in_filter(filter, n) {
            (front + group_stop(n)).push(
                plan::text_call(
                    "supervisor.removeProcessGroup"@,
                    n,
                    ReportModel::UpdateRemoved(n),
                ),
            )
        } else {
            front
        }
    }
}

/// Stopping, removing and adding again the groups that have changed.
pub open spec fn changed_tasks(names: Seq<Seq<char>>, filter: Seq<Seq<char>>) -> Seq<TaskModel>
    decreases names.len(),
{
    if names.len() == 0 {
        Seq::empty()
    } else {
        let n = names.last();
        let front = changed_tasks(names.drop_last(), filter);
        if in_filter(filter, n) {
            (front + group_stop(n)).push(
                plan::text_call("supervisor.removeProcessGroup"@, n, ReportModel::Quiet),
            ).push(
                plan::text_call("supervisor.addProcessGroup"@, n, ReportModel::Quiet),
            ).push(TaskModel::Say(ctl::done_line(n, "updated process group"@)))
        } else {
            front
        }
    }
}

/// Adding the groups that have come.
pub open spec fn added_tasks(names: Seq<Seq<char>>, filter: Seq<Seq<char>>) -> Seq<TaskModel>
    decreases names.len(),
{
    if names.len() == 0 {
        Seq::empty()
    } else {
        let n = names.last();
        let front = added_tasks(names.drop_last(), filter);
        if in_filter(filter, n) {
            front.push(
                plan::text_call("supervisor.addProcessGroup"@, n, ReportModel::UpdateAdded(n)),
            )
        } else {
            front
        }
    }
}

/// Everything that an update does.
pub open spec fn update_tasks(d: DiffModel, filter: Seq<Seq<char>>) -> Seq<TaskModel> {
    removed_tasks(d.removed, filter) + changed_tasks(d.changed, filter) + added_tasks(
        d.added,
        filter,
    )
}

// ---------------------------------------------------------------------------
// The model
// ---------------------------------------------------------------------------

/// An outcome that prints a text.
pub open spec fn prints(s: Seq<char>) -> OutcomeModel {
    OutcomeModel { text: s, more: Seq::empty(), failure: None }
}

/// An outcome that adds tasks.
pub open spec fn adds(text: Seq<char>, more: Seq<TaskModel>) -> OutcomeModel {
    OutcomeModel { text, more, failure: None }
}

/// An outcome that ends the command.
pub open spec fn fails(e: ErrorModel) -> OutcomeModel {
    OutcomeModel { text: Seq::empty(), more: Seq::empty(), failure: Some(e) }
}

/// The names of the processes in a list.
pub open spec fn process_names(v: ValueModel) -> Seq<Seq<char>> {
    ctl::value_items(v).map_values(|i: ValueModel| ctl::member_words(i, "name"@))
}

/// What comes of an answer to a call that succeeded.
pub open spec fn success_of(report: ReportModel, v: ValueModel) -> OutcomeModel {
    match report {
        ReportModel::Quiet => prints(Seq::empty()),
        ReportModel::Text | ReportModel::LogOf(_) => prints(ctl::value_words(v)),
        ReportModel::Line => prints(ctl::value_words(v) + "\n"@),
        ReportModel::Number => prints(number::int_text(ctl::value_number(v)) + "\n"@),
        ReportModel::Fixed(s) => prints(s),
        ReportModel::Status(want) => prints(ctl::status_text(ctl::value_items(v), want)),
        ReportModel::Results(word) => prints(ctl::result_lines(ctl::value_items(v), word)),
        ReportModel::Cleared => prints(ctl::cleared_lines(ctl::value_items(v))),
        ReportModel::Named(n, word) => prints(ctl::done_line(n, word)),
        ReportModel::PidOf(_) => prints(
            number::int_text(ctl::member_number(v, "pid"@)) + "\n"@,
        ),
        ReportModel::RestartAll => adds(Seq::empty(), plan::restart_tasks(process_names(v))),
        ReportModel::Attach(n) => if ctl::member_number(v, "state"@) != 20 {
            prints("ERROR: process not running\n"@)
        } else {
            adds("==> Press Ctrl-D to exit <==\n"@, seq![TaskModel::Foreground(n)])
        },
        ReportModel::Reread => match diff_in(v) {
            Some(d) => prints(reread_text(d)),
            None => fails(malformed_diff()),
        },
        ReportModel::Update(filter) => match diff_in(v) {
            Some(d) => adds(Seq::empty(), update_tasks(d, filter)),
            None => fails(malformed_diff()),
        },
        ReportModel::UpdateRemoved(n) | ReportModel::Removed(n) => prints(
            ctl::done_line(n, "removed process group"@),
        ),
        ReportModel::UpdateAdded(n) | ReportModel::Added(n) => prints(
            ctl::done_line(n, "added process group"@),
        ),
    }
}

/// The line about a group that does not exist.
pub open spec fn no_group_line(n: Seq<char>) -> Seq<char> {
    "ERROR: no such process/group: "@ + n + "\n"@
}

/// What comes of an answer to a call that failed.
pub open spec fn failure_of(report: ReportModel, e: ErrorModel) -> OutcomeModel {
    match (report, e) {
        (ReportModel::Quiet, _) => prints(Seq::empty()),
        (ReportModel::RestartAll, _) => prints(Seq::empty()),
        (ReportModel::Attach(_), _) => prints("ERROR: bad process name supplied\n"@),
        (ReportModel::Named(n, _), ErrorModel::Fault(c, _)) => prints(
            ctl::error_line(n, ctl::reason_of(c)),
        ),
        (ReportModel::PidOf(n), ErrorModel::Fault(_, _)) => prints(
            ctl::error_line(n, "no such process"@),
        ),
        (ReportModel::LogOf(n), ErrorModel::Fault(_, _)) => prints(
            ctl::error_line(n, "no log file"@),
        ),
        (ReportModel::UpdateRemoved(n), ErrorModel::Fault(_, _)) => prints(
            ctl::done_line(n, "has problems; not removing"@),
        ),
        (ReportModel::Added(n), ErrorModel::Fault(c, _)) => if c == 90 {
            prints("ERROR: process group already active\n"@)
        } else if c == 10 {
            prints(no_group_line(n))
        } else {
            fails(e)
        },
        (ReportModel::Removed(n), ErrorModel::Fault(c, _)) => if c == 91 {
            prints("ERROR: process/group still running: "@ + n + "\n"@)
        } else if c == 10 {
            prints(no_group_line(n))
        } else {
            fails(e)
        },
        _ => fails(e),
    }
}

/// What comes of an answer.
pub open spec fn outcome_of(report: ReportModel, answer: Result<ValueModel, ErrorModel>) -> OutcomeModel {
    match answer {
        Ok(v) => success_of(report, v),
        Err(e) => failure_of(report, e),
    }
}

/// Whether a snapshot shows a process that has stopped.
pub open spec fn is_settled(v: ValueModel) -> bool {
    let state = ctl::member_number(v, "state"@);
    state == 0 || state == 100 || state == 200 || state == 1000
}

/// Whether snapshots show a group all of which has stopped.
pub open spec fn group_is_settled(group: Seq<char>, v: ValueModel) -> bool {
    forall|i: int|
        0 <= i < ctl::value_items(v).len() && ctl::member_words(
            #[trigger] ctl::value_items(v)[i],
            "group"@,
        ) == group ==> is_settled(ctl::value_items(v)[i])
}

/// What a tail gives: the text, and the offset at which to go on.
pub open spec fn tail_parts(v: ValueModel) -> Option<(Seq<char>, int)> {
    let items = ctl::value_items(v);
    if items.len() >= 2 && items[1] is Int {
        Some((ctl::value_words(items[0]), items[1]->Int_0))
    } else {
        None
    }
}

/// What is said about an error that ends a command.
pub open spec fn failure_line(e: ErrorModel, socket: Seq<char>) -> Seq<char> {
    match e {
        ErrorModel::Io(_) => "supervisorctl: cannot reach supervisord at "@ + socket
            + " (is it running?)\n"@,
        _ => "supervisorctl: "@ + control::error_text(e) + "\n"@,
    }
}

// ---------------------------------------------------------------------------
// Execution
// ---------------------------------------------------------------------------

/// An outcome that prints a text.
fn print(s: String) -> (r: Outcome)
    ensures
        r@ == prints(s@),
{
    let r = Outcome { text: s, more: Vec::new(), failure: None };
    proof {
        assert(r@ =~= prints(s@));
    }
    r
}

/// An outcome that ends the command.
fn fail(e: ClientError) -> (r: Outcome)
    ensures
        r@ == fails(e@),
{
    let r = Outcome { text: ctl::nothing(), more: Vec::new(), failure: Some(e) };
    proof {
        assert(r@ =~= fails(e@));
    }
    r
}

/// A text with a line end.
fn line(s: String) -> (r: String)
    ensures
        r@ == s@ + "\n"@,
{
    let mut r = s;
    r.append("\n");
    r
}

/// The items of a list; none for any other value.
fn items_of(v: Value) -> (r: Vec<Value>)
    ensures
        xmlrpc::value_models(r@) == ctl::value_items(v@),
{
    match v {
        Value::Array(items) => items,
        _ => {
            let r: Vec<Value> = Vec::new();
            proof {
                assert(xmlrpc::value_models(r@) =~= Seq::<ValueModel>::empty());
            }
            r
        },
    }
}

/// The names of the processes in a list.
fn names_in(items: &Vec<Value>) -> (r: Vec<String>)
    ensures
        text::texts(r@) == xmlrpc::value_models(items@).map_values(
            |i: ValueModel| ctl::member_words(i, "name"@),
        ),
{
    let mut r: Vec<String> = Vec::new();
    let mut i: usize = 0;
    proof {
        xmlrpc::lemma_value_models(items@);
    }
    while i < items.len()
        invariant
            i <= items@.len(),
            r@.len() == i,
            forall|k: int|
                0 <= k < i ==> (#[trigger] r@[k])@ == ctl::member_words(items@[k]@, "name"@),
        decreases items@.len() - i,
    {
        r.push(ctl::get_str(&items[i], "name"));
        i = i + 1;
    }
    proof {
        assert(text::texts(r@) =~= xmlrpc::value_models(items@).map_values(
            |i: ValueModel| ctl::member_words(i, "name"@),
        ));
    }
    r
}

/// The groups in a `[[added, changed, removed]]` value.
pub fn read_diff(v: &Value) -> (r: Option<ConfigDiff>)
    ensures
        match (r, diff_in(v@)) {
            (Some(d), Some(m)) => d@ == m,
            (None, None) => true,
            _ => false,
        },
{
    if let Value::Array(items) = v {
        proof {
            xmlrpc::lemma_value_models(items@);
        }
        if items.len() > 0 {
            if let Value::Array(triple) = &items[0] {
                proof {
                    xmlrpc::lemma_value_models(triple@);
                }
                if triple.len() == 3 {
                    return Some(
                        ConfigDiff {
                            added: ctl::str_list(&triple[0]),
                            changed: ctl::str_list(&triple[1]),
                            removed: ctl::str_list(&triple[2]),
                        },
                    );
                }
            }
        }
    }
    None
}

/// What the reread command prints.
fn print_reread(d: &ConfigDiff) -> (r: String)
    ensures
        r@ == reread_text(d@),
{
    if d.added.len() == 0 && d.changed.len() == 0 && d.removed.len() == 0 {
        return "No config updates to processes\n".to_string();
    }
    let mut r = ctl::print_labelled(&d.added, "available");
    r.append(ctl::print_labelled(&d.changed, "changed").as_str());
    r.append(ctl::print_labelled(&d.removed, "disappeared").as_str());
    r
}

/// Whether a group is to be updated.
fn wanted(filter: &Vec<String>, name: &str) -> (r: bool)
    ensures
        r == in_filter(text::texts(filter@), name@),
{
    if filter.len() == 0 {
        return true;
    }
    let ghost all = text::texts(filter@);
    let mut i: usize = 0;
    while i < filter.len()
        invariant
            i <= filter@.len(),
            filter@.len() > 0,
            all == text::texts(filter@),
            forall|k: int| 0 <= k < i ==> #[trigger] all[k] != name@,
        decreases filter@.len() - i,
    {
        if text::same(filter[i].as_str(), name) {
            proof {
                assert(all[i as int] == name@);
            }
            return true;
        }
        i = i + 1;
    }
    false
}

/// Stopping and removing the groups that have gone.
fn plan_removed(out: &mut Vec<Task>, names: &Vec<String>, filter: &Vec<String>)
    ensures
        ctl::task_list(final(out)@) == ctl::task_list(old(out)@) + removed_tasks(
            text::texts(names@),
            text::texts(filter@),
        ),
{
    let ghost all = text::texts(names@);
    let ghost f = text::texts(filter@);
    let ghost start = ctl::task_list(out@);
    let mut i: usize = 0;
    proof {
        assert(ctl::task_list(out@) =~= start + removed_tasks(all.take(0), f));
    }
    while i < names.len()
        invariant
            i <= names@.len(),
            all == text::texts(names@),
            f == text::texts(filter@),
            ctl::task_list(out@) == start + removed_tasks(all.take(i as int), f),
        decreases names@.len() - i,
    {
        let name = names[i].as_str();
        let ghost before = ctl::task_list(out@);
        let ghost front = removed_tasks(all.take(i as int), f);
        let ghost next = removed_tasks(all.take(i as int + 1), f);
        proof {
            let t = all.take(i as int + 1);
            assert(t.drop_last() =~= all.take(i as int));
            assert(t.last() == name@);
        }
        if wanted(filter, name) {
            out.push(plan::call_text("supervisor.stopProcessGroup", name, Report::Quiet));
            out.push(Task::AwaitGroup(name.to_string()));
            out.push(Task::Say(ctl::done_text(name, "stopped")));
            let report = Report::UpdateRemoved(name.to_string());
            out.push(plan::call_text("supervisor.removeProcessGroup", name, report));
        }
        proof {
            assert(next.take(front.len() as int) =~= front);
            assert(ctl::task_list(out@) =~= before + next.skip(front.len() as int));
            assert(before + next.skip(front.len() as int) =~= start + next);
        }
        i = i + 1;
    }
    proof {
        assert(all.take(i as int) =~= all);
    }
}

/// Stopping, removing and adding again the groups that have changed.
fn plan_changed(out: &mut Vec<Task>, names: &Vec<String>, filter: &Vec<String>)
    ensures
        ctl::task_list(final(out)@) == ctl::task_list(old(out)@) + changed_tasks(
            text::texts(names@),
            text::texts(filter@),
        ),
{
    let ghost all = text::texts(names@);
    let ghost f = text::texts(filter@);
    let ghost start = ctl::task_list(out@);
    let mut i: usize = 0;
    proof {
        assert(ctl::task_list(out@) =~= start + changed_tasks(all.take(0), f));
    }
    while i < names.len()
        invariant
            i <= names@.len(),
            all == text::texts(names@),
            f == text::texts(filter@),
            ctl::task_list(out@) == start + changed_tasks(all.take(i as int), f),
        decreases names@.len() - i,
    {
        let name = names[i].as_str();
        let ghost before = ctl::task_list(out@);
        let ghost front = changed_tasks(all.take(i as int), f);
        let ghost next = changed_tasks(all.take(i as int + 1), f);
        proof {
            let t = all.take(i as int + 1);
            assert(t.drop_last() =~= all.take(i as int));
            assert(t.last() == name@);
        }
        if wanted(filter, name) {
            out.push(plan::call_text("supervisor.stopProcessGroup", name, Report::Quiet));
            out.push(Task::AwaitGroup(name.to_string()));
            out.push(Task::Say(ctl::done_text(name, "stopped")));
            out.push(plan::call_text("supervisor.removeProcessGroup", name, Report::Quiet));
            out.push(plan::call_text("supervisor.addProcessGroup", name, Report::Quiet));
            out.push(Task::Say(ctl::done_text(name, "updated process group")));
        }
        proof {
            assert(next.take(front.len() as int) =~= front);
            assert(ctl::task_list(out@) =~= before + next.skip(front.len() as int));
            assert(before + next.skip(front.len() as int) =~= start + next);
        }
        i = i + 1;
    }
    proof {
        assert(all.take(i as int) =~= all);
    }
}

/// Adding the groups that have come.
fn plan_added(out: &mut Vec<Task>, names: &Vec<String>, filter: &Vec<String>)
    ensures
        ctl::task_list(final(out)@) == ctl::task_list(old(out)@) + added_tasks(
            text::texts(names@),
            text::texts(filter@),
        ),
{
    let ghost all = text::texts(names@);
    let ghost f = text::texts(filter@);
    let ghost start = ctl::task_list(out@);
    let mut i: usize = 0;
    proof {
        assert(ctl::task_list(out@) =~= start + added_tasks(all.take(0), f));
    }
    while i < names.len()
        invariant
            i <= names@.len(),
            all == text::texts(names@),
            f == text::texts(filter@),
            ctl::task_list(out@) == start + added_tasks(all.take(i as int), f),
        decreases names@.len() - i,
    {
        let name = names[i].as_str();
        let ghost before = ctl::task_list(out@);
        let ghost front = added_tasks(all.take(i as int), f);
        let ghost next = added_tasks(all.take(i as int + 1), f);
        proof {
            let t = all.take(i as int + 1);
            assert(t.drop_last() =~= all.take(i as int));
            assert(t.last() == name@);
        }
        if wanted(filter, name) {
            let report = Report::UpdateAdded(name.to_string());
            out.push(plan::call_text("supervisor.addProcessGroup", name, report));
        }
        proof {
            assert(next.take(front.len() as int) =~= front);
            assert(ctl::task_list(out@) =~= before + next.skip(front.len() as int));
            assert(before + next.skip(front.len() as int) =~= start + next);
        }
        i = i + 1;
    }
    proof {
        assert(all.take(i as int) =~= all);
    }
}

/// Everything that an update does.
fn plan_update(d: &ConfigDiff, filter: &Vec<String>) -> (r: Vec<Task>)
    ensures
        ctl::task_list(r@) == update_tasks(d@, text::texts(filter@)),
{
    let mut r: Vec<Task> = Vec::new();
    plan_removed(&mut r, &d.removed, filter);
    plan_changed(&mut r, &d.changed, filter);
    plan_added(&mut r, &d.added, filter);
    proof {
        assert(ctl::task_list(r@) =~= update_tasks(d@, text::texts(filter@)));
    }
    r
}

/// The error for a reconfiguration that cannot be read.
fn bad_diff() -> (r: ClientError)
    ensures
        r@ == malformed_diff(),
{
    ClientError::Protocol("malformed reloadConfig result".to_string())
}

/// What comes of an answer to a call that succeeded.
fn report_success(report: &Report, v: Value) -> (r: Outcome)
    ensures
        r@ == success_of(report@, v@),
{
    match report {
        Report::Quiet => print(ctl::nothing()),
        Report::Text | Report::LogOf(_) => print(ctl::as_str(&v)),
        Report::Line => print(line(ctl::as_str(&v))),
        Report::Number => print(line(number::int_string(ctl::as_int(&v)))),
        Report::Fixed(s) => print(s.clone()),
        Report::Status(want) => print(ctl::print_status(&items_of(v), want)),
        Report::Results(word) => print(ctl::print_results(&items_of(v), word.as_str())),
        Report::Cleared => print(ctl::print_cleared(&items_of(v))),
        Report::Named(n, word) => print(ctl::done_text(n.as_str(), word.as_str())),
        Report::PidOf(_) => print(line(number::int_string(ctl::get_int(&v, "pid")))),
        Report::RestartAll => {
            let names = names_in(&items_of(v));
            let more = plan::restart_each(names.as_slice());
            Outcome { text: ctl::nothing(), more, failure: None }
        },
        Report::Attach(n) => {
            if ctl::get_int(&v, "state") != 20 {
                print("ERROR: process not running\n".to_string())
            } else {
                let more: Vec<Task> = vec![Task::Foreground(n.clone())];
                proof {
                    assert(ctl::task_list(more@) =~= seq![TaskModel::Foreground(n@)]);
                }
                Outcome {
                    text: "==> Press Ctrl-D to exit <==\n".to_string(),
                    more,
                    failure: None,
                }
            }
        },
        Report::Reread => match read_diff(&v) {
            Some(d) => print(print_reread(&d)),
            None => fail(bad_diff()),
        },
        Report::Update(filter) => match read_diff(&v) {
            Some(d) => Outcome {
                text: ctl::nothing(),
                more: plan_update(&d, filter),
                failure: None,
            },
            None => fail(bad_diff()),
        },
        Report::UpdateRemoved(n) | Report::Removed(n) => print(
            ctl::done_text(n.as_str(), "removed process group"),
        ),
        Report::UpdateAdded(n) | Report::Added(n) => print(
            ctl::done_text(n.as_str(), "added process group"),
        ),
    }
}

/// The line about a group that does not exist.
fn no_group(n: &str) -> (r: String)
    ensures
        r@ == no_group_line(n@),
{
    let mut r = "ERROR: no such process/group: ".to_string();
    r.append(n);
    r.append("\n");
    r
}

/// What comes of an answer to a call that failed.
fn report_failure(report: &Report, e: ClientError) -> (r: Outcome)
    ensures
        r@ == failure_of(report@, e@),
{
    let code: Option<i32> = match &e {
        ClientError::Fault(c, _) => Some(*c),
        _ => None,
    };
    match report {
        Report::Quiet | Report::RestartAll => print(ctl::nothing()),
        Report::Attach(_) => print("ERROR: bad process name supplied\n".to_string()),
        Report::Named(n, _) => match code {
            Some(c) => print(ctl::result_error(n.as_str(), c)),
            None => fail(e),
        },
        Report::PidOf(n) => match code {
            Some(_) => print(ctl::error_text(n.as_str(), "no such process")),
            None => fail(e),
        },
        Report::LogOf(n) => match code {
            Some(_) => print(ctl::error_text(n.as_str(), "no log file")),
            None => fail(e),
        },
        Report::UpdateRemoved(n) => match code {
            Some(_) => print(ctl::done_text(n.as_str(), "has problems; not removing")),
            None => fail(e),
        },
        Report::Added(n) => match code {
            Some(c) => if c == 90 {
                print("ERROR: process group already active\n".to_string())
            } else if c == 10 {
                print(no_group(n.as_str()))
            } else {
                fail(e)
            },
            None => fail(e),
        },
        Report::Removed(n) => match code {
            Some(c) => if c == 91 {
                let mut s = "ERROR: process/group still running: ".to_string();
                s.append(n.as_str());
                s.append("\n");
                print(s)
            } else if c == 10 {
                print(no_group(n.as_str()))
            } else {
                fail(e)
            },
            None => fail(e),
        },
        _ => fail(e),
    }
}

/// What comes of the answer to a call.
pub fn report(how: &Report, answer: Result<Value, ClientError>) -> (r: Outcome)
    ensures
        r@ == outcome_of(how@, ctl::reply_model(answer)),
{
    match answer {
        Ok(v) => report_success(how, v),
        Err(e) => report_failure(how, e),
    }
}

/// Whether a snapshot shows a process that has stopped.
pub fn settled(info: &Value) -> (r: bool)
    ensures
        r == is_settled(info@),
{
    let state = ctl::get_int(info, "state");
    state == 0 || state == 100 || state == 200 || state == 1000
}

/// Whether the wait for a process to stop is over, given the answer to
/// `getProcessInfo`: it has stopped, or there is nothing to learn about it.
pub fn wait_is_over(answer: &Result<Value, ClientError>) -> (r: bool)
    ensures
        r == (match ctl::reply_model(*answer) {
            Ok(v) => is_settled(v),
            Err(_) => true,
        }),
{
    match answer {
        Ok(v) => settled(v),
        Err(_) => true,
    }
}

/// Whether snapshots show a group all of which has stopped.
pub fn group_settled(group: &str, infos: &Value) -> (r: bool)
    ensures
        r == group_is_settled(group@, infos@),
{
    if let Value::Array(items) = infos {
        let ghost all = xmlrpc::value_models(items@);
        let mut i: usize = 0;
        proof {
            xmlrpc::lemma_value_models(items@);
        }
        while i < items.len()
            invariant
                i <= items@.len(),
                all == xmlrpc::value_models(items@),
                all == ctl::value_items(infos@),
                all.len() == items@.len(),
                forall|k: int| 0 <= k < items@.len() ==> #[trigger] all[k] == items@[k]@,
                forall|k: int|
                    0 <= k < i && ctl::member_words(#[trigger] all[k], "group"@) == group@
                        ==> is_settled(all[k]),
            decreases items@.len() - i,
        {
            proof {
                assert(all[i as int] == items@[i as int]@);
            }
            if text::same(ctl::get_str(&items[i], "group").as_str(), group) && !settled(
                &items[i],
            ) {
                return false;
            }
            i = i + 1;
        }
    }
    true
}

/// Whether the wait for a group to stop is over, given the answer to
/// `getAllProcessInfo`.
pub fn group_wait_is_over(group: &str, answer: &Result<Value, ClientError>) -> (r: bool)
    ensures
        r == (match ctl::reply_model(*answer) {
            Ok(v) => group_is_settled(group@, v),
            Err(_) => true,
        }),
{
    match answer {
        Ok(v) => group_settled(group, v),
        Err(_) => true,
    }
}

/// What a tail gives: the text, and the offset at which to go on.
pub fn read_tail(v: &Value) -> (r: Option<(String, i64)>)
    ensures
        match (r, tail_parts(v@)) {
            (Some(a), Some(b)) => a.0@ == b.0 && a.1 == b.1,
            (None, None) => true,
            _ => false,
        },
{
    if let Value::Array(items) = v {
        proof {
            xmlrpc::lemma_value_models(items@);
        }
        if items.len() >= 2 {
            if let Value::Int(next) = &items[1] {
                return Some((ctl::as_str(&items[0]), *next));
            }
        }
    }
    None
}

/// What is said about an error that ends a command.
pub fn failure_message(e: &ClientError, socket: &str) -> (r: String)
    ensures
        r@ == failure_line(e@, socket@),
{
    match e {
        ClientError::Io(_) => {
            let mut r = "supervisorctl: cannot reach supervisord at ".to_string();
            r.append(socket);
            r.append(" (is it running?)\n");
            r
        },
        _ => {
            let mut r = "supervisorctl: ".to_string();
            r.append(e.message().as_str());
            r.append("\n");
            r
        },
    }
}

} // verus!
