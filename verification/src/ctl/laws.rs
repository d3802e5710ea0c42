//! What holds of every command.
use crate::config::difference::DiffModel;
use crate::control::ErrorModel;
use crate::ctl;
use crate::ctl::answer;
use crate::ctl::plan;
use crate::ctl::ReportModel;
use crate::ctl::TaskModel;
use crate::xmlrpc::ValueModel;
use vstd::prelude::*;

verus! {

/// The tasks that stop processes, one by one.
proof fn lemma_stop_tasks(names: Seq<Seq<char>>)
    ensures
        plan::stop_tasks(names).len() == 3 * names.len(),
        forall|i: int|
            0 <= i < names.len() ==> {
                let n = #[trigger] names[i];
                let t = plan::stop_tasks(names);
                &&& t[3 * i] == plan::text_call("supervisor.stopProcess"@, n, ReportModel::Quiet)
                &&& t[3 * i + 1] == TaskModel::Await(n)
                &&& t[3 * i + 2] == TaskModel::Say(ctl::done_line(n, "stopped"@))
            },
    decreases names.len(),
{
    if names.len() > 0 {
        let front = names.drop_last();
        lemma_stop_tasks(front);
        assert forall|i: int| 0 <= i < names.len() implies {
            let n = #[trigger] names[i];
            let t = plan::stop_tasks(names);
            &&& t[3 * i] == plan::text_call("supervisor.stopProcess"@, n, ReportModel::Quiet)
            &&& t[3 * i + 1] == TaskModel::Await(n)
            &&& t[3 * i + 2] == TaskModel::Say(ctl::done_line(n, "stopped"@))
        } by {
            if i < front.len() {
                assert(front[i] == names[i]);
            }
        }
    }
}

/// A restart stops every process, and waits until it has stopped, before it
/// starts any.
pub proof fn law_restart_stops_before_it_starts(names: Seq<Seq<char>>)
    ensures
        ({
            let t = plan::restart_tasks(names);
            &&& t.len() == 4 * names.len()
            &&& forall|i: int|
                0 <= i < names.len() ==> {
                    let n = #[trigger] names[i];
                    &&& t[3 * i] == plan::text_call(
                        "supervisor.stopProcess"@,
                        n,
                        ReportModel::Quiet,
                    )
                    &&& t[3 * i + 1] == TaskModel::Await(n)
                    &&& t[3 * names.len() + i] == plan::text_call(
                        "supervisor.startProcess"@,
                        n,
                        ReportModel::Named(n, "started"@),
                    )
                }
        }),
{
    lemma_stop_tasks(names);
    let a = plan::stop_tasks(names);
    let b = plan::named_calls("supervisor.startProcess"@, names, "started"@);
    let t = plan::restart_tasks(names);
    assert forall|i: int| 0 <= i < names.len() implies {
        let n = #[trigger] names[i];
        &&& t[3 * i] == plan::text_call("supervisor.stopProcess"@, n, ReportModel::Quiet)
        &&& t[3 * i + 1] == TaskModel::Await(n)
        &&& t[3 * names.len() + i] == plan::text_call(
            "supervisor.startProcess"@,
            n,
            ReportModel::Named(n, "started"@),
        )
    } by {
        assert(t[3 * i] == a[3 * i]);
        assert(t[3 * i + 1] == a[3 * i + 1]);
        assert(t[3 * names.len() + i] == b[i]);
    }
}

/// A fault about one process does not keep a command from the next.
pub proof fn law_fault_does_not_end_a_command(
    name: Seq<char>,
    word: Seq<char>,
    code: i32,
    message: Seq<char>,
)
    ensures
        answer::outcome_of(
            ReportModel::Named(name, word),
            Err(ErrorModel::Fault(code, message)),
        ).failure is None,
{
}

/// A supervisor that cannot be reached ends every command that reports on its
/// calls.
pub proof fn law_lost_connection_ends_a_command(report: ReportModel, e: Seq<char>)
    requires
        !(report is Quiet),
        !(report is RestartAll),
        !(report is Attach),
    ensures
        answer::outcome_of(report, Err(ErrorModel::Io(e))).failure == Some(ErrorModel::Io(e)),
{
}

/// Whether a task is about one of the groups that are to be updated.
pub open spec fn is_about(t: TaskModel, names: Seq<Seq<char>>, filter: Seq<Seq<char>>) -> bool {
    match t {
        TaskModel::Call(_, params, _) => exists|k: int|
            0 <= k < names.len() && params == seq![ValueModel::Str(#[trigger] names[k])]
                && answer::in_filter(filter, names[k]),
        TaskModel::AwaitGroup(g) => exists|k: int|
            0 <= k < names.len() && g == #[trigger] names[k] && answer::in_filter(
                filter,
                names[k],
            ),
        TaskModel::Say(_) => true,
        _ => false,
    }
}

/// A task about one of the first groups is about one of all of them.
proof fn lemma_about_more(t: TaskModel, names: Seq<Seq<char>>, filter: Seq<Seq<char>>)
    requires
        names.len() > 0,
        is_about(t, names.drop_last(), filter),
    ensures
        is_about(t, names, filter),
{
    if let TaskModel::Call(_, params, _) = t {
        let front = names.drop_last();
        let k = choose|k: int|
            0 <= k < front.len() && params == seq![ValueModel::Str(#[trigger] front[k])]
                && answer::in_filter(filter, front[k]);
        assert(names[k] == front[k]);
    }
    if let TaskModel::AwaitGroup(g) = t {
        let front = names.drop_last();
        let k = choose|k: int|
            0 <= k < front.len() && g == #[trigger] front[k] && answer::in_filter(
                filter,
                front[k],
            );
        assert(names[k] == front[k]);
    }
}

/// A call about the last group is about one of all of them.
proof fn lemma_about_last(
    method: Seq<char>,
    report: ReportModel,
    names: Seq<Seq<char>>,
    filter: Seq<Seq<char>>,
)
    requires
        names.len() > 0,
        answer::in_filter(filter, names.last()),
    ensures
        is_about(plan::text_call(method, names.last(), report), names, filter),
        is_about(TaskModel::AwaitGroup(names.last()), names, filter),
{
    assert(names[names.len() - 1] == names.last());
}

proof fn lemma_removed_about(names: Seq<Seq<char>>, filter: Seq<Seq<char>>)
    ensures
        forall|i: int|
            0 <= i < answer::removed_tasks(names, filter).len() ==> is_about(
                #[trigger] answer::removed_tasks(names, filter)[i],
                names,
                filter,
            ),
    decreases names.len(),
{
    if names.len() > 0 {
        let n = names.last();
        let front = answer::removed_tasks(names.drop_last(), filter);
        let all = answer::removed_tasks(names, filter);
        lemma_removed_about(names.drop_last(), filter);
        assert forall|i: int| 0 <= i < all.len() implies is_about(
            #[trigger] all[i],
            names,
            filter,
        ) by {
            if i < front.len() {
                assert(all[i] == front[i]);
                lemma_about_more(front[i], names, filter);
            } else {
                lemma_about_last(
                    "supervisor.stopProcessGroup"@,
                    ReportModel::Quiet,
                    names,
                    filter,
                );
                lemma_about_last(
                    "supervisor.removeProcessGroup"@,
                    ReportModel::UpdateRemoved(n),
                    names,
                    filter,
                );
            }
        }
    }
}

proof fn lemma_changed_about(names: Seq<Seq<char>>, filter: Seq<Seq<char>>)
    ensures
        forall|i: int|
            0 <= i < answer::changed_tasks(names, filter).len() ==> is_about(
                #[trigger] answer::changed_tasks(names, filter)[i],
                names,
                filter,
            ),
    decreases names.len(),
{
    if names.len() > 0 {
        let front = answer::changed_tasks(names.drop_last(), filter);
        let all = answer::changed_tasks(names, filter);
        lemma_changed_about(names.drop_last(), filter);
        assert forall|i: int| 0 <= i < all.len() implies is_about(
            #[trigger] all[i],
            names,
            filter,
        ) by {
            if i < front.len() {
                assert(all[i] == front[i]);
                lemma_about_more(front[i], names, filter);
            } else {
                let quiet = ReportModel::Quiet;
                lemma_about_last("supervisor.stopProcessGroup"@, quiet, names, filter);
                lemma_about_last("supervisor.removeProcessGroup"@, quiet, names, filter);
                lemma_about_last("supervisor.addProcessGroup"@, quiet, names, filter);
            }
        }
    }
}

proof fn lemma_added_about(names: Seq<Seq<char>>, filter: Seq<Seq<char>>)
    ensures
        forall|i: int|
            0 <= i < answer::added_tasks(names, filter).len() ==> is_about(
                #[trigger] answer::added_tasks(names, filter)[i],
                names,
                filter,
            ),
    decreases names.len(),
{
    if names.len() > 0 {
        let n = names.last();
        let front = answer::added_tasks(names.drop_last(), filter);
        let all = answer::added_tasks(names, filter);
        lemma_added_about(names.drop_last(), filter);
        assert forall|i: int| 0 <= i < all.len() implies is_about(
            #[trigger] all[i],
            names,
            filter,
        ) by {
            if i < front.len() {
                assert(all[i] == front[i]);
                lemma_about_more(front[i], names, filter);
            } else {
                lemma_about_last(
                    "supervisor.addProcessGroup"@,
                    ReportModel::UpdateAdded(n),
                    names,
                    filter,
                );
            }
        }
    }
}

/// An update leaves alone every group that has not changed, and every group
/// that was not asked for: first it deals with groups that have gone, then
/// with those that have changed, and then with those that have come.
pub proof fn law_update_leaves_others_alone(d: DiffModel, filter: Seq<Seq<char>>)
    ensures
        ({
            let t = answer::update_tasks(d, filter);
            let a = answer::removed_tasks(d.removed, filter).len();
            let b = answer::changed_tasks(d.changed, filter).len();
            forall|i: int|
                0 <= i < t.len() ==> is_about(
                    #[trigger] t[i],
                    if i < a {
                        d.removed
                    } else if i < a + b {
                        d.changed
                    } else {
                        d.added
                    },
                    filter,
                )
        }),
{
    let x = answer::removed_tasks(d.removed, filter);
    let y = answer::changed_tasks(d.changed, filter);
    let z = answer::added_tasks(d.added, filter);
    let t = answer::update_tasks(d, filter);
    lemma_removed_about(d.removed, filter);
    lemma_changed_about(d.changed, filter);
    lemma_added_about(d.added, filter);
    assert forall|i: int| 0 <= i < t.len() implies is_about(
        #[trigger] t[i],
        if i < x.len() {
            d.removed
        } else if i < x.len() + y.len() {
            d.changed
        } else {
            d.added
        },
        filter,
    ) by {
        if i < x.len() {
            assert(t[i] == x[i]);
        } else if i < x.len() + y.len() {
            assert(t[i] == y[i - x.len()]);
        } else {
            assert(t[i] == z[i - x.len() - y.len()]);
        }
    }
}

/// Whether a task asks for the removal of a group.
pub open spec fn removes(t: TaskModel, group: Seq<char>) -> bool {
    match t {
        TaskModel::Call(method, params, _) => method == "supervisor.removeProcessGroup"@ && params
            == seq![ValueModel::Str(group)],
        _ => false,
    }
}

/// Whether no group is removed in a list of tasks before it was told to stop,
/// and all of it was waited for.
pub open spec fn waits_before_removing(t: Seq<TaskModel>) -> bool {
    forall|i: int, g: Seq<char>|
        0 <= i < t.len() && #[trigger] removes(t[i], g) ==> {
            &&& i >= 3
            &&& t[i - 3] == plan::text_call("supervisor.stopProcessGroup"@, g, ReportModel::Quiet)
            &&& t[i - 2] == TaskModel::AwaitGroup(g)
        }
}

/// Which calls of an update remove a group.
proof fn lemma_removing_calls(n: Seq<char>, report: ReportModel, g: Seq<char>)
    ensures
        !removes(plan::text_call("supervisor.stopProcessGroup"@, n, report), g),
        !removes(plan::text_call("supervisor.addProcessGroup"@, n, report), g),
        removes(plan::text_call("supervisor.removeProcessGroup"@, n, report), g) <==> n == g,
{
    reveal_strlit("supervisor.stopProcessGroup");
    reveal_strlit("supervisor.addProcessGroup");
    reveal_strlit("supervisor.removeProcessGroup");
    assert("supervisor.removeProcessGroup"@.len() == 29);
    assert("supervisor.stopProcessGroup"@.len() == 27);
    assert("supervisor.addProcessGroup"@.len() == 26);
    let a = seq![ValueModel::Str(n)];
    let b = seq![ValueModel::Str(g)];
    assert(a[0] == ValueModel::Str(n));
    assert(b[0] == ValueModel::Str(g));
}

/// Lists that wait before they remove make one that does.
proof fn lemma_joined_waits(a: Seq<TaskModel>, b: Seq<TaskModel>)
    requires
        waits_before_removing(a),
        waits_before_removing(b),
    ensures
        waits_before_removing(a + b),
{
    let t = a + b;
    assert forall|i: int, g: Seq<char>| 0 <= i < t.len() && #[trigger] removes(t[i], g) implies {
        &&& i >= 3
        &&& t[i - 3] == plan::text_call("supervisor.stopProcessGroup"@, g, ReportModel::Quiet)
        &&& t[i - 2] == TaskModel::AwaitGroup(g)
    } by {
        if i < a.len() {
            assert(removes(a[i], g));
        } else {
            assert(removes(b[i - a.len()], g));
        }
    }
}

/// What is done to one group waits before it removes.
proof fn lemma_one_waits(n: Seq<char>, report: ReportModel)
    ensures
        waits_before_removing(
            answer::group_stop(n).push(
                plan::text_call("supervisor.removeProcessGroup"@, n, report),
            ),
        ),
        waits_before_removing(
            seq![
                plan::text_call("supervisor.addProcessGroup"@, n, report),
                TaskModel::Say(ctl::done_line(n, "updated process group"@)),
            ],
        ),
        waits_before_removing(seq![plan::text_call("supervisor.addProcessGroup"@, n, report)]),
{
    assert forall|g: Seq<char>, r: ReportModel|
        !(#[trigger] removes(plan::text_call("supervisor.stopProcessGroup"@, n, r), g)) by {
        lemma_removing_calls(n, r, g);
    }
    assert forall|g: Seq<char>, r: ReportModel|
        !(#[trigger] removes(plan::text_call("supervisor.addProcessGroup"@, n, r), g)) by {
        lemma_removing_calls(n, r, g);
    }
    assert forall|g: Seq<char>, r: ReportModel| #[trigger]
        removes(plan::text_call("supervisor.removeProcessGroup"@, n, r), g) implies n == g by {
        lemma_removing_calls(n, r, g);
    }
}

proof fn lemma_removed_waits(names: Seq<Seq<char>>, filter: Seq<Seq<char>>)
    ensures
        waits_before_removing(answer::removed_tasks(names, filter)),
    decreases names.len(),
{
    if names.len() > 0 {
        let n = names.last();
        let report = ReportModel::UpdateRemoved(n);
        let front = answer::removed_tasks(names.drop_last(), filter);
        let last = answer::group_stop(n).push(
            plan::text_call("supervisor.removeProcessGroup"@, n, report),
        );
        lemma_removed_waits(names.drop_last(), filter);
        lemma_one_waits(n, report);
        lemma_joined_waits(front, last);
        if answer::in_filter(filter, n) {
            assert(answer::removed_tasks(names, filter) =~= front + last);
        }
    }
}

proof fn lemma_changed_waits(names: Seq<Seq<char>>, filter: Seq<Seq<char>>)
    ensures
        waits_before_removing(answer::changed_tasks(names, filter)),
    decreases names.len(),
{
    if names.len() > 0 {
        let n = names.last();
        let report = ReportModel::Quiet;
        let front = answer::changed_tasks(names.drop_last(), filter);
        let removal = answer::group_stop(n).push(
            plan::text_call("supervisor.removeProcessGroup"@, n, report),
        );
        let addition = seq![
            plan::text_call("supervisor.addProcessGroup"@, n, report),
            TaskModel::Say(ctl::done_line(n, "updated process group"@)),
        ];
        lemma_changed_waits(names.drop_last(), filter);
        lemma_one_waits(n, report);
        lemma_joined_waits(front, removal);
        lemma_joined_waits(front + removal, addition);
        if answer::in_filter(filter, n) {
            assert(answer::changed_tasks(names, filter) =~= front + removal + addition);
        }
    }
}

proof fn lemma_added_waits(names: Seq<Seq<char>>, filter: Seq<Seq<char>>)
    ensures
        waits_before_removing(answer::added_tasks(names, filter)),
    decreases names.len(),
{
    if names.len() > 0 {
        let n = names.last();
        let report = ReportModel::UpdateAdded(n);
        let front = answer::added_tasks(names.drop_last(), filter);
        let last = seq![plan::text_call("supervisor.addProcessGroup"@, n, report)];
        lemma_added_waits(names.drop_last(), filter);
        lemma_one_waits(n, report);
        lemma_joined_waits(front, last);
        if answer::in_filter(filter, n) {
            assert(answer::added_tasks(names, filter) =~= front + last);
        }
    }
}

/// An update removes no group before it has told the group to stop, and has
/// waited for all of it.
pub proof fn law_update_waits_before_it_removes(d: DiffModel, filter: Seq<Seq<char>>)
    ensures
        waits_before_removing(answer::update_tasks(d, filter)),
{
    let x = answer::removed_tasks(d.removed, filter);
    let y = answer::changed_tasks(d.changed, filter);
    let z = answer::added_tasks(d.added, filter);
    lemma_removed_waits(d.removed, filter);
    lemma_changed_waits(d.changed, filter);
    lemma_added_waits(d.added, filter);
    lemma_joined_waits(x, y);
    lemma_joined_waits(x + y, z);
}

/// A restart of the groups that have changed: each is stopped, waited for,
/// removed, and then added again, one after another.
pub proof fn law_changed_groups_are_restarted(names: Seq<Seq<char>>)
    ensures
        ({
            let t = answer::changed_tasks(names, Seq::empty());
            &&& t.len() == 6 * names.len()
            &&& forall|i: int|
                0 <= i < names.len() ==> {
                    let n = #[trigger] names[i];
                    let quiet = ReportModel::Quiet;
                    &&& t[6 * i] == plan::text_call("supervisor.stopProcessGroup"@, n, quiet)
                    &&& t[6 * i + 1] == TaskModel::AwaitGroup(n)
                    &&& t[6 * i + 3] == plan::text_call("supervisor.removeProcessGroup"@, n, quiet)
                    &&& t[6 * i + 4] == plan::text_call("supervisor.addProcessGroup"@, n, quiet)
                }
        }),
    decreases names.len(),
{
    if names.len() > 0 {
        let front = names.drop_last();
        let before = answer::changed_tasks(front, Seq::empty());
        let t = answer::changed_tasks(names, Seq::empty());
        let quiet = ReportModel::Quiet;
        law_changed_groups_are_restarted(front);
        assert forall|i: int| 0 <= i < names.len() implies {
            let n = #[trigger] names[i];
            &&& t[6 * i] == plan::text_call("supervisor.stopProcessGroup"@, n, quiet)
            &&& t[6 * i + 1] == TaskModel::AwaitGroup(n)
            &&& t[6 * i + 3] == plan::text_call("supervisor.removeProcessGroup"@, n, quiet)
            &&& t[6 * i + 4] == plan::text_call("supervisor.addProcessGroup"@, n, quiet)
        } by {
            if i < front.len() {
                assert(front[i] == names[i]);
                assert(t[6 * i] == before[6 * i]);
                assert(t[6 * i + 1] == before[6 * i + 1]);
                assert(t[6 * i + 3] == before[6 * i + 3]);
                assert(t[6 * i + 4] == before[6 * i + 4]);
            }
        }
    }
}

} // verus!
