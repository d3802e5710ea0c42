//! What holds of every call.
use crate::config::assemble::ConfigModel;
use crate::config::difference;
use crate::config::difference::DiffModel;
use crate::ctl;
use crate::ctl::answer;
use crate::daemon;
use crate::daemon::batch::BatchModel;
use crate::daemon::groups;
use crate::daemon::LogFileModel;
use crate::daemon::SupervisorModel;
use crate::number;
use crate::process;
use crate::process::command;
use crate::process::info::InfoModel;
use crate::process::info::LocalTime;
use crate::process::machine;
use crate::process::machine::ProcessModel;
use crate::process::machine::Request;
use crate::process::machine::Stream;
use crate::rpc;
use crate::rpc::PendingModel;
use crate::rpc::QueryModel;
use crate::rpc::Shape;
use crate::states;
use crate::text;
use crate::util;
use crate::xmlrpc;
use crate::xmlrpc::ValueModel;
use vstd::prelude::*;
use vstd::utf8;

verus! {

/// The namespace in front of a method name may be left out.
pub proof fn law_namespace_is_optional(
    s: SupervisorModel,
    name: Seq<char>,
    params: Seq<ValueModel>,
    epoch: i64,
    stops: Seq<LocalTime>,
    pid: i32,
)
    requires
        !text::has_prefix(name, "supervisor."@),
    ensures
        rpc::dispatched(s, "supervisor."@ + name, params, epoch, stops, pid) == rpc::dispatched(
            s,
            name,
            params,
            epoch,
            stops,
            pid,
        ),
{
    reveal_strlit("supervisor.");
    let full = "supervisor."@ + name;
    assert(full.take(11) =~= "supervisor."@);
    assert(full.skip(11) =~= name);
}

/// No call but `shutdown`, `restart` and `removeProcessGroup` changes the
/// supervisor by itself.
pub proof fn law_calls_change_nothing_by_themselves(
    s: SupervisorModel,
    method: Seq<char>,
    params: Seq<ValueModel>,
    epoch: i64,
    stops: Seq<LocalTime>,
    pid: i32,
)
    requires
        rpc::bare_name(method) != "shutdown"@,
        rpc::bare_name(method) != "restart"@,
        rpc::bare_name(method) != "removeProcessGroup"@,
    ensures
        rpc::dispatched(s, method, params, epoch, stops, pid).0 == s,
{
}

/// After a call for a shutdown the supervisor says that it shuts down, and
/// goes by it.
pub proof fn law_shutdown_is_announced(
    s: SupervisorModel,
    params: Seq<ValueModel>,
    epoch: i64,
    stops: Seq<LocalTime>,
    pid: i32,
)
    ensures
        ({
            let (t, p) = rpc::dispatched(s, "shutdown"@, params, epoch, stops, pid);
            &&& p == PendingModel::Reply(Ok(ValueModel::Bool(true)))
            &&& t.processes == s.processes
            &&& daemon::overall_state(t) is Shutdown
            &&& rpc::dispatched(t, "getState"@, params, epoch, stops, pid).1
                == PendingModel::Reply(
                Ok(
                    ValueModel::Struct(
                        seq![
                            ("statecode"@, ValueModel::Int(-1)),
                            ("statename"@, ValueModel::Str("SHUTDOWN"@)),
                        ],
                    ),
                ),
            )
        }),
{
    reveal_strlit("supervisor.");
    reveal_strlit("shutdown");
    reveal_strlit("restart");
    reveal_strlit("getState");
    reveal_strlit("getAPIVersion");
    reveal_strlit("getVersion");
    reveal_strlit("getSupervisorVersion");
    reveal_strlit("getIdentification");
    reveal_strlit("getPID");
    reveal_strlit("getAllProcessInfo");
    reveal_strlit("getProcessInfo");
    reveal_strlit("startProcess");
    reveal_strlit("stopProcess");
    reveal_strlit("startProcessGroup");
    reveal_strlit("stopProcessGroup");
    reveal_strlit("startAllProcesses");
    reveal_strlit("stopAllProcesses");
    reveal_strlit("readProcessStdoutLog");
    reveal_strlit("readProcessLog");
    reveal_strlit("readProcessStderrLog");
    reveal_strlit("tailProcessStdoutLog");
    reveal_strlit("tailProcessStderrLog");
    reveal_strlit("reloadConfig");
    reveal_strlit("addProcessGroup");
    reveal_strlit("removeProcessGroup");
    assert(!text::has_prefix("shutdown"@, "supervisor."@));
    assert(!text::has_prefix("getState"@, "supervisor."@));
    assert("shutdown"@.len() == 8 && "shutdown"@[0] == 's');
    assert("getState"@.len() == 8 && "getState"@[0] == 'g');
}

/// The members of a struct, one by one, make it fit to be written.
proof fn lemma_members_sound(s: Seq<(Seq<char>, ValueModel)>)
    requires
        forall|i: int| 0 <= i < s.len() ==> xmlrpc::laws::sound((#[trigger] s[i]).1),
    ensures
        xmlrpc::laws::members_sound(s),
    decreases s.len(),
{
    if s.len() > 0 {
        let t = s.subrange(1, s.len() as int);
        assert forall|i: int| 0 <= i < t.len() implies xmlrpc::laws::sound((#[trigger] t[i]).1) by {
            assert(t[i] == s[i + 1]);
        }
        lemma_members_sound(t);
    }
}

/// The items of a list, one by one, make it fit to be written.
proof fn lemma_items_sound(s: Seq<ValueModel>)
    requires
        forall|i: int| 0 <= i < s.len() ==> xmlrpc::laws::sound(#[trigger] s[i]),
    ensures
        xmlrpc::laws::all_sound(s),
    decreases s.len(),
{
    if s.len() > 0 {
        let t = s.subrange(1, s.len() as int);
        assert forall|i: int| 0 <= i < t.len() implies xmlrpc::laws::sound(#[trigger] t[i]) by {
            assert(t[i] == s[i + 1]);
        }
        lemma_items_sound(t);
    }
}

/// A snapshot is fit to be written.
proof fn lemma_info_sound(i: InfoModel)
    ensures
        xmlrpc::laws::sound(rpc::info_value(i)),
{
    lemma_members_sound(rpc::info_value(i)->Struct_0);
}

/// The outcome of an operation is fit to be written.
proof fn lemma_result_sound(
    name: Seq<char>,
    group: Seq<char>,
    status: i32,
    description: Seq<char>,
)
    ensures
        xmlrpc::laws::sound(rpc::result_value(name, group, status, description)),
{
    lemma_members_sound(rpc::result_value(name, group, status, description)->Struct_0);
}

/// Every answer that is given at once is fit to be written, so that the client
/// receives it.
pub proof fn law_answers_can_be_written(
    s: SupervisorModel,
    method: Seq<char>,
    params: Seq<ValueModel>,
    epoch: i64,
    stops: Seq<LocalTime>,
    pid: i32,
)
    ensures
        match rpc::dispatched(s, method, params, epoch, stops, pid).1 {
            PendingModel::Reply(Ok(v)) => xmlrpc::laws::sound(v),
            _ => true,
        },
{
    let name = rpc::bare_name(method);
    if name == "getState"@ {
        let state = daemon::overall_state(s);
        lemma_members_sound(
            seq![
                ("statecode"@, ValueModel::Int(states::supervisor_code(state) as int)),
                ("statename"@, ValueModel::Str(states::supervisor_name(state))),
            ],
        );
    }
    let infos = daemon::snapshots(s.processes, epoch, stops);
    let items = rpc::info_values(infos);
    assert forall|k: int| 0 <= k < items.len() implies xmlrpc::laws::sound(#[trigger] items[k]) by {
        lemma_info_sound(infos[k]);
    }
    lemma_items_sound(items);
    assert forall|i: InfoModel| xmlrpc::laws::sound(#[trigger] rpc::info_value(i)) by {
        lemma_info_sound(i);
    }
}

/// Every answer that reports outcomes is fit to be written, so that the client
/// receives it.
pub proof fn law_outcomes_can_be_written(b: BatchModel, shape: Shape, ps: Seq<ProcessModel>)
    requires
        shape is Truth ==> b.outcomes.len() >= 1,
    ensures
        rpc::run_answer(b, shape, ps) is Ok ==> xmlrpc::laws::sound(
            rpc::run_answer(b, shape, ps)->Ok_0,
        ),
{
    match shape {
        Shape::Truth => {},
        Shape::All => {
            let es = daemon::batch::entries(b, ps);
            let items = rpc::entry_values(es);
            assert forall|k: int| 0 <= k < items.len() implies xmlrpc::laws::sound(
                #[trigger] items[k],
            ) by {
                lemma_result_sound(es[k].0, es[k].1, es[k].2, es[k].3);
            }
            lemma_items_sound(items);
        },
    }
}

/// Every answer that reports outcomes for a group is fit to be written, so that
/// the client receives it.
pub proof fn law_group_outcomes_can_be_written(b: BatchModel, group: Seq<char>)
    ensures
        xmlrpc::laws::sound(rpc::group_answer(b, group)),
{
    let items = rpc::group_answer(b, group)->Array_0;
    assert forall|k: int| 0 <= k < items.len() implies xmlrpc::laws::sound(#[trigger] items[k]) by {
        lemma_result_sound(
            b.names[k],
            group,
            daemon::batch::outcome_code(b.outcomes[k]),
            rpc::group_text(b.verb, b.outcomes[k]),
        );
    }
    lemma_items_sound(items);
}

/// What the client reads off a snapshot: the group, and whether the process has
/// stopped.
proof fn lemma_snapshot_is_read(i: InfoModel)
    ensures
        ctl::member_words(rpc::info_value(i), "group"@) == i.group,
        ctl::member_number(rpc::info_value(i), "state"@) == i.state,
{
    reveal_strlit("name");
    reveal_strlit("group");
    reveal_strlit("start");
    reveal_strlit("stop");
    reveal_strlit("now");
    reveal_strlit("state");
    assert("name"@.len() == 4 && "group"@.len() == 5 && "start"@.len() == 5);
    assert("stop"@.len() == 4 && "now"@.len() == 3 && "state"@.len() == 5);
    assert("group"@[0] == 'g');
    assert("start"@[3] == 'r');
    assert("state"@[0] == 's');
    assert("state"@[3] == 't');
    let m = rpc::info_value(i)->Struct_0;
    let group = "group"@;
    let state = "state"@;
    let m1 = m.skip(1);
    let m2 = m1.skip(1);
    let m3 = m2.skip(1);
    let m4 = m3.skip(1);
    let m5 = m4.skip(1);
    assert(m1[0] == m[1] && m2[0] == m[2] && m3[0] == m[3] && m4[0] == m[4] && m5[0] == m[5]);
    assert(xmlrpc::member_value(m, group) == xmlrpc::member_value(m1, group));
    assert(xmlrpc::member_value(m1, group) == Some(m[1].1));
    assert(xmlrpc::member_value(m, state) == xmlrpc::member_value(m1, state));
    assert(xmlrpc::member_value(m1, state) == xmlrpc::member_value(m2, state));
    assert(xmlrpc::member_value(m2, state) == xmlrpc::member_value(m3, state));
    assert(xmlrpc::member_value(m3, state) == xmlrpc::member_value(m4, state));
    assert(xmlrpc::member_value(m4, state) == xmlrpc::member_value(m5, state));
    assert(xmlrpc::member_value(m5, state) == Some(m[5].1));
}

/// A client that has waited for a group can have it removed: where the
/// snapshots show that all of the group has stopped, its removal succeeds.
pub proof fn law_settled_group_can_be_removed(
    s: SupervisorModel,
    group: Seq<char>,
    epoch: i64,
    stops: Seq<LocalTime>,
)
    requires
        difference::has_group(s.config.programs, group),
        forall|i: int|
            0 <= i < s.processes.len() ==> process::laws::pid_is_live(#[trigger] s.processes[i]),
        answer::group_is_settled(
            group,
            ValueModel::Array(rpc::info_values(daemon::snapshots(s.processes, epoch, stops))),
        ),
    ensures
        groups::removal(s, group) is Ok,
{
    let infos = daemon::snapshots(s.processes, epoch, stops);
    let v = ValueModel::Array(rpc::info_values(infos));
    let items = ctl::value_items(v);
    assert forall|i: int|
        0 <= i < s.processes.len() && (#[trigger] s.processes[i]).config.group
            == group implies s.processes[i].pid == 0 && states::is_down(s.processes[i].state) by {
        let p = s.processes[i];
        lemma_snapshot_is_read(infos[i]);
        assert(items[i] == rpc::info_value(infos[i]));
        assert(infos[i] == machine::snapshot(p, epoch, stops[i]));
        assert(ctl::member_words(items[i], "group"@) == group);
        assert(answer::is_settled(items[i]));
        assert(process::laws::pid_is_live(p));
    }
}

/// Every answer that gives a part of a log is fit to be written, so that the
/// client receives it.
pub proof fn law_log_answers_can_be_written(q: QueryModel, s: SupervisorModel, file: LogFileModel)
    requires
        i64::MIN <= q.offset <= i64::MAX,
    ensures
        rpc::read_answer(q, s, file) is Ok ==> xmlrpc::laws::sound(
            rpc::read_answer(q, s, file)->Ok_0,
        ),
{
    if q.tail {
        lemma_items_sound(rpc::read_answer(q, s, file)->Ok_0->Array_0);
    }
}

/// The client reads what a new configuration changes as the daemon found it,
/// and the answer is fit to be written, so that the client receives it.
pub proof fn law_difference_is_understood(d: DiffModel)
    ensures
        answer::diff_in(rpc::diff_value(d)) == Some(d),
        xmlrpc::laws::sound(rpc::diff_value(d)),
{
    let v = rpc::diff_value(d);
    let triple = v->Array_0[0]->Array_0;
    assert(ctl::word_list(rpc::names_value(d.added)) =~= d.added);
    assert(ctl::word_list(rpc::names_value(d.changed)) =~= d.changed);
    assert(ctl::word_list(rpc::names_value(d.removed)) =~= d.removed);
    assert forall|names: Seq<Seq<char>>| xmlrpc::laws::sound(#[trigger] rpc::names_value(names)) by {
        let items = rpc::names_value(names)->Array_0;
        assert forall|i: int| 0 <= i < items.len() implies xmlrpc::laws::sound(
            #[trigger] items[i],
        ) by {
            assert(items[i] == ValueModel::Str(names[i]));
        }
        lemma_items_sound(items);
    }
    lemma_items_sound(triple);
    assert(xmlrpc::laws::sound(ValueModel::Array(triple)));
    lemma_items_sound(v->Array_0);
}

/// A configuration that cannot be read changes nothing.
pub proof fn law_unreadable_configuration_changes_nothing(s: SupervisorModel, e: Seq<char>)
    ensures
        rpc::reloaded(s, Err(e)).0 == s,
        rpc::reloaded(s, Err(e)).1 is Err,
{
}

/// Following a log: a tail gives the text from the offset on, and the offset at
/// which to go on, if the log is text.
pub proof fn law_tail_can_be_followed(q: QueryModel, s: SupervisorModel, t: Seq<char>, d: Seq<u8>)
    requires
        q.tail,
        0 <= q.offset <= d.len() <= i64::MAX,
        daemon::found(s.processes, q.name) is Some,
        daemon::log_path_of(
            s.processes[daemon::found(s.processes, q.name)->0],
            q.channel,
        ).len() > 0,
        daemon::log_slice(d, q.offset, q.length) == utf8::encode_utf8(t),
    ensures
        ({
            let r = rpc::read_answer(q, s, LogFileModel::Data(d));
            let shown = daemon::log_slice(d, q.offset, q.length);
            &&& r is Ok
            &&& r->Ok_0 is Array
            &&& r->Ok_0->Array_0.len() == 3
            &&& r->Ok_0->Array_0[0] == ValueModel::Str(t)
            &&& r->Ok_0->Array_0[1] == ValueModel::Int((q.offset + shown.len()) as int)
            &&& d.skip(q.offset) == shown + d.skip((q.offset + shown.len()) as int)
        }),
{
    util::law_text_round_trip(t);
    let shown = daemon::log_slice(d, q.offset, q.length);
    assert(d.skip(q.offset) =~= shown + d.skip((q.offset + shown.len()) as int));
}

// ---------------------------------------------------------------------------
// The methods
// ---------------------------------------------------------------------------

/// What tells the methods apart.
proof fn lemma_method_names()
    ensures
        "getAPIVersion"@.len() == 13,
        "getVersion"@.len() == 10,
        "getSupervisorVersion"@.len() == 20,
        "getIdentification"@.len() == 17,
        "getState"@.len() == 8,
        "getPID"@.len() == 6,
        "getAllProcessInfo"@.len() == 17,
        "getProcessInfo"@.len() == 14,
        "startProcess"@.len() == 12,
        "stopProcess"@.len() == 11,
        "startProcessGroup"@.len() == 17,
        "stopProcessGroup"@.len() == 16,
        "startAllProcesses"@.len() == 17,
        "stopAllProcesses"@.len() == 16,
        "readProcessStdoutLog"@.len() == 20,
        "readProcessLog"@.len() == 14,
        "readProcessStderrLog"@.len() == 20,
        "tailProcessStdoutLog"@.len() == 20,
        "tailProcessStderrLog"@.len() == 20,
        "reloadConfig"@.len() == 12,
        "addProcessGroup"@.len() == 15,
        "removeProcessGroup"@.len() == 18,
        "shutdown"@.len() == 8,
        "restart"@.len() == 7,
        "getSupervisorVersion"@[0] == 'g',
        "getIdentification"@[0] == 'g',
        "getIdentification"@[3] == 'I',
        "getState"@[0] == 'g',
        "getAllProcessInfo"@[0] == 'g',
        "getAllProcessInfo"@[3] == 'A',
        "getProcessInfo"@[0] == 'g',
        "startProcess"@[0] == 's',
        "startProcessGroup"@[0] == 's',
        "startProcessGroup"@[5] == 'P',
        "stopProcessGroup"@[4] == 'P',
        "startAllProcesses"@[0] == 's',
        "startAllProcesses"@[5] == 'A',
        "stopAllProcesses"@[4] == 'A',
        "readProcessStdoutLog"@[0] == 'r',
        "readProcessStdoutLog"@[14] == 'o',
        "readProcessLog"@[0] == 'r',
        "readProcessStderrLog"@[0] == 'r',
        "readProcessStderrLog"@[14] == 'e',
        "tailProcessStdoutLog"@[0] == 't',
        "tailProcessStdoutLog"@[14] == 'o',
        "tailProcessStderrLog"@[0] == 't',
        "tailProcessStderrLog"@[14] == 'e',
        "reloadConfig"@[0] == 'r',
        "shutdown"@[0] == 's',
{
    reveal_strlit("getAPIVersion");
    reveal_strlit("getVersion");
    reveal_strlit("getSupervisorVersion");
    reveal_strlit("getIdentification");
    reveal_strlit("getState");
    reveal_strlit("getPID");
    reveal_strlit("getAllProcessInfo");
    reveal_strlit("getProcessInfo");
    reveal_strlit("startProcess");
    reveal_strlit("stopProcess");
    reveal_strlit("startProcessGroup");
    reveal_strlit("stopProcessGroup");
    reveal_strlit("startAllProcesses");
    reveal_strlit("stopAllProcesses");
    reveal_strlit("readProcessStdoutLog");
    reveal_strlit("readProcessLog");
    reveal_strlit("readProcessStderrLog");
    reveal_strlit("tailProcessStdoutLog");
    reveal_strlit("tailProcessStderrLog");
    reveal_strlit("reloadConfig");
    reveal_strlit("addProcessGroup");
    reveal_strlit("removeProcessGroup");
    reveal_strlit("shutdown");
    reveal_strlit("restart");
}

/// A method with the namespace in front.
proof fn lemma_in_namespace(full: Seq<char>, name: Seq<char>)
    requires
        full == "supervisor."@ + name,
    ensures
        rpc::bare_name(full) == name,
{
    reveal_strlit("supervisor.");
    assert(full.take(11) =~= "supervisor."@);
    assert(full.skip(11) =~= name);
}

/// Methods by their full names.
proof fn lemma_full_names_a()
    ensures
        rpc::bare_name("supervisor.getAPIVersion"@) == "getAPIVersion"@,
        rpc::bare_name("supervisor.getVersion"@) == "getVersion"@,
        rpc::bare_name("supervisor.getSupervisorVersion"@) == "getSupervisorVersion"@,
        rpc::bare_name("supervisor.getIdentification"@) == "getIdentification"@,
        rpc::bare_name("supervisor.getState"@) == "getState"@,
        rpc::bare_name("supervisor.getPID"@) == "getPID"@,
{
    reveal_strlit("supervisor.");
    reveal_strlit("getAPIVersion");
    reveal_strlit("supervisor.getAPIVersion");
    assert("supervisor.getAPIVersion"@ =~= "supervisor."@ + "getAPIVersion"@);
    lemma_in_namespace("supervisor.getAPIVersion"@, "getAPIVersion"@);
    reveal_strlit("getVersion");
    reveal_strlit("supervisor.getVersion");
    assert("supervisor.getVersion"@ =~= "supervisor."@ + "getVersion"@);
    lemma_in_namespace("supervisor.getVersion"@, "getVersion"@);
    reveal_strlit("getSupervisorVersion");
    reveal_strlit("supervisor.getSupervisorVersion");
    assert("supervisor.getSupervisorVersion"@ =~= "supervisor."@ + "getSupervisorVersion"@);
    lemma_in_namespace("supervisor.getSupervisorVersion"@, "getSupervisorVersion"@);
    reveal_strlit("getIdentification");
    reveal_strlit("supervisor.getIdentification");
    assert("supervisor.getIdentification"@ =~= "supervisor."@ + "getIdentification"@);
    lemma_in_namespace("supervisor.getIdentification"@, "getIdentification"@);
    reveal_strlit("getState");
    reveal_strlit("supervisor.getState");
    assert("supervisor.getState"@ =~= "supervisor."@ + "getState"@);
    lemma_in_namespace("supervisor.getState"@, "getState"@);
    reveal_strlit("getPID");
    reveal_strlit("supervisor.getPID");
    assert("supervisor.getPID"@ =~= "supervisor."@ + "getPID"@);
    lemma_in_namespace("supervisor.getPID"@, "getPID"@);
}

/// Methods by their full names.
proof fn lemma_full_names_b()
    ensures
        rpc::bare_name("supervisor.getAllProcessInfo"@) == "getAllProcessInfo"@,
        rpc::bare_name("supervisor.getProcessInfo"@) == "getProcessInfo"@,
        rpc::bare_name("supervisor.startProcess"@) == "startProcess"@,
        rpc::bare_name("supervisor.stopProcess"@) == "stopProcess"@,
        rpc::bare_name("supervisor.startProcessGroup"@) == "startProcessGroup"@,
        rpc::bare_name("supervisor.stopProcessGroup"@) == "stopProcessGroup"@,
{
    reveal_strlit("supervisor.");
    reveal_strlit("getAllProcessInfo");
    reveal_strlit("supervisor.getAllProcessInfo");
    assert("supervisor.getAllProcessInfo"@ =~= "supervisor."@ + "getAllProcessInfo"@);
    lemma_in_namespace("supervisor.getAllProcessInfo"@, "getAllProcessInfo"@);
    reveal_strlit("getProcessInfo");
    reveal_strlit("supervisor.getProcessInfo");
    assert("supervisor.getProcessInfo"@ =~= "supervisor."@ + "getProcessInfo"@);
    lemma_in_namespace("supervisor.getProcessInfo"@, "getProcessInfo"@);
    reveal_strlit("startProcess");
    reveal_strlit("supervisor.startProcess");
    assert("supervisor.startProcess"@ =~= "supervisor."@ + "startProcess"@);
    lemma_in_namespace("supervisor.startProcess"@, "startProcess"@);
    reveal_strlit("stopProcess");
    reveal_strlit("supervisor.stopProcess");
    assert("supervisor.stopProcess"@ =~= "supervisor."@ + "stopProcess"@);
    lemma_in_namespace("supervisor.stopProcess"@, "stopProcess"@);
    reveal_strlit("startProcessGroup");
    reveal_strlit("supervisor.startProcessGroup");
    assert("supervisor.startProcessGroup"@ =~= "supervisor."@ + "startProcessGroup"@);
    lemma_in_namespace("supervisor.startProcessGroup"@, "startProcessGroup"@);
    reveal_strlit("stopProcessGroup");
    reveal_strlit("supervisor.stopProcessGroup");
    assert("supervisor.stopProcessGroup"@ =~= "supervisor."@ + "stopProcessGroup"@);
    lemma_in_namespace("supervisor.stopProcessGroup"@, "stopProcessGroup"@);
}

/// Methods by their full names.
proof fn lemma_full_names_c()
    ensures
        rpc::bare_name("supervisor.startAllProcesses"@) == "startAllProcesses"@,
        rpc::bare_name("supervisor.stopAllProcesses"@) == "stopAllProcesses"@,
        rpc::bare_name("supervisor.readProcessStdoutLog"@) == "readProcessStdoutLog"@,
        rpc::bare_name("supervisor.readProcessLog"@) == "readProcessLog"@,
        rpc::bare_name("supervisor.readProcessStderrLog"@) == "readProcessStderrLog"@,
        rpc::bare_name("supervisor.tailProcessStdoutLog"@) == "tailProcessStdoutLog"@,
{
    reveal_strlit("supervisor.");
    reveal_strlit("startAllProcesses");
    reveal_strlit("supervisor.startAllProcesses");
    assert("supervisor.startAllProcesses"@ =~= "supervisor."@ + "startAllProcesses"@);
    lemma_in_namespace("supervisor.startAllProcesses"@, "startAllProcesses"@);
    reveal_strlit("stopAllProcesses");
    reveal_strlit("supervisor.stopAllProcesses");
    assert("supervisor.stopAllProcesses"@ =~= "supervisor."@ + "stopAllProcesses"@);
    lemma_in_namespace("supervisor.stopAllProcesses"@, "stopAllProcesses"@);
    reveal_strlit("readProcessStdoutLog");
    reveal_strlit("supervisor.readProcessStdoutLog");
    assert("supervisor.readProcessStdoutLog"@ =~= "supervisor."@ + "readProcessStdoutLog"@);
    lemma_in_namespace("supervisor.readProcessStdoutLog"@, "readProcessStdoutLog"@);
    reveal_strlit("readProcessLog");
    reveal_strlit("supervisor.readProcessLog");
    assert("supervisor.readProcessLog"@ =~= "supervisor."@ + "readProcessLog"@);
    lemma_in_namespace("supervisor.readProcessLog"@, "readProcessLog"@);
    reveal_strlit("readProcessStderrLog");
    reveal_strlit("supervisor.readProcessStderrLog");
    assert("supervisor.readProcessStderrLog"@ =~= "supervisor."@ + "readProcessStderrLog"@);
    lemma_in_namespace("supervisor.readProcessStderrLog"@, "readProcessStderrLog"@);
    reveal_strlit("tailProcessStdoutLog");
    reveal_strlit("supervisor.tailProcessStdoutLog");
    assert("supervisor.tailProcessStdoutLog"@ =~= "supervisor."@ + "tailProcessStdoutLog"@);
    lemma_in_namespace("supervisor.tailProcessStdoutLog"@, "tailProcessStdoutLog"@);
}

/// Methods by their full names.
proof fn lemma_full_names_d()
    ensures
        rpc::bare_name("supervisor.tailProcessStderrLog"@) == "tailProcessStderrLog"@,
        rpc::bare_name("supervisor.reloadConfig"@) == "reloadConfig"@,
        rpc::bare_name("supervisor.addProcessGroup"@) == "addProcessGroup"@,
        rpc::bare_name("supervisor.removeProcessGroup"@) == "removeProcessGroup"@,
        rpc::bare_name("supervisor.shutdown"@) == "shutdown"@,
        rpc::bare_name("supervisor.restart"@) == "restart"@,
{
    reveal_strlit("supervisor.");
    reveal_strlit("tailProcessStderrLog");
    reveal_strlit("supervisor.tailProcessStderrLog");
    assert("supervisor.tailProcessStderrLog"@ =~= "supervisor."@ + "tailProcessStderrLog"@);
    lemma_in_namespace("supervisor.tailProcessStderrLog"@, "tailProcessStderrLog"@);
    reveal_strlit("reloadConfig");
    reveal_strlit("supervisor.reloadConfig");
    assert("supervisor.reloadConfig"@ =~= "supervisor."@ + "reloadConfig"@);
    lemma_in_namespace("supervisor.reloadConfig"@, "reloadConfig"@);
    reveal_strlit("addProcessGroup");
    reveal_strlit("supervisor.addProcessGroup");
    assert("supervisor.addProcessGroup"@ =~= "supervisor."@ + "addProcessGroup"@);
    lemma_in_namespace("supervisor.addProcessGroup"@, "addProcessGroup"@);
    reveal_strlit("removeProcessGroup");
    reveal_strlit("supervisor.removeProcessGroup");
    assert("supervisor.removeProcessGroup"@ =~= "supervisor."@ + "removeProcessGroup"@);
    lemma_in_namespace("supervisor.removeProcessGroup"@, "removeProcessGroup"@);
    reveal_strlit("shutdown");
    reveal_strlit("supervisor.shutdown");
    assert("supervisor.shutdown"@ =~= "supervisor."@ + "shutdown"@);
    lemma_in_namespace("supervisor.shutdown"@, "shutdown"@);
    reveal_strlit("restart");
    reveal_strlit("supervisor.restart");
    assert("supervisor.restart"@ =~= "supervisor."@ + "restart"@);
    lemma_in_namespace("supervisor.restart"@, "restart"@);
}

/// The methods by their full names, and what tells them apart.
pub proof fn lemma_methods()
    ensures
        rpc::bare_name("supervisor.getAPIVersion"@) == "getAPIVersion"@,
        rpc::bare_name("supervisor.getVersion"@) == "getVersion"@,
        rpc::bare_name("supervisor.getSupervisorVersion"@) == "getSupervisorVersion"@,
        rpc::bare_name("supervisor.getIdentification"@) == "getIdentification"@,
        rpc::bare_name("supervisor.getState"@) == "getState"@,
        rpc::bare_name("supervisor.getPID"@) == "getPID"@,
        rpc::bare_name("supervisor.getAllProcessInfo"@) == "getAllProcessInfo"@,
        rpc::bare_name("supervisor.getProcessInfo"@) == "getProcessInfo"@,
        rpc::bare_name("supervisor.startProcess"@) == "startProcess"@,
        rpc::bare_name("supervisor.stopProcess"@) == "stopProcess"@,
        rpc::bare_name("supervisor.startProcessGroup"@) == "startProcessGroup"@,
        rpc::bare_name("supervisor.stopProcessGroup"@) == "stopProcessGroup"@,
        rpc::bare_name("supervisor.startAllProcesses"@) == "startAllProcesses"@,
        rpc::bare_name("supervisor.stopAllProcesses"@) == "stopAllProcesses"@,
        rpc::bare_name("supervisor.readProcessStdoutLog"@) == "readProcessStdoutLog"@,
        rpc::bare_name("supervisor.readProcessLog"@) == "readProcessLog"@,
        rpc::bare_name("supervisor.readProcessStderrLog"@) == "readProcessStderrLog"@,
        rpc::bare_name("supervisor.tailProcessStdoutLog"@) == "tailProcessStdoutLog"@,
        rpc::bare_name("supervisor.tailProcessStderrLog"@) == "tailProcessStderrLog"@,
        rpc::bare_name("supervisor.reloadConfig"@) == "reloadConfig"@,
        rpc::bare_name("supervisor.addProcessGroup"@) == "addProcessGroup"@,
        rpc::bare_name("supervisor.removeProcessGroup"@) == "removeProcessGroup"@,
        rpc::bare_name("supervisor.shutdown"@) == "shutdown"@,
        rpc::bare_name("supervisor.restart"@) == "restart"@,
        "getAPIVersion"@.len() == 13,
        "getVersion"@.len() == 10,
        "getSupervisorVersion"@.len() == 20,
        "getIdentification"@.len() == 17,
        "getState"@.len() == 8,
        "getPID"@.len() == 6,
        "getAllProcessInfo"@.len() == 17,
        "getProcessInfo"@.len() == 14,
        "startProcess"@.len() == 12,
        "stopProcess"@.len() == 11,
        "startProcessGroup"@.len() == 17,
        "stopProcessGroup"@.len() == 16,
        "startAllProcesses"@.len() == 17,
        "stopAllProcesses"@.len() == 16,
        "readProcessStdoutLog"@.len() == 20,
        "readProcessLog"@.len() == 14,
        "readProcessStderrLog"@.len() == 20,
        "tailProcessStdoutLog"@.len() == 20,
        "tailProcessStderrLog"@.len() == 20,
        "reloadConfig"@.len() == 12,
        "addProcessGroup"@.len() == 15,
        "removeProcessGroup"@.len() == 18,
        "shutdown"@.len() == 8,
        "restart"@.len() == 7,
        "getSupervisorVersion"@[0] == 'g',
        "getIdentification"@[0] == 'g',
        "getIdentification"@[3] == 'I',
        "getState"@[0] == 'g',
        "getAllProcessInfo"@[0] == 'g',
        "getAllProcessInfo"@[3] == 'A',
        "getProcessInfo"@[0] == 'g',
        "startProcess"@[0] == 's',
        "startProcessGroup"@[0] == 's',
        "startProcessGroup"@[5] == 'P',
        "stopProcessGroup"@[4] == 'P',
        "startAllProcesses"@[0] == 's',
        "startAllProcesses"@[5] == 'A',
        "stopAllProcesses"@[4] == 'A',
        "readProcessStdoutLog"@[0] == 'r',
        "readProcessStdoutLog"@[14] == 'o',
        "readProcessLog"@[0] == 'r',
        "readProcessStderrLog"@[0] == 'r',
        "readProcessStderrLog"@[14] == 'e',
        "tailProcessStdoutLog"@[0] == 't',
        "tailProcessStdoutLog"@[14] == 'o',
        "tailProcessStderrLog"@[0] == 't',
        "tailProcessStderrLog"@[14] == 'e',
        "reloadConfig"@[0] == 'r',
        "shutdown"@[0] == 's',
{
    lemma_method_names();
    lemma_full_names_a();
    lemma_full_names_b();
    lemma_full_names_c();
    lemma_full_names_d();
}

/// A call to start or to stop a process leads to that operation on it, and to
/// nothing else.
pub proof fn law_start_and_stop_calls(
    s: SupervisorModel,
    name: Seq<char>,
    params: Seq<ValueModel>,
    epoch: i64,
    stops: Seq<LocalTime>,
    pid: i32,
)
    requires
        params.len() > 0,
        params[0] == ValueModel::Str(name),
    ensures
        ({
            let start = rpc::dispatched(s, "supervisor.startProcess"@, params, epoch, stops, pid);
            let stop = rpc::dispatched(s, "supervisor.stopProcess"@, params, epoch, stops, pid);
            &&& start.0 == s && stop.0 == s
            &&& start.1 is Run && stop.1 is Run
            &&& start.1->Run_1 is Truth && stop.1->Run_1 is Truth
            &&& start.1->Run_0.verb is Start && stop.1->Run_0.verb is Stop
            &&& start.1->Run_0.names == seq![name] && stop.1->Run_0.names == seq![name]
            &&& start.1->Run_0.outcomes.len() == 0 && stop.1->Run_0.outcomes.len() == 0
            &&& start.1->Run_0.stage is Begin && stop.1->Run_0.stage is Begin
        }),
{
    lemma_methods();
}

/// A call to start every process leads to a start operation on every process by
/// name, in order, and a call to stop every process to a stop operation.
pub proof fn law_start_and_stop_all_calls(
    s: SupervisorModel,
    params: Seq<ValueModel>,
    epoch: i64,
    stops: Seq<LocalTime>,
    pid: i32,
    i: int,
)
    requires
        0 <= i < s.processes.len(),
    ensures
        ({
            let start = rpc::dispatched(
                s,
                "supervisor.startAllProcesses"@,
                params,
                epoch,
                stops,
                pid,
            );
            let stop = rpc::dispatched(
                s,
                "supervisor.stopAllProcesses"@,
                params,
                epoch,
                stops,
                pid,
            );
            &&& start.0 == s && stop.0 == s
            &&& start.1 is Run && stop.1 is Run
            &&& start.1->Run_1 is All && stop.1->Run_1 is All
            &&& start.1->Run_0.verb is Start && stop.1->Run_0.verb is Stop
            &&& start.1->Run_0.names.len() == s.processes.len()
            &&& stop.1->Run_0.names.len() == s.processes.len()
            &&& start.1->Run_0.names[i] == s.processes[i].config.name
            &&& stop.1->Run_0.names[i] == s.processes[i].config.name
            &&& start.1->Run_0.outcomes.len() == 0 && stop.1->Run_0.outcomes.len() == 0
            &&& start.1->Run_0.stage is Begin && stop.1->Run_0.stage is Begin
        }),
{
    lemma_methods();
}

/// Starting every process, where none runs, asks for a launch of each: when the
/// turn of a process comes, its command is launched.
pub proof fn law_start_all_launches_each(
    s: SupervisorModel,
    t: SupervisorModel,
    b: BatchModel,
    params: Seq<ValueModel>,
    epoch: i64,
    stops: Seq<LocalTime>,
    pid: i32,
    i: int,
    now: u128,
)
    requires
        0 <= i < s.processes.len() <= usize::MAX,
        rpc::dispatched(s, "supervisor.startAllProcesses"@, params, epoch, stops, pid).1
            == PendingModel::Run(BatchModel { outcomes: Seq::empty(), ..b }, Shape::All),
        b.outcomes.len() == i,
        t.processes.len() == s.processes.len(),
        daemon::found(t.processes, s.processes[i].config.name) == Some(i),
        states::is_down(t.processes[i].state),
        command::arguments(t.processes[i].config.command).len() > 0,
    ensures
        daemon::batch::stepped(b, t, now).2 == (daemon::batch::WorkModel::Act {
            index: i,
            action: Request::Launch(command::arguments(t.processes[i].config.command)),
        }),
{
    law_start_and_stop_all_calls(s, params, epoch, stops, pid, i);
    daemon::laws::law_start_operation(b, t, i, now);
}

/// A call about a group leads to the operation on the processes of the group.
pub proof fn law_group_calls(
    s: SupervisorModel,
    group: Seq<char>,
    params: Seq<ValueModel>,
    epoch: i64,
    stops: Seq<LocalTime>,
    pid: i32,
)
    requires
        params.len() > 0,
        params[0] == ValueModel::Str(group),
    ensures
        ({
            let start = rpc::dispatched(
                s,
                "supervisor.startProcessGroup"@,
                params,
                epoch,
                stops,
                pid,
            );
            let stop = rpc::dispatched(
                s,
                "supervisor.stopProcessGroup"@,
                params,
                epoch,
                stops,
                pid,
            );
            &&& start.0 == s && stop.0 == s
            &&& start.1 is RunGroup && stop.1 is RunGroup
            &&& start.1->RunGroup_1 == group && stop.1->RunGroup_1 == group
            &&& start.1->RunGroup_0.verb is Start && stop.1->RunGroup_0.verb is Stop
            &&& start.1->RunGroup_0.names == groups::targets(s.processes, group)
            &&& stop.1->RunGroup_0.names == groups::targets(s.processes, group)
            &&& start.1->RunGroup_0.outcomes.len() == 0 && stop.1->RunGroup_0.outcomes.len() == 0
            &&& start.1->RunGroup_0.stage is Begin && stop.1->RunGroup_0.stage is Begin
        }),
{
    lemma_methods();
}

/// A call that reads a log asks for the log of that process and that stream,
/// from that offset on, and for that many bytes; a tail tells where to go on.
pub proof fn law_log_calls(
    s: SupervisorModel,
    name: Seq<char>,
    offset: int,
    length: int,
    epoch: i64,
    stops: Seq<LocalTime>,
    pid: i32,
)
    ensures
        ({
            let params = seq![
                ValueModel::Str(name),
                ValueModel::Int(offset),
                ValueModel::Int(length),
            ];
            let call = |method: Seq<char>|
                rpc::dispatched(s, method, params, epoch, stops, pid);
            let query = |channel: Stream, tail: bool|
                (
                    s,
                    PendingModel::Read(QueryModel { name, channel, offset, length, tail }),
                );
            &&& call("supervisor.readProcessStdoutLog"@) == query(Stream::Stdout, false)
            &&& call("supervisor.readProcessLog"@) == query(Stream::Stdout, false)
            &&& call("supervisor.readProcessStderrLog"@) == query(Stream::Stderr, false)
            &&& call("supervisor.tailProcessStdoutLog"@) == query(Stream::Stdout, true)
            &&& call("supervisor.tailProcessStderrLog"@) == query(Stream::Stderr, true)
        }),
{
    lemma_methods();
}

/// A call that reads a log without saying where begins at the beginning and
/// reads all of it.
pub proof fn law_log_calls_by_name_alone(
    s: SupervisorModel,
    name: Seq<char>,
    epoch: i64,
    stops: Seq<LocalTime>,
    pid: i32,
)
    ensures
        ({
            let r = rpc::dispatched(
                s,
                "supervisor.readProcessStdoutLog"@,
                seq![ValueModel::Str(name)],
                epoch,
                stops,
                pid,
            ).1;
            &&& r is Read
            &&& r->Read_0.name == name
            &&& r->Read_0.offset == 0
            &&& r->Read_0.length == 0
        }),
{
    lemma_methods();
}

/// What the daemon says about itself.
pub proof fn law_calls_about_the_daemon(
    s: SupervisorModel,
    params: Seq<ValueModel>,
    epoch: i64,
    stops: Seq<LocalTime>,
    pid: i32,
)
    ensures
        ({
            let said = |method: Seq<char>, v: ValueModel|
                rpc::dispatched(s, method, params, epoch, stops, pid) == (
                    s,
                    PendingModel::Reply(Ok::<ValueModel, (i32, Seq<char>)>(v)),
                );
            &&& said("supervisor.getAPIVersion"@, ValueModel::Str("3.0"@))
            &&& said("supervisor.getVersion"@, ValueModel::Str("3.0"@))
            &&& said("supervisor.getSupervisorVersion"@, ValueModel::Str("0.1.0"@))
            &&& said(
                "supervisor.getIdentification"@,
                ValueModel::Str(s.config.supervisord.identifier),
            )
            &&& said("supervisor.getPID"@, ValueModel::Int(pid as int))
            &&& !s.shutdown_requested && !s.restart_requested ==> said(
                "supervisor.getState"@,
                ValueModel::Struct(
                    seq![
                        ("statecode"@, ValueModel::Int(1)),
                        ("statename"@, ValueModel::Str("RUNNING"@)),
                    ],
                ),
            )
            &&& s.shutdown_requested || s.restart_requested ==> said(
                "supervisor.getState"@,
                ValueModel::Struct(
                    seq![
                        ("statecode"@, ValueModel::Int(-1)),
                        ("statename"@, ValueModel::Str("SHUTDOWN"@)),
                    ],
                ),
            )
        }),
{
    lemma_methods();
}

/// What the daemon says about its processes: one snapshot for each, in order,
/// or that of the process asked for.
pub proof fn law_calls_about_processes(
    s: SupervisorModel,
    name: Seq<char>,
    epoch: i64,
    stops: Seq<LocalTime>,
    pid: i32,
    i: int,
)
    requires
        0 <= i < s.processes.len(),
    ensures
        ({
            let none = Seq::<ValueModel>::empty();
            let all = rpc::dispatched(
                s,
                "supervisor.getAllProcessInfo"@,
                none,
                epoch,
                stops,
                pid,
            );
            let one = rpc::dispatched(
                s,
                "supervisor.getProcessInfo"@,
                seq![ValueModel::Str(name)],
                epoch,
                stops,
                pid,
            );
            let shown = rpc::info_value(machine::snapshot(s.processes[i], epoch, stops[i]));
            &&& all.0 == s && one.0 == s
            &&& all.1 is Reply && all.1->Reply_0 is Ok && all.1->Reply_0->Ok_0 is Array
            &&& all.1->Reply_0->Ok_0->Array_0.len() == s.processes.len()
            &&& all.1->Reply_0->Ok_0->Array_0[i] == shown
            &&& daemon::found(s.processes, name) == Some(i) ==> one.1 == PendingModel::Reply(
                Ok::<ValueModel, (i32, Seq<char>)>(shown),
            )
            &&& daemon::found(s.processes, name) is None ==> one.1 == PendingModel::Reply(
                Err::<ValueModel, (i32, Seq<char>)>((10i32, name)),
            )
        }),
{
    lemma_methods();
}

/// A snapshot and an outcome as they are sent: every part under its own name.
pub proof fn law_what_is_sent(
    i: InfoModel,
    name: Seq<char>,
    group: Seq<char>,
    status: i32,
    description: Seq<char>,
)
    ensures
        ({
            let m = rpc::info_value(i)->Struct_0;
            let text = |n: Seq<char>, v: Seq<char>| m.contains((n, ValueModel::Str(v)));
            let number = |n: Seq<char>, v: int| m.contains((n, ValueModel::Int(v)));
            &&& rpc::info_value(i) is Struct
            &&& m.len() == 14
            &&& text("name"@, i.name) && text("group"@, i.group)
            &&& number("start"@, i.start as int) && number("stop"@, i.stop as int)
            &&& number("now"@, i.now as int) && number("state"@, i.state as int)
            &&& text("statename"@, i.statename) && text("spawnerr"@, i.spawnerr)
            &&& number("exitstatus"@, i.exitstatus as int)
            &&& text("logfile"@, i.stdout_logfile) && text("stdout_logfile"@, i.stdout_logfile)
            &&& text("stderr_logfile"@, i.stderr_logfile)
            &&& number("pid"@, i.pid as int)
            &&& text("description"@, i.description)
        }),
        ({
            let r = rpc::result_value(name, group, status, description);
            let m = r->Struct_0;
            &&& r is Struct
            &&& m.len() == 4
            &&& m[0] == ("name"@, ValueModel::Str(name))
            &&& m[1] == ("group"@, ValueModel::Str(group))
            &&& m[2] == ("status"@, ValueModel::Int(status as int))
            &&& m[3] == ("description"@, ValueModel::Str(description))
        }),
{
    let m = rpc::info_value(i)->Struct_0;
    assert(m[0] == ("name"@, ValueModel::Str(i.name)));
    assert(m[1] == ("group"@, ValueModel::Str(i.group)));
    assert(m[2] == ("start"@, ValueModel::Int(i.start as int)));
    assert(m[3] == ("stop"@, ValueModel::Int(i.stop as int)));
    assert(m[4] == ("now"@, ValueModel::Int(i.now as int)));
    assert(m[5] == ("state"@, ValueModel::Int(i.state as int)));
    assert(m[6] == ("statename"@, ValueModel::Str(i.statename)));
    assert(m[7] == ("spawnerr"@, ValueModel::Str(i.spawnerr)));
    assert(m[8] == ("exitstatus"@, ValueModel::Int(i.exitstatus as int)));
    assert(m[9] == ("logfile"@, ValueModel::Str(i.stdout_logfile)));
    assert(m[10] == ("stdout_logfile"@, ValueModel::Str(i.stdout_logfile)));
    assert(m[11] == ("stderr_logfile"@, ValueModel::Str(i.stderr_logfile)));
    assert(m[12] == ("pid"@, ValueModel::Int(i.pid as int)));
    assert(m[13] == ("description"@, ValueModel::Str(i.description)));
}

/// Calls that ask the daemon to end or to start over are granted, take effect,
/// and change nothing else.
pub proof fn law_shutdown_and_restart_calls(
    s: SupervisorModel,
    params: Seq<ValueModel>,
    epoch: i64,
    stops: Seq<LocalTime>,
    pid: i32,
)
    ensures
        ({
            let granted = PendingModel::Reply(
                Ok::<ValueModel, (i32, Seq<char>)>(ValueModel::Bool(true)),
            );
            &&& rpc::dispatched(s, "supervisor.shutdown"@, params, epoch, stops, pid) == (
                SupervisorModel { shutdown_requested: true, ..s },
                granted,
            )
            &&& rpc::dispatched(s, "supervisor.restart"@, params, epoch, stops, pid) == (
                SupervisorModel { restart_requested: true, ..s },
                granted,
            )
        }),
{
    lemma_methods();
}

/// Calls about the configuration: it is read again; a group is added just if
/// the configuration that was read last has it and nothing of it runs, and
/// removed just if it is there and all of it has stopped.
pub proof fn law_configuration_calls(
    s: SupervisorModel,
    group: Seq<char>,
    epoch: i64,
    stops: Seq<LocalTime>,
    pid: i32,
)
    ensures
        ({
            let params = seq![ValueModel::Str(group)];
            let reload = rpc::dispatched(
                s,
                "supervisor.reloadConfig"@,
                Seq::empty(),
                epoch,
                stops,
                pid,
            );
            let add = rpc::dispatched(
                s,
                "supervisor.addProcessGroup"@,
                params,
                epoch,
                stops,
                pid,
            );
            let remove = rpc::dispatched(
                s,
                "supervisor.removeProcessGroup"@,
                params,
                epoch,
                stops,
                pid,
            );
            let known = difference::has_group(s.available, group);
            let active = difference::has_group(s.config.programs, group);
            let refused = |code: i32|
                PendingModel::Reply(Err::<ValueModel, (i32, Seq<char>)>((code, group)));
            &&& reload == (s, PendingModel::Reload)
            &&& add.0 == s
            &&& known && !active ==> add.1 == PendingModel::Add(
                difference::members(s.available, group),
            )
            &&& known && active ==> add.1 == refused(90)
            &&& !known ==> add.1 == refused(10)
            &&& !active ==> remove == (s, refused(10))
            &&& active && !groups::group_at_rest(s.processes, group) ==> remove == (
                s,
                refused(91),
            )
            &&& active && groups::group_at_rest(s.processes, group) ==> remove.1 is Removed
        }),
{
    lemma_methods();
}

/// A call that needs a name and gets none is refused, and so is one of a method
/// that there is not.
pub proof fn law_bad_calls(
    s: SupervisorModel,
    method: Seq<char>,
    params: Seq<ValueModel>,
    epoch: i64,
    stops: Seq<LocalTime>,
    pid: i32,
)
    requires
        params.len() == 0 || !(params[0] is Str),
    ensures
        ({
            let refused = |m: Seq<char>|
                rpc::dispatched(s, m, params, epoch, stops, pid) == (
                    s,
                    PendingModel::Reply(
                        Err::<ValueModel, (i32, Seq<char>)>(
                            (2i32, "expected string param "@ + number::nat_text(0)),
                        ),
                    ),
                );
            &&& refused("supervisor.startProcess"@) && refused("supervisor.stopProcess"@)
            &&& refused("supervisor.startProcessGroup"@)
            &&& refused("supervisor.stopProcessGroup"@)
            &&& refused("supervisor.getProcessInfo"@)
            &&& refused("supervisor.readProcessStdoutLog"@)
            &&& refused("supervisor.readProcessStderrLog"@)
            &&& refused("supervisor.tailProcessStdoutLog"@)
            &&& refused("supervisor.tailProcessStderrLog"@)
            &&& refused("supervisor.addProcessGroup"@)
            &&& refused("supervisor.removeProcessGroup"@)
        }),
{
    lemma_methods();
}

/// Calls of methods that there are not are refused by that name.
#[verifier::spinoff_prover]
#[verifier::rlimit(50)]
pub proof fn law_unknown_calls(
    s: SupervisorModel,
    rest: Seq<char>,
    params: Seq<ValueModel>,
    epoch: i64,
    stops: Seq<LocalTime>,
    pid: i32,
)
    ensures
        rpc::dispatched(s, "supervisor."@ + (seq!['x'] + rest), params, epoch, stops, pid) == (
            s,
            PendingModel::Reply(
                Err::<ValueModel, (i32, Seq<char>)>(
                    (1i32, "supervisor."@ + (seq!['x'] + rest)),
                ),
            ),
        ),
{
    lemma_first_letters();
    let name = seq!['x'] + rest;
    lemma_in_namespace("supervisor."@ + name, name);
    assert(name[0] == 'x');
}

proof fn lemma_first_letters()
    ensures
        "getAPIVersion"@[0] == 'g',
        "getVersion"@[0] == 'g',
        "getSupervisorVersion"@[0] == 'g',
        "getIdentification"@[0] == 'g',
        "getState"@[0] == 'g',
        "getPID"@[0] == 'g',
        "getAllProcessInfo"@[0] == 'g',
        "getProcessInfo"@[0] == 'g',
        "startProcess"@[0] == 's',
        "stopProcess"@[0] == 's',
        "startProcessGroup"@[0] == 's',
        "stopProcessGroup"@[0] == 's',
        "startAllProcesses"@[0] == 's',
        "stopAllProcesses"@[0] == 's',
        "readProcessStdoutLog"@[0] == 'r',
        "readProcessLog"@[0] == 'r',
        "readProcessStderrLog"@[0] == 'r',
        "tailProcessStdoutLog"@[0] == 't',
        "tailProcessStderrLog"@[0] == 't',
        "reloadConfig"@[0] == 'r',
        "addProcessGroup"@[0] == 'a',
        "removeProcessGroup"@[0] == 'r',
        "shutdown"@[0] == 's',
        "restart"@[0] == 'r',
{
    reveal_strlit("getAPIVersion");
    reveal_strlit("getVersion");
    reveal_strlit("getSupervisorVersion");
    reveal_strlit("getIdentification");
    reveal_strlit("getState");
    reveal_strlit("getPID");
    reveal_strlit("getAllProcessInfo");
    reveal_strlit("getProcessInfo");
    reveal_strlit("startProcess");
    reveal_strlit("stopProcess");
    reveal_strlit("startProcessGroup");
    reveal_strlit("stopProcessGroup");
    reveal_strlit("startAllProcesses");
    reveal_strlit("stopAllProcesses");
    reveal_strlit("readProcessStdoutLog");
    reveal_strlit("readProcessLog");
    reveal_strlit("readProcessStderrLog");
    reveal_strlit("tailProcessStdoutLog");
    reveal_strlit("tailProcessStderrLog");
    reveal_strlit("reloadConfig");
    reveal_strlit("addProcessGroup");
    reveal_strlit("removeProcessGroup");
    reveal_strlit("shutdown");
    reveal_strlit("restart");
}

/// What a single operation is answered by: `true`, or its fault.
pub proof fn law_answer_to_one_operation(b: BatchModel, ps: Seq<ProcessModel>, code: i32, why: Seq<char>)
    requires
        b.outcomes.len() == 1,
    ensures
        b.outcomes[0] is Ok ==> rpc::run_answer(b, Shape::Truth, ps) == Ok::<
            ValueModel,
            (i32, Seq<char>),
        >(ValueModel::Bool(true)),
        b.outcomes[0] == Err::<(), (i32, Seq<char>)>((code, why)) ==> rpc::run_answer(
            b,
            Shape::Truth,
            ps,
        ) == Err::<ValueModel, (i32, Seq<char>)>((code, why)),
{
}

/// What operations on every process, and on a group, are answered by: one
/// outcome for each, in order, with its name, its group, a code and a word.
pub proof fn law_answers_to_many_operations(
    b: BatchModel,
    ps: Seq<ProcessModel>,
    group: Seq<char>,
    k: int,
    code: i32,
    why: Seq<char>,
)
    requires
        0 <= k < b.outcomes.len(),
        b.outcomes.len() <= ps.len(),
        b.verb is Start || b.verb is Stop,
    ensures
        ({
            let all = rpc::run_answer(b, Shape::All, ps);
            let some = rpc::group_answer(b, group);
            let word = if b.verb is Start {
                "started"@
            } else {
                "stopped"@
            };
            &&& all is Ok && all->Ok_0 is Array && some is Array
            &&& all->Ok_0->Array_0.len() == b.outcomes.len()
            &&& some->Array_0.len() == b.outcomes.len()
            &&& b.outcomes[k] is Ok ==> {
                &&& all->Ok_0->Array_0[k] == rpc::result_value(
                    b.names[k],
                    ps[k].config.group,
                    80i32,
                    word,
                )
                &&& some->Array_0[k] == rpc::result_value(b.names[k], group, 80i32, word)
            }
            &&& b.outcomes[k] == Err::<(), (i32, Seq<char>)>((code, why)) ==> {
                &&& all->Ok_0->Array_0[k] == rpc::result_value(
                    b.names[k],
                    ps[k].config.group,
                    code,
                    daemon::fault_message_text(code),
                )
                &&& some->Array_0[k] == rpc::result_value(b.names[k], group, code, "error"@)
            }
        }),
{
    daemon::laws::law_outcome_reports(b, ps, k, code, why);
}

/// A read is answered by the text; a tail by the text, where to go on, and
/// whether the log is larger than what was asked for.
pub proof fn law_answers_to_reads(q: QueryModel, s: SupervisorModel, d: Seq<u8>, i: int)
    requires
        daemon::found(s.processes, q.name) == Some(i),
        daemon::log_path_of(s.processes[i], q.channel).len() > 0,
        0 <= q.offset,
        0 <= q.length,
    ensures
        ({
            let r = rpc::read_answer(q, s, LogFileModel::Data(d));
            let t = util::text_of(daemon::log_slice(d, q.offset, q.length));
            &&& !q.tail ==> r == Ok::<ValueModel, (i32, Seq<char>)>(ValueModel::Str(t))
            &&& q.tail ==> r is Ok && r->Ok_0 is Array && r->Ok_0->Array_0.len() == 3
            &&& q.tail ==> r->Ok_0->Array_0[0] == ValueModel::Str(t)
            &&& q.tail ==> r->Ok_0->Array_0[2] == ValueModel::Bool(d.len() > q.length)
            &&& q.tail && q.offset + utf8::encode_utf8(t).len() <= i64::MAX
                ==> r->Ok_0->Array_0[1] == ValueModel::Int(
                q.offset + utf8::encode_utf8(t).len(),
            )
            &&& q.tail && q.offset + utf8::encode_utf8(t).len() > i64::MAX
                ==> r->Ok_0->Array_0[1] == ValueModel::Int(i64::MAX as int)
        }),
{
}

/// A log that cannot be read is a fault for a read, and nothing new for a tail.
pub proof fn law_answers_without_a_log(q: QueryModel, s: SupervisorModel, file: LogFileModel)
    requires
        !(file is Data),
        i64::MIN <= q.offset <= i64::MAX,
    ensures
        ({
            let r = rpc::read_answer(q, s, file);
            &&& !q.tail ==> r is Err
            &&& q.tail ==> r is Ok && r->Ok_0 == ValueModel::Array(
                seq![
                    ValueModel::Str(Seq::empty()),
                    ValueModel::Int(q.offset),
                    ValueModel::Bool(false),
                ],
            )
        }),
{
    assert(utf8::encode_utf8(Seq::<char>::empty()).len() == 0);
}

/// A configuration that was read again is compared with the one that runs, and
/// its groups can be added from then on; one that cannot be read is a fault.
pub proof fn law_reload(s: SupervisorModel, fresh: ConfigModel, e: Seq<char>)
    ensures
        ({
            let (t, r) = rpc::reloaded(s, Ok(fresh));
            let d = difference::diff_of(s.config, fresh);
            &&& r == Ok::<ValueModel, (i32, Seq<char>)>(rpc::diff_value(d))
            &&& t.available == fresh.programs
            &&& t == (SupervisorModel { available: fresh.programs, ..s })
            &&& rpc::reloaded(s, Err(e)).0 == s
            &&& rpc::reloaded(s, Err(e)).1 == Err::<ValueModel, (i32, Seq<char>)>((92i32, e))
        }),
{
}

/// What a difference is sent as: the three lists, in one list.
pub proof fn law_difference_is_sent(d: DiffModel, k: int)
    ensures
        ({
            let v = rpc::diff_value(d);
            let triple = v->Array_0[0]->Array_0;
            &&& v is Array && v->Array_0.len() == 1 && v->Array_0[0] is Array
            &&& triple.len() == 3
            &&& triple[0] is Array && triple[1] is Array && triple[2] is Array
            &&& triple[0]->Array_0.len() == d.added.len()
            &&& triple[1]->Array_0.len() == d.changed.len()
            &&& triple[2]->Array_0.len() == d.removed.len()
            &&& 0 <= k < d.added.len() ==> triple[0]->Array_0[k] == ValueModel::Str(d.added[k])
            &&& 0 <= k < d.changed.len() ==> triple[1]->Array_0[k] == ValueModel::Str(
                d.changed[k],
            )
            &&& 0 <= k < d.removed.len() ==> triple[2]->Array_0[k] == ValueModel::Str(
                d.removed[k],
            )
        }),
{
}

} // verus!
