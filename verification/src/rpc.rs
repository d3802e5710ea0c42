//! The `supervisor.*` XML-RPC method set (API version 3.0).
//!
//! [`dispatch`] answers what can be answered at once. A call that needs work
//! on the operating system's side is left pending: once its operations have
//! run, its log has been read, or the configuration has been read again,
//! [`finish_run`], [`finish_group`], [`finish_read`] or [`finish_reload`] gives
//! the answer.
pub mod faults;
pub mod laws;

use crate::config::assemble::Config;
use crate::config::assemble::ConfigModel;
use crate::config::difference;
use crate::config::difference::ConfigDiff;
use crate::config::difference::DiffModel;
use crate::config::settings;
use crate::config::settings::ProgramConfig;
use crate::config::settings::ProgramModel;
use crate::daemon;
use crate::daemon::batch;
use crate::daemon::batch::Batch;
use crate::daemon::batch::BatchModel;
use crate::daemon::groups;
use crate::daemon::LogFile;
use crate::daemon::LogFileModel;
use crate::daemon::Supervisor;
use crate::daemon::SupervisorModel;
use crate::daemon::Verb;
use crate::number;
use crate::process::info::InfoModel;
use crate::process::info::LocalTime;
use crate::process::info::ProcessInfo;
use crate::process::machine;
use crate::process::machine::ProcessModel;
use crate::process::machine::Stream;
use crate::states;
use crate::text;
use crate::util;
use crate::xmlrpc;
use crate::xmlrpc::Value;
use crate::xmlrpc::ValueModel;
use vstd::prelude::*;
use vstd::slice::slice_subrange;
use vstd::utf8;

verus! {

/// The XML-RPC API version this daemon implements.
pub const API_VERSION: &'static str = "3.0";

/// The version of this daemon.
pub const VERSION: &'static str = "0.1.0";

// ---------------------------------------------------------------------------
// Types
// ---------------------------------------------------------------------------

/// What a call may ask about the world outside.
#[derive(Debug)]
pub struct Moment {
    /// Wall-clock time.
    pub epoch: i64,
    /// The local time of the last stop of each process.
    pub stops: Vec<LocalTime>,
    /// The process id of the supervisor.
    pub pid: i32,
}

/// How the outcomes of an operation become an answer.
#[derive(Clone, Copy, PartialEq, Eq, Debug, Structural)]
pub enum Shape {
    /// `true`, or the fault.
    Truth,
    /// A list with the outcome for every process.
    All,
}

/// Which part of which log to read.
#[derive(Debug)]
pub struct LogQuery {
    pub name: String,
    pub channel: Stream,
    pub offset: i64,
    pub length: i64,
    /// Whether to answer with the new offset and overflow too.
    pub tail: bool,
}

/// The mathematical content of a [`LogQuery`].
#[verifier::ext_equal]
pub struct QueryModel {
    pub name: Seq<char>,
    pub channel: Stream,
    pub offset: int,
    pub length: int,
    pub tail: bool,
}

impl View for LogQuery {
    type V = QueryModel;

    open spec fn view(&self) -> QueryModel {
        QueryModel {
            name: self.name@,
            channel: self.channel,
            offset: self.offset as int,
            length: self.length as int,
            tail: self.tail,
        }
    }
}

/// What has become of a call.
#[derive(Debug)]
pub enum Pending {
    /// It is answered, by a value or a `(fault_code, fault_string)` pair.
    Reply(Result<Value, (i32, String)>),
    /// Operations are to be run.
    Run(Batch, Shape),
    /// Operations on the processes of a group are to be run.
    RunGroup(Batch, String),
    /// A log is to be read.
    Read(LogQuery),
    /// The configuration is to be read again.
    Reload,
    /// Processes are to be added for these programs, one after another (see
    /// [`Supervisor::add_process`]). Then the answer is [`success`].
    Add(Vec<ProgramConfig>),
    /// The processes at these positions have been removed, and what belongs to
    /// them is to be let go. Then the answer is [`success`].
    Removed(Vec<usize>),
}

/// The mathematical content of an answer.
pub open spec fn answer_model(r: Result<Value, (i32, String)>) -> Result<
    ValueModel,
    (i32, Seq<char>),
> {
    match r {
        Ok(v) => Ok(v@),
        Err(f) => Err(daemon::fault_model(f)),
    }
}

/// The mathematical content of a [`Pending`].
pub enum PendingModel {
    Reply(Result<ValueModel, (i32, Seq<char>)>),
    Run(BatchModel, Shape),
    RunGroup(BatchModel, Seq<char>),
    Read(QueryModel),
    Reload,
    Add(Seq<ProgramModel>),
    Removed(Seq<int>),
}

impl View for Pending {
    type V = PendingModel;

    open spec fn view(&self) -> PendingModel {
        match self {
            Pending::Reply(r) => PendingModel::Reply(answer_model(*r)),
            Pending::Run(b, shape) => PendingModel::Run(b@, *shape),
            Pending::RunGroup(b, group) => PendingModel::RunGroup(b@, group@),
            Pending::Read(q) => PendingModel::Read(q@),
            Pending::Reload => PendingModel::Reload,
            Pending::Add(v) => PendingModel::Add(settings::program_list(v@)),
            Pending::Removed(v) => PendingModel::Removed(groups::numbers(v@)),
        }
    }
}

// ---------------------------------------------------------------------------
// The model
// ---------------------------------------------------------------------------

/// A snapshot as the control interface shows it.
pub open spec fn info_value(i: InfoModel) -> ValueModel {
    ValueModel::Struct(
        seq![
            ("name"@, ValueModel::Str(i.name)),
            ("group"@, ValueModel::Str(i.group)),
            ("start"@, ValueModel::Int(i.start as int)),
            ("stop"@, ValueModel::Int(i.stop as int)),
            ("now"@, ValueModel::Int(i.now as int)),
            ("state"@, ValueModel::Int(i.state as int)),
            ("statename"@, ValueModel::Str(i.statename)),
            ("spawnerr"@, ValueModel::Str(i.spawnerr)),
            ("exitstatus"@, ValueModel::Int(i.exitstatus as int)),
            ("logfile"@, ValueModel::Str(i.stdout_logfile)),
            ("stdout_logfile"@, ValueModel::Str(i.stdout_logfile)),
            ("stderr_logfile"@, ValueModel::Str(i.stderr_logfile)),
            ("pid"@, ValueModel::Int(i.pid as int)),
            ("description"@, ValueModel::Str(i.description)),
        ],
    )
}

/// The outcome of an operation as the control interface shows it.
pub open spec fn result_value(
    name: Seq<char>,
    group: Seq<char>,
    status: i32,
    description: Seq<char>,
) -> ValueModel {
    ValueModel::Struct(
        seq![
            ("name"@, ValueModel::Str(name)),
            ("group"@, ValueModel::Str(group)),
            ("status"@, ValueModel::Int(status as int)),
            ("description"@, ValueModel::Str(description)),
        ],
    )
}

/// The string at position `i` of the parameters, or the fault.
pub open spec fn str_param_of(params: Seq<ValueModel>, i: nat) -> Result<
    Seq<char>,
    (i32, Seq<char>),
> {
    if i < params.len() && params[i as int] is Str {
        Ok(params[i as int]->Str_0)
    } else {
        Err((faults::INCORRECT_PARAMETERS, "expected string param "@ + number::nat_text(i)))
    }
}

/// The number at position `i` of the parameters, or zero.
pub open spec fn int_param_of(params: Seq<ValueModel>, i: nat) -> int {
    if i < params.len() && params[i as int] is Int {
        params[i as int]->Int_0
    } else {
        0
    }
}

/// A method name without the namespace, if it has it.
pub open spec fn bare_name(method: Seq<char>) -> Seq<char> {
    if text::has_prefix(method, "supervisor."@) {
        method.skip(11)
    } else {
        method
    }
}

/// A call that operates on the process that the first parameter names.
pub open spec fn single(params: Seq<ValueModel>, verb: Verb) -> PendingModel {
    match str_param_of(params, 0) {
        Ok(name) => PendingModel::Run(batch::new_batch(verb, seq![name]), Shape::Truth),
        Err(f) => PendingModel::Reply(Err(f)),
    }
}

/// A call that operates on the group that the first parameter names.
pub open spec fn grouped(ps: Seq<ProcessModel>, params: Seq<ValueModel>, verb: Verb) -> PendingModel {
    match str_param_of(params, 0) {
        Ok(group) => PendingModel::RunGroup(
            batch::new_batch(verb, groups::targets(ps, group)),
            group,
        ),
        Err(f) => PendingModel::Reply(Err(f)),
    }
}

/// A call that reads a log of the process that the first parameter names.
pub open spec fn reading(params: Seq<ValueModel>, channel: Stream, tail: bool) -> PendingModel {
    match str_param_of(params, 0) {
        Ok(name) => PendingModel::Read(
            QueryModel {
                name,
                channel,
                offset: int_param_of(params, 1),
                length: int_param_of(params, 2),
                tail,
            },
        ),
        Err(f) => PendingModel::Reply(Err(f)),
    }
}

/// A call that is answered by a text.
pub open spec fn said(s: Seq<char>) -> PendingModel {
    PendingModel::Reply(Ok(ValueModel::Str(s)))
}

/// Every snapshot, as the control interface shows it.
pub open spec fn info_values(infos: Seq<InfoModel>) -> Seq<ValueModel> {
    infos.map_values(|i: InfoModel| info_value(i))
}

/// The answer to a call for the snapshot of one process.
pub open spec fn process_answer(
    ps: Seq<ProcessModel>,
    params: Seq<ValueModel>,
    epoch: i64,
    stops: Seq<LocalTime>,
) -> Result<ValueModel, (i32, Seq<char>)> {
    match str_param_of(params, 0) {
        Ok(name) => match daemon::found(ps, name) {
            Some(i) => Ok(info_value(machine::snapshot(ps[i], epoch, stops[i]))),
            None => Err((faults::BAD_NAME, name)),
        },
        Err(f) => Err(f),
    }
}

/// What becomes of a call that does not change the supervisor.
pub open spec fn query_of(
    s: SupervisorModel,
    name: Seq<char>,
    params: Seq<ValueModel>,
    epoch: i64,
    stops: Seq<LocalTime>,
    pid: i32,
) -> Option<PendingModel> {
    if name == "getAPIVersion"@ || name == "getVersion"@ {
        Some(said("3.0"@))
    } else if name == "getSupervisorVersion"@ {
        Some(said("0.1.0"@))
    } else if name == "getIdentification"@ {
        Some(said(s.config.supervisord.identifier))
    } else if name == "getState"@ {
        let state = daemon::overall_state(s);
        Some(
            PendingModel::Reply(
                Ok(
                    ValueModel::Struct(
                        seq![
                            (
                                "statecode"@,
                                ValueModel::Int(states::supervisor_code(state) as int),
                            ),
                            ("statename"@, ValueModel::Str(states::supervisor_name(state))),
                        ],
                    ),
                ),
            ),
        )
    } else if name == "getPID"@ {
        Some(PendingModel::Reply(Ok(ValueModel::Int(pid as int))))
    } else if name == "getAllProcessInfo"@ {
        Some(
            PendingModel::Reply(
                Ok(
                    ValueModel::Array(
                        info_values(daemon::snapshots(s.processes, epoch, stops)),
                    ),
                ),
            ),
        )
    } else if name == "getProcessInfo"@ {
        Some(PendingModel::Reply(process_answer(s.processes, params, epoch, stops)))
    } else {
        None
    }
}

/// What becomes of a call that operates on processes or reads their logs.
pub open spec fn operation_of(
    s: SupervisorModel,
    name: Seq<char>,
    params: Seq<ValueModel>,
) -> Option<PendingModel> {
    if name == "startProcess"@ {
        Some(single(params, Verb::Start))
    } else if name == "stopProcess"@ {
        Some(single(params, Verb::Stop))
    } else if name == "startProcessGroup"@ {
        Some(grouped(s.processes, params, Verb::Start))
    } else if name == "stopProcessGroup"@ {
        Some(grouped(s.processes, params, Verb::Stop))
    } else if name == "startAllProcesses"@ {
        Some(
            PendingModel::Run(
                batch::new_batch(Verb::Start, daemon::names_of(s.processes)),
                Shape::All,
            ),
        )
    } else if name == "stopAllProcesses"@ {
        Some(
            PendingModel::Run(
                batch::new_batch(Verb::Stop, daemon::names_of(s.processes)),
                Shape::All,
            ),
        )
    } else if name == "readProcessStdoutLog"@ || name == "readProcessLog"@ {
        Some(reading(params, Stream::Stdout, false))
    } else if name == "readProcessStderrLog"@ {
        Some(reading(params, Stream::Stderr, false))
    } else if name == "tailProcessStdoutLog"@ {
        Some(reading(params, Stream::Stdout, true))
    } else if name == "tailProcessStderrLog"@ {
        Some(reading(params, Stream::Stderr, true))
    } else {
        None
    }
}

/// What becomes of a call that adds a group.
pub open spec fn adding(s: SupervisorModel, params: Seq<ValueModel>) -> PendingModel {
    match str_param_of(params, 0) {
        Ok(group) => match groups::addition(s, group) {
            Ok(programs) => PendingModel::Add(programs),
            Err(f) => PendingModel::Reply(Err(f)),
        },
        Err(f) => PendingModel::Reply(Err(f)),
    }
}

/// What becomes of a call that removes a group.
pub open spec fn removing(s: SupervisorModel, params: Seq<ValueModel>) -> (
    SupervisorModel,
    PendingModel,
) {
    match str_param_of(params, 0) {
        Ok(group) => match groups::removal(s, group) {
            Ok((t, positions)) => (t, PendingModel::Removed(positions)),
            Err(f) => (s, PendingModel::Reply(Err(f))),
        },
        Err(f) => (s, PendingModel::Reply(Err(f))),
    }
}

/// What becomes of a call that is about the configuration.
pub open spec fn reconfiguration_of(
    s: SupervisorModel,
    name: Seq<char>,
    params: Seq<ValueModel>,
) -> Option<(SupervisorModel, PendingModel)> {
    if name == "reloadConfig"@ {
        Some((s, PendingModel::Reload))
    } else if name == "addProcessGroup"@ {
        Some((s, adding(s, params)))
    } else if name == "removeProcessGroup"@ {
        Some(removing(s, params))
    } else {
        None
    }
}

/// What becomes of a call: the supervisor after it, and the answer or what
/// has to be done for it.
pub open spec fn dispatched(
    s: SupervisorModel,
    method: Seq<char>,
    params: Seq<ValueModel>,
    epoch: i64,
    stops: Seq<LocalTime>,
    pid: i32,
) -> (SupervisorModel, PendingModel) {
    let name = bare_name(method);
    match query_of(s, name, params, epoch, stops, pid) {
        Some(p) => (s, p),
        None => match operation_of(s, name, params) {
            Some(p) => (s, p),
            None => match reconfiguration_of(s, name, params) {
                Some(r) => r,
                None => if name == "shutdown"@ {
                    (
                        SupervisorModel { shutdown_requested: true, ..s },
                        PendingModel::Reply(Ok(ValueModel::Bool(true))),
                    )
                } else if name == "restart"@ {
                    (
                        SupervisorModel { restart_requested: true, ..s },
                        PendingModel::Reply(Ok(ValueModel::Bool(true))),
                    )
                } else {
                    (
                        s,
                        PendingModel::Reply(Err((faults::UNKNOWN_METHOD, "supervisor."@ + name))),
                    )
                },
            },
        },
    }
}

/// The outcomes of an operation on every process, as the control interface
/// shows them.
pub open spec fn entry_values(es: Seq<(Seq<char>, Seq<char>, i32, Seq<char>)>) -> Seq<ValueModel> {
    es.map_values(
        |e: (Seq<char>, Seq<char>, i32, Seq<char>)| result_value(e.0, e.1, e.2, e.3),
    )
}

/// The description of the outcome of an operation on a group.
pub open spec fn group_text(verb: Verb, o: Result<(), (i32, Seq<char>)>) -> Seq<char> {
    match o {
        Ok(_) => batch::done_word(verb),
        Err(_) => "error"@,
    }
}

/// The answer to a call whose operations have run.
pub open spec fn run_answer(b: BatchModel, shape: Shape, ps: Seq<ProcessModel>) -> Result<
    ValueModel,
    (i32, Seq<char>),
> {
    match shape {
        Shape::Truth => match b.outcomes[0] {
            Ok(_) => Ok(ValueModel::Bool(true)),
            Err(f) => Err(f),
        },
        Shape::All => Ok(ValueModel::Array(entry_values(batch::entries(b, ps)))),
    }
}

/// The answer to a call whose operations on a group have run: one outcome per
/// process, under its name and the group's.
pub open spec fn group_answer(b: BatchModel, group: Seq<char>) -> ValueModel {
    ValueModel::Array(
        Seq::new(
            b.outcomes.len(),
            |k: int|
                result_value(
                    b.names[k],
                    group,
                    batch::outcome_code(b.outcomes[k]),
                    group_text(b.verb, b.outcomes[k]),
                ),
        ),
    )
}

/// A list of names as a value.
pub open spec fn names_value(names: Seq<Seq<char>>) -> ValueModel {
    ValueModel::Array(names.map_values(|n: Seq<char>| ValueModel::Str(n)))
}

/// `[[added, changed, removed]]`
pub open spec fn diff_value(d: DiffModel) -> ValueModel {
    ValueModel::Array(
        seq![
            ValueModel::Array(
                seq![names_value(d.added), names_value(d.changed), names_value(d.removed)],
            ),
        ],
    )
}

/// The supervisor after the configuration was read again, and the answer: what
/// the new one changes, or the fault if it could not be read.
pub open spec fn reloaded(s: SupervisorModel, read: Result<ConfigModel, Seq<char>>) -> (
    SupervisorModel,
    Result<ValueModel, (i32, Seq<char>)>,
) {
    match read {
        Ok(fresh) => (
            groups::with_available(s, fresh),
            Ok(diff_value(difference::diff_of(s.config, fresh))),
        ),
        Err(e) => (s, Err((faults::CANT_REREAD, e))),
    }
}

/// The text that a tail shows: none when the log cannot be read.
pub open spec fn tail_text(r: Result<Seq<char>, (i32, Seq<char>)>) -> Seq<char> {
    match r {
        Ok(t) => t,
        Err(_) => Seq::empty(),
    }
}

/// The sum of two numbers, at most the largest there is.
pub open spec fn capped_sum(a: int, b: int) -> int {
    if a + b > i64::MAX {
        i64::MAX as int
    } else {
        a + b
    }
}

/// Whether a log that can be read is larger than `length`.
pub open spec fn overflows(
    r: Result<Seq<char>, (i32, Seq<char>)>,
    file: LogFileModel,
    length: int,
) -> bool {
    match file {
        LogFileModel::Data(d) => r is Ok && d.len() > (if length < 0 {
            0
        } else {
            length
        }),
        _ => false,
    }
}

/// The answer to a call whose log has been read. A tail is lenient when the
/// log is missing.
pub open spec fn read_answer(q: QueryModel, s: SupervisorModel, file: LogFileModel) -> Result<
    ValueModel,
    (i32, Seq<char>),
> {
    let r = daemon::log_text(s, q.name, q.channel, q.offset, q.length, file);
    if q.tail {
        let t = tail_text(r);
        Ok(
            ValueModel::Array(
                seq![
                    ValueModel::Str(t),
                    ValueModel::Int(capped_sum(q.offset, utf8::encode_utf8(t).len() as int)),
                    ValueModel::Bool(overflows(r, file, q.length)),
                ],
            ),
        )
    } else {
        match r {
            Ok(t) => Ok(ValueModel::Str(t)),
            Err(f) => Err(f),
        }
    }
}

// ---------------------------------------------------------------------------
// Values
// ---------------------------------------------------------------------------

/// A text as a value.
fn text_value(s: &str) -> (r: Value)
    ensures
        r@ == ValueModel::Str(s@),
{
    Value::Str(s.to_string())
}

/// A snapshot as the control interface shows it.
pub fn info_to_value(info: &ProcessInfo) -> (r: Value)
    ensures
        r@ == info_value(info@),
{
    let members: Vec<(String, Value)> = vec![
        ("name".to_string(), text_value(info.name.as_str())),
        ("group".to_string(), text_value(info.group.as_str())),
        ("start".to_string(), Value::Int(info.start)),
        ("stop".to_string(), Value::Int(info.stop)),
        ("now".to_string(), Value::Int(info.now)),
        ("state".to_string(), Value::Int(info.state)),
        ("statename".to_string(), text_value(info.statename.as_str())),
        ("spawnerr".to_string(), text_value(info.spawnerr.as_str())),
        ("exitstatus".to_string(), Value::Int(info.exitstatus as i64)),
        ("logfile".to_string(), text_value(info.stdout_logfile.as_str())),
        ("stdout_logfile".to_string(), text_value(info.stdout_logfile.as_str())),
        ("stderr_logfile".to_string(), text_value(info.stderr_logfile.as_str())),
        ("pid".to_string(), Value::Int(info.pid as i64)),
        ("description".to_string(), text_value(info.description.as_str())),
    ];
    proof {
        xmlrpc::lemma_member_models(members@);
        assert(xmlrpc::member_models(members@) =~= info_value(info@)->Struct_0);
    }
    Value::Struct(members)
}

/// The outcome of an operation as the control interface shows it.
pub fn result_struct(name: &str, group: &str, status: i32, description: &str) -> (r: Value)
    ensures
        r@ == result_value(name@, group@, status, description@),
{
    let members: Vec<(String, Value)> = vec![
        ("name".to_string(), text_value(name)),
        ("group".to_string(), text_value(group)),
        ("status".to_string(), Value::Int(status as i64)),
        ("description".to_string(), text_value(description)),
    ];
    proof {
        xmlrpc::lemma_member_models(members@);
        assert(xmlrpc::member_models(members@) =~= result_value(
            name@,
            group@,
            status,
            description@,
        )->Struct_0);
    }
    Value::Struct(members)
}

/// The string at position `i` of the parameters.
pub fn str_param(params: &[Value], i: usize) -> (r: Result<String, (i32, String)>)
    ensures
        match (r, str_param_of(xmlrpc::value_models(params@), i as nat)) {
            (Ok(s), Ok(t)) => s@ == t,
            (Err(f), Err(g)) => daemon::fault_model(f) == g,
            _ => false,
        },
{
    proof {
        xmlrpc::lemma_value_models(params@);
    }
    if i < params.len() {
        if let Value::Str(s) = &params[i] {
            return Ok(s.clone());
        }
    }
    let mut m = "expected string param ".to_string();
    m.append(number::nat_string(i as u64).as_str());
    Err((faults::INCORRECT_PARAMETERS, m))
}

/// The number at position `i` of the parameters, or zero.
pub fn int_param(params: &[Value], i: usize) -> (r: i64)
    ensures
        r == int_param_of(xmlrpc::value_models(params@), i as nat),
{
    proof {
        xmlrpc::lemma_value_models(params@);
    }
    if i < params.len() {
        if let Value::Int(n) = &params[i] {
            return *n;
        }
    }
    0
}

/// A list of snapshots as a value.
fn info_array(infos: &Vec<ProcessInfo>) -> (r: Value)
    ensures
        r@ == ValueModel::Array(info_values(infos@.map_values(|i: ProcessInfo| i@))),
{
    let mut items: Vec<Value> = Vec::new();
    let mut i: usize = 0;
    while i < infos.len()
        invariant
            i <= infos@.len(),
            items@.len() == i,
            forall|k: int| 0 <= k < i ==> (#[trigger] items@[k])@ == info_value(infos@[k]@),
        decreases infos@.len() - i,
    {
        items.push(info_to_value(&infos[i]));
        i = i + 1;
    }
    proof {
        xmlrpc::lemma_value_models(items@);
        assert(xmlrpc::value_models(items@) =~= info_values(
            infos@.map_values(|i: ProcessInfo| i@),
        ));
    }
    Value::Array(items)
}

// ---------------------------------------------------------------------------
// Calls
// ---------------------------------------------------------------------------

/// A method name without the namespace, if it has it.
fn bare(method: &str) -> (r: Vec<char>)
    ensures
        r@ == bare_name(method@),
{
    let chars = text::chars_of(method);
    if text::starts_with(chars.as_slice(), "supervisor.") {
        proof {
            reveal_strlit("supervisor.");
        }
        let n = chars.len();
        text::to_vec(slice_subrange(chars.as_slice(), 11, n))
    } else {
        chars
    }
}

/// A call that operates on the process that the first parameter names.
fn run_one(params: &[Value], verb: Verb) -> (r: Pending)
    ensures
        r@ == single(xmlrpc::value_models(params@), verb),
{
    match str_param(params, 0) {
        Ok(name) => {
            let names: Vec<String> = vec![name];
            proof {
                assert(text::texts(names@) =~= seq![name@]);
            }
            Pending::Run(Batch::new(verb, names), Shape::Truth)
        },
        Err(f) => Pending::Reply(Err(f)),
    }
}

/// A call that operates on the group that the first parameter names.
fn run_group(sup: &Supervisor, params: &[Value], verb: Verb) -> (r: Pending)
    ensures
        r@ == grouped(sup@.processes, xmlrpc::value_models(params@), verb),
{
    match str_param(params, 0) {
        Ok(group) => {
            let names = sup.group_targets(group.as_str());
            Pending::RunGroup(Batch::new(verb, names), group)
        },
        Err(f) => Pending::Reply(Err(f)),
    }
}

/// A call that reads a log of the process that the first parameter names.
fn read_one(params: &[Value], channel: Stream, tail: bool) -> (r: Pending)
    ensures
        r@ == reading(xmlrpc::value_models(params@), channel, tail),
{
    match str_param(params, 0) {
        Ok(name) => Pending::Read(
            LogQuery {
                name,
                channel,
                offset: int_param(params, 1),
                length: int_param(params, 2),
                tail,
            },
        ),
        Err(f) => Pending::Reply(Err(f)),
    }
}

/// The state of the supervisor as a value.
fn state_value(sup: &Supervisor) -> (r: Value)
    ensures
        r@ == ValueModel::Struct(
            seq![
                (
                    "statecode"@,
                    ValueModel::Int(
                        states::supervisor_code(daemon::overall_state(sup@)) as int,
                    ),
                ),
                (
                    "statename"@,
                    ValueModel::Str(states::supervisor_name(daemon::overall_state(sup@))),
                ),
            ],
        ),
{
    let state = sup.supervisor_state();
    let members: Vec<(String, Value)> = vec![
        ("statecode".to_string(), Value::Int(state.code())),
        ("statename".to_string(), text_value(state.description())),
    ];
    proof {
        xmlrpc::lemma_member_models(members@);
        assert(xmlrpc::member_models(members@) =~= seq![
            (
                "statecode"@,
                ValueModel::Int(states::supervisor_code(daemon::overall_state(sup@)) as int),
            ),
            (
                "statename"@,
                ValueModel::Str(states::supervisor_name(daemon::overall_state(sup@))),
            ),
        ]);
    }
    Value::Struct(members)
}

/// Answers a call that does not change the supervisor.
fn answer_query(sup: &Supervisor, name: &[char], params: &[Value], at: &Moment) -> (r: Option<
    Pending,
>)
    requires
        at.stops@.len() == sup@.processes.len(),
    ensures
        match (
            r,
            query_of(
                sup@,
                name@,
                xmlrpc::value_models(params@),
                at.epoch,
                at.stops@,
                at.pid,
            ),
        ) {
            (Some(p), Some(q)) => p@ == q,
            (None, None) => true,
            _ => false,
        },
{
    if text::spells(name, "getAPIVersion") || text::spells(name, "getVersion") {
        Some(Pending::Reply(Ok(text_value(API_VERSION))))
    } else if text::spells(name, "getSupervisorVersion") {
        Some(Pending::Reply(Ok(text_value(VERSION))))
    } else if text::spells(name, "getIdentification") {
        Some(Pending::Reply(Ok(text_value(sup.identifier()))))
    } else if text::spells(name, "getState") {
        Some(Pending::Reply(Ok(state_value(sup))))
    } else if text::spells(name, "getPID") {
        Some(Pending::Reply(Ok(Value::Int(at.pid as i64))))
    } else if text::spells(name, "getAllProcessInfo") {
        let infos = sup.all_process_info(at.epoch, &at.stops);
        Some(Pending::Reply(Ok(info_array(&infos))))
    } else if text::spells(name, "getProcessInfo") {
        match str_param(params, 0) {
            Ok(wanted) => match sup.process_info(wanted.as_str(), at.epoch, &at.stops) {
                Some(info) => Some(Pending::Reply(Ok(info_to_value(&info)))),
                None => Some(Pending::Reply(Err((faults::BAD_NAME, wanted)))),
            },
            Err(f) => Some(Pending::Reply(Err(f))),
        }
    } else {
        None
    }
}

/// Prepares a call that operates on processes or reads their logs.
fn plan_operation(sup: &Supervisor, name: &[char], params: &[Value]) -> (r: Option<Pending>)
    ensures
        match (r, operation_of(sup@, name@, xmlrpc::value_models(params@))) {
            (Some(p), Some(q)) => p@ == q,
            (None, None) => true,
            _ => false,
        },
{
    if text::spells(name, "startProcess") {
        Some(run_one(params, Verb::Start))
    } else if text::spells(name, "stopProcess") {
        Some(run_one(params, Verb::Stop))
    } else if text::spells(name, "startProcessGroup") {
        Some(run_group(sup, params, Verb::Start))
    } else if text::spells(name, "stopProcessGroup") {
        Some(run_group(sup, params, Verb::Stop))
    } else if text::spells(name, "startAllProcesses") {
        Some(Pending::Run(sup.op_start_all(), Shape::All))
    } else if text::spells(name, "stopAllProcesses") {
        Some(Pending::Run(sup.op_stop_all(), Shape::All))
    } else if text::spells(name, "readProcessStdoutLog") || text::spells(name, "readProcessLog") {
        Some(read_one(params, Stream::Stdout, false))
    } else if text::spells(name, "readProcessStderrLog") {
        Some(read_one(params, Stream::Stderr, false))
    } else if text::spells(name, "tailProcessStdoutLog") {
        Some(read_one(params, Stream::Stdout, true))
    } else if text::spells(name, "tailProcessStderrLog") {
        Some(read_one(params, Stream::Stderr, true))
    } else {
        None
    }
}

/// The answer to a call that asks for nothing but to be carried out.
pub fn success() -> (r: Value)
    ensures
        r@ == ValueModel::Bool(true),
{
    Value::Bool(true)
}

/// Deals with a call that is about the configuration.
fn reconfigure(sup: &mut Supervisor, name: &[char], params: &[Value]) -> (r: Option<Pending>)
    requires
        old(sup).well_formed(),
    ensures
        final(sup).well_formed(),
        match (r, reconfiguration_of(old(sup)@, name@, xmlrpc::value_models(params@))) {
            (Some(p), Some(q)) => (final(sup)@, p@) == q,
            (None, None) => final(sup)@ == old(sup)@,
            _ => false,
        },
{
    if text::spells(name, "reloadConfig") {
        Some(Pending::Reload)
    } else if text::spells(name, "addProcessGroup") {
        match str_param(params, 0) {
            Ok(group) => match sup.group_to_add(group.as_str()) {
                Ok(programs) => Some(Pending::Add(programs)),
                Err(f) => Some(Pending::Reply(Err(f))),
            },
            Err(f) => Some(Pending::Reply(Err(f))),
        }
    } else if text::spells(name, "removeProcessGroup") {
        match str_param(params, 0) {
            Ok(group) => match sup.remove_group(group.as_str()) {
                Ok(positions) => Some(Pending::Removed(positions)),
                Err(f) => Some(Pending::Reply(Err(f))),
            },
            Err(f) => Some(Pending::Reply(Err(f))),
        }
    } else {
        None
    }
}

/// Dispatches a single XML-RPC call.
pub fn dispatch(sup: &mut Supervisor, method: &str, params: &[Value], at: &Moment) -> (r: Pending)
    requires
        old(sup).well_formed(),
        at.stops@.len() == old(sup)@.processes.len(),
    ensures
        final(sup).well_formed(),
        (final(sup)@, r@) == dispatched(
            old(sup)@,
            method@,
            xmlrpc::value_models(params@),
            at.epoch,
            at.stops@,
            at.pid,
        ),
{
    let name = bare(method);
    if let Some(p) = answer_query(sup, name.as_slice(), params, at) {
        return p;
    }
    if let Some(p) = plan_operation(sup, name.as_slice(), params) {
        return p;
    }
    if let Some(p) = reconfigure(sup, name.as_slice(), params) {
        return p;
    }
    if text::spells(name.as_slice(), "shutdown") {
        sup.request_shutdown();
        Pending::Reply(Ok(success()))
    } else if text::spells(name.as_slice(), "restart") {
        sup.request_restart();
        Pending::Reply(Ok(success()))
    } else {
        let mut m = "supervisor.".to_string();
        m.append(text::string_of(name.as_slice()).as_str());
        Pending::Reply(Err((faults::UNKNOWN_METHOD, m)))
    }
}

/// The outcomes of an operation on every process as a value.
fn entry_array(es: &Vec<(String, String, i32, String)>) -> (r: Value)
    ensures
        r@ == ValueModel::Array(entry_values(batch::entry_list(es@))),
{
    let mut items: Vec<Value> = Vec::new();
    let mut i: usize = 0;
    while i < es.len()
        invariant
            i <= es@.len(),
            items@.len() == i,
            forall|k: int|
                0 <= k < i ==> (#[trigger] items@[k])@ == entry_values(
                    batch::entry_list(es@),
                )[k],
        decreases es@.len() - i,
    {
        items.push(
            result_struct(es[i].0.as_str(), es[i].1.as_str(), es[i].2, es[i].3.as_str()),
        );
        i = i + 1;
    }
    proof {
        xmlrpc::lemma_value_models(items@);
        assert(xmlrpc::value_models(items@) =~= entry_values(batch::entry_list(es@)));
    }
    Value::Array(items)
}

/// The answer to a call whose operations have run.
pub fn finish_run(b: &Batch, shape: Shape, sup: &Supervisor) -> (r: Result<Value, (i32, String)>)
    requires
        b@.outcomes.len() <= b@.names.len(),
        shape is Truth ==> b@.outcomes.len() >= 1,
        shape is All ==> b@.outcomes.len() <= sup@.processes.len(),
    ensures
        answer_model(r) == run_answer(b@, shape, sup@.processes),
{
    match shape {
        Shape::Truth => {
            proof {
                assert(b@.outcomes[0] == batch::outcome_model(b.outcomes@[0]));
            }
            match &b.outcomes[0] {
                Ok(_) => Ok(Value::Bool(true)),
                Err(f) => Err((f.0, f.1.clone())),
            }
        },
        Shape::All => Ok(entry_array(&b.entries(sup))),
    }
}

/// The answer to a call whose operations on a group have run.
pub fn finish_group(b: &Batch, group: &str) -> (r: Value)
    requires
        b@.outcomes.len() <= b@.names.len(),
    ensures
        r@ == group_answer(b@, group@),
{
    let mut items: Vec<Value> = Vec::new();
    let mut k: usize = 0;
    while k < b.outcomes.len()
        invariant
            b@.outcomes.len() <= b@.names.len(),
            k <= b.outcomes@.len(),
            items@.len() == k,
            forall|j: int|
                0 <= j < k ==> (#[trigger] items@[j])@ == group_answer(b@, group@)->Array_0[j],
        decreases b.outcomes@.len() - k,
    {
        proof {
            assert(b@.outcomes[k as int] == batch::outcome_model(b.outcomes@[k as int]));
            assert(b@.names[k as int] == b.names@[k as int]@);
        }
        let name = b.names[k].as_str();
        let item = match &b.outcomes[k] {
            Ok(_) => result_struct(name, group, faults::SUCCESS, batch::success_word(b.verb)),
            Err(f) => result_struct(name, group, f.0, "error"),
        };
        items.push(item);
        k = k + 1;
    }
    proof {
        xmlrpc::lemma_value_models(items@);
        assert(xmlrpc::value_models(items@) =~= group_answer(b@, group@)->Array_0);
    }
    Value::Array(items)
}

/// A list of names as a value.
fn name_array(names: &Vec<String>) -> (r: Value)
    ensures
        r@ == names_value(text::texts(names@)),
{
    let mut items: Vec<Value> = Vec::new();
    let mut i: usize = 0;
    while i < names.len()
        invariant
            i <= names@.len(),
            items@.len() == i,
            forall|k: int| 0 <= k < i ==> (#[trigger] items@[k])@ == ValueModel::Str(names@[k]@),
        decreases names@.len() - i,
    {
        items.push(text_value(names[i].as_str()));
        i = i + 1;
    }
    proof {
        xmlrpc::lemma_value_models(items@);
        assert(xmlrpc::value_models(items@) =~= names_value(text::texts(names@))->Array_0);
    }
    Value::Array(items)
}

/// What a new configuration changes, as the control interface shows it.
pub fn diff_to_value(d: &ConfigDiff) -> (r: Value)
    ensures
        r@ == diff_value(d@),
{
    let triple: Vec<Value> = vec![
        name_array(&d.added),
        name_array(&d.changed),
        name_array(&d.removed),
    ];
    let inner = Value::Array(triple);
    let outer: Vec<Value> = vec![inner];
    proof {
        xmlrpc::lemma_value_models(triple@);
        assert(xmlrpc::value_models(triple@) =~= diff_value(d@)->Array_0[0]->Array_0);
        xmlrpc::lemma_value_models(outer@);
        assert(xmlrpc::value_models(outer@) =~= diff_value(d@)->Array_0);
    }
    Value::Array(outer)
}

/// The answer to a call for which the configuration was read again: what the
/// new one changes, group by group, or why it could not be read.
pub fn finish_reload(sup: &mut Supervisor, read: Result<Config, String>) -> (r: Result<
    Value,
    (i32, String),
>)
    requires
        old(sup).well_formed(),
    ensures
        final(sup).well_formed(),
        (final(sup)@, answer_model(r)) == reloaded(old(sup)@, groups::read_model(read)),
{
    match read {
        Ok(fresh) => {
            let d = sup.reread(fresh);
            Ok(diff_to_value(&d))
        },
        Err(e) => Err((faults::CANT_REREAD, e)),
    }
}

/// The name of a stream as a channel.
pub fn channel_name(stream: Stream) -> (r: &'static str)
    ensures
        daemon::stream_of(r@) == stream,
{
    proof {
        reveal_strlit("stdout");
        reveal_strlit("stderr");
        assert("stdout"@[3] == 'o');
        assert("stderr"@[3] == 'e');
    }
    match stream {
        Stream::Stdout => "stdout",
        Stream::Stderr => "stderr",
    }
}

/// The sum of two numbers, at most the largest there is.
fn add_capped(a: i64, b: usize) -> (r: i64)
    ensures
        r == capped_sum(a as int, b as int),
{
    let total: i128 = a as i128 + b as i128;
    if total > i64::MAX as i128 {
        i64::MAX
    } else {
        total as i64
    }
}

/// The answer to a call whose log has been read.
pub fn finish_read(q: &LogQuery, sup: &Supervisor, file: &LogFile) -> (r: Result<
    Value,
    (i32, String),
>)
    ensures
        answer_model(r) == read_answer(q@, sup@, file@),
{
    let got = sup.read_log(
        q.name.as_str(),
        channel_name(q.channel),
        q.offset,
        q.length,
        file,
    );
    if !q.tail {
        return match got {
            Ok(t) => Ok(Value::Str(t)),
            Err(f) => Err(f),
        };
    }
    let over = match file {
        LogFile::Data(d) => got.is_ok() && (q.length < 0 && d.len() > 0 || q.length >= 0
            && d.len() as u64 > q.length as u64),
        _ => false,
    };
    let t = match got {
        Ok(t) => t,
        Err(_) => {
            let e = String::new();
            proof {
                assert(e@ =~= Seq::<char>::empty());
            }
            e
        },
    };
    let n = util::bytes_of(t.as_str()).len();
    let items: Vec<Value> = vec![
        Value::Str(t),
        Value::Int(add_capped(q.offset, n)),
        Value::Bool(over),
    ];
    proof {
        xmlrpc::lemma_value_models(items@);
        assert(xmlrpc::value_models(items@) =~= read_answer(q@, sup@, file@)->Ok_0->Array_0);
    }
    Ok(Value::Array(items))
}

} // verus!
