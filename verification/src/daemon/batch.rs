//! Operations on one process after another. Each alternates between decisions
//! and work on the operating system's side: a [`Batch`] says what to do next,
//! and goes on when that is done.
use crate::daemon;
use crate::daemon::Supervisor;
use crate::daemon::SupervisorModel;
use crate::daemon::Verb;
use crate::process::machine;
use crate::process::machine::Action;
use crate::process::machine::ProcessModel;
use crate::process::machine::Request;
use crate::rpc::faults;
use crate::text;
use vstd::prelude::*;

verus! {

// ---------------------------------------------------------------------------
// Types
// ---------------------------------------------------------------------------

/// How far the operation on the current process has come.
#[derive(Clone, Copy, PartialEq, Eq, Debug, Structural)]
pub enum Stage {
    /// It is yet to begin.
    Begin,
    /// It has begun, on the process at this position. Children are to be
    /// reaped, so that an instant failure shows at once.
    Reap(usize),
    /// Children have been reaped; the process is to be advanced.
    Settle(usize),
    /// Its outcome is to be taken.
    Check(usize),
}

/// The same operation on a list of processes.
#[derive(Debug)]
pub struct Batch {
    pub verb: Verb,
    pub names: Vec<String>,
    pub stage: Stage,
    /// What came of it, for the names that have been dealt with.
    pub outcomes: Vec<Result<(), (i32, String)>>,
}

/// The mathematical content of a [`Batch`].
#[verifier::ext_equal]
pub struct BatchModel {
    pub verb: Verb,
    pub names: Seq<Seq<char>>,
    pub stage: Stage,
    pub outcomes: Seq<Result<(), (i32, Seq<char>)>>,
}

/// The content of an outcome.
pub open spec fn outcome_model(r: Result<(), (i32, String)>) -> Result<(), (i32, Seq<char>)> {
    match r {
        Ok(_) => Ok(()),
        Err(f) => Err(daemon::fault_model(f)),
    }
}

/// The contents of a list of outcomes.
pub open spec fn outcome_list(v: Seq<Result<(), (i32, String)>>) -> Seq<
    Result<(), (i32, Seq<char>)>,
> {
    v.map_values(|r: Result<(), (i32, String)>| outcome_model(r))
}

impl View for Batch {
    type V = BatchModel;

    open spec fn view(&self) -> BatchModel {
        BatchModel {
            verb: self.verb,
            names: text::texts(self.names@),
            stage: self.stage,
            outcomes: outcome_list(self.outcomes@),
        }
    }
}

/// What to do next.
#[derive(Debug, PartialEq)]
pub enum Work {
    /// Perform an action for the process at a position.
    Act { index: usize, action: Action },
    /// Reap the children that have exited.
    Reap,
    /// Nothing; there is more to decide.
    Proceed,
    /// Nothing; every name has been dealt with.
    Done,
}

/// The mathematical content of a [`Work`].
pub enum WorkModel {
    Act { index: int, action: Request },
    Reap,
    Proceed,
    Done,
}

impl View for Work {
    type V = WorkModel;

    open spec fn view(&self) -> WorkModel {
        match self {
            Work::Act { index, action } => WorkModel::Act { index: *index as int, action: action@ },
            Work::Reap => WorkModel::Reap,
            Work::Proceed => WorkModel::Proceed,
            Work::Done => WorkModel::Done,
        }
    }
}

// ---------------------------------------------------------------------------
// The model
// ---------------------------------------------------------------------------

/// A batch of which nothing has been done.
pub open spec fn new_batch(verb: Verb, names: Seq<Seq<char>>) -> BatchModel {
    BatchModel { verb, names, stage: Stage::Begin, outcomes: Seq::empty() }
}

/// Whether a batch goes with a supervisor of `count` processes.
pub open spec fn fits(b: BatchModel, count: nat) -> bool {
    &&& b.outcomes.len() <= b.names.len()
    &&& match b.stage {
        Stage::Begin => true,
        Stage::Reap(i) => i < count,
        Stage::Settle(i) => i < count,
        Stage::Check(i) => i < count,
    }
}

/// Whether every name has been dealt with.
pub open spec fn is_done(b: BatchModel) -> bool {
    b.outcomes.len() >= b.names.len()
}

/// The batch with the outcome for one more name.
pub open spec fn with_outcome(b: BatchModel, o: Result<(), (i32, Seq<char>)>) -> BatchModel {
    BatchModel { outcomes: b.outcomes.push(o), stage: Stage::Begin, ..b }
}

/// One step of a batch: the batch and the supervisor after it, and what to do.
pub open spec fn stepped(b: BatchModel, s: SupervisorModel, now: u128) -> (
    BatchModel,
    SupervisorModel,
    WorkModel,
) {
    if is_done(b) {
        (b, s, WorkModel::Done)
    } else {
        let name = b.names[b.outcomes.len() as int];
        match b.stage {
            Stage::Begin => match daemon::begun(b.verb, s, name, now) {
                Err(f) => (with_outcome(b, Err(f)), s, WorkModel::Proceed),
                Ok((t, i, r)) => (
                    BatchModel {
                        stage: if b.verb is Restart {
                            Stage::Check(i as usize)
                        } else {
                            Stage::Reap(i as usize)
                        },
                        ..b
                    },
                    t,
                    WorkModel::Act { index: i, action: r },
                ),
            },
            Stage::Reap(i) => (
                BatchModel {
                    stage: if b.verb is Start {
                        Stage::Settle(i)
                    } else {
                        Stage::Check(i)
                    },
                    ..b
                },
                s,
                WorkModel::Reap,
            ),
            Stage::Settle(i) => {
                let (q, r) = machine::advanced(s.processes[i as int], now, false);
                (
                    BatchModel { stage: Stage::Check(i), ..b },
                    daemon::with_process(s, i as int, q),
                    WorkModel::Act { index: i as int, action: r },
                )
            },
            Stage::Check(i) => (
                with_outcome(
                    b,
                    if b.verb is Start {
                        daemon::start_outcome(s.processes[i as int], name)
                    } else {
                        Ok(())
                    },
                ),
                s,
                WorkModel::Proceed,
            ),
        }
    }
}

/// The code that reports an outcome.
pub open spec fn outcome_code(o: Result<(), (i32, Seq<char>)>) -> i32 {
    match o {
        Ok(_) => faults::SUCCESS,
        Err(f) => f.0,
    }
}

/// What a successful operation is called.
pub open spec fn done_word(verb: Verb) -> Seq<char> {
    match verb {
        Verb::Start => "started"@,
        Verb::Stop => "stopped"@,
        Verb::Restart => "restarted"@,
    }
}

/// The description that reports an outcome.
pub open spec fn outcome_text(verb: Verb, o: Result<(), (i32, Seq<char>)>) -> Seq<char> {
    match o {
        Ok(_) => done_word(verb),
        Err(f) => daemon::fault_message_text(f.0),
    }
}

/// One `(name, group, status, description)` per process.
pub open spec fn entries(b: BatchModel, ps: Seq<ProcessModel>) -> Seq<
    (Seq<char>, Seq<char>, i32, Seq<char>),
> {
    Seq::new(
        b.outcomes.len(),
        |k: int|
            (
                b.names[k],
                ps[k].config.group,
                outcome_code(b.outcomes[k]),
                outcome_text(b.verb, b.outcomes[k]),
            ),
    )
}

/// The content of an entry.
pub open spec fn entry_model(e: (String, String, i32, String)) -> (
    Seq<char>,
    Seq<char>,
    i32,
    Seq<char>,
) {
    (e.0@, e.1@, e.2, e.3@)
}

/// The contents of a list of entries.
pub open spec fn entry_list(v: Seq<(String, String, i32, String)>) -> Seq<
    (Seq<char>, Seq<char>, i32, Seq<char>),
> {
    v.map_values(|e: (String, String, i32, String)| entry_model(e))
}

// ---------------------------------------------------------------------------
// Execution
// ---------------------------------------------------------------------------

/// What a successful operation is called.
pub fn success_word(verb: Verb) -> (r: &'static str)
    ensures
        r@ == done_word(verb),
{
    match verb {
        Verb::Start => "started",
        Verb::Stop => "stopped",
        Verb::Restart => "restarted",
    }
}

impl Batch {
    /// A batch of which nothing has been done.
    pub fn new(verb: Verb, names: Vec<String>) -> (r: Batch)
        ensures
            r@ == new_batch(verb, text::texts(names@)),
    {
        let r = Batch { verb, names, stage: Stage::Begin, outcomes: Vec::new() };
        proof {
            assert(r@ =~= new_batch(verb, text::texts(names@)));
        }
        r
    }

    /// Takes note of what came of the operation on the current process.
    fn conclude(&mut self, o: Result<(), (i32, String)>)
        ensures
            final(self)@ == with_outcome(old(self)@, outcome_model(o)),
    {
        self.outcomes.push(o);
        self.stage = Stage::Begin;
        proof {
            assert(self@ =~= with_outcome(old(self)@, outcome_model(o)));
        }
    }

    /// Goes on by one step: what to do before the next.
    pub fn step(&mut self, sup: &mut Supervisor, now: u128) -> (r: Work)
        requires
            old(sup).well_formed(),
            fits(old(self)@, old(sup)@.processes.len()),
            now <= machine::MAX_NOW,
        ensures
            final(sup).well_formed(),
            (final(self)@, final(sup)@, r@) == stepped(old(self)@, old(sup)@, now),
            fits(final(self)@, final(sup)@.processes.len()),
    {
        let k = self.outcomes.len();
        if k >= self.names.len() {
            return Work::Done;
        }
        let name = self.names[k].clone();
        match self.stage {
            Stage::Begin => {
                let begun = match self.verb {
                    Verb::Start => sup.op_start(name.as_str(), now),
                    Verb::Stop => sup.op_stop(name.as_str(), now),
                    Verb::Restart => sup.op_restart(name.as_str(), now),
                };
                proof {
                    daemon::lemma_found_from(old(sup)@.processes, name@, 0);
                }
                match begun {
                    Err(f) => {
                        self.conclude(Err(f));
                        Work::Proceed
                    },
                    Ok(o) => {
                        let (index, action) = o;
                        self.stage =
                        match self.verb {
                            Verb::Restart => Stage::Check(index),
                            _ => Stage::Reap(index),
                        };
                        Work::Act { index, action }
                    },
                }
            },
            Stage::Reap(i) => {
                self.stage =
                match self.verb {
                    Verb::Start => Stage::Settle(i),
                    _ => Stage::Check(i),
                };
                Work::Reap
            },
            Stage::Settle(i) => {
                let action = sup.settle_start(i, now);
                self.stage = Stage::Check(i);
                Work::Act { index: i, action }
            },
            Stage::Check(i) => {
                let o = match self.verb {
                    Verb::Start => sup.start_result(i, name.as_str()),
                    _ => Ok(()),
                };
                self.conclude(o);
                Work::Proceed
            },
        }
    }

    /// One `(name, group, status, description)` per process.
    pub fn entries(&self, sup: &Supervisor) -> (r: Vec<(String, String, i32, String)>)
        requires
            self@.outcomes.len() <= self@.names.len(),
            self@.outcomes.len() <= sup@.processes.len(),
        ensures
            entry_list(r@) == entries(self@, sup@.processes),
    {
        let mut r: Vec<(String, String, i32, String)> = Vec::new();
        let mut k: usize = 0;
        while k < self.outcomes.len()
            invariant
                self@.outcomes.len() <= self@.names.len(),
                self@.outcomes.len() <= sup@.processes.len(),
                k <= self.outcomes@.len(),
                r@.len() == k,
                forall|j: int|
                    0 <= j < k ==> entry_model(#[trigger] r@[j]) == entries(
                        self@,
                        sup@.processes,
                    )[j],
            decreases self.outcomes@.len() - k,
        {
            proof {
                assert(self@.outcomes[k as int] == outcome_model(self.outcomes@[k as int]));
                assert(self@.names[k as int] == self.names@[k as int]@);
            }
            let (code, desc): (i32, &'static str) = match &self.outcomes[k] {
                Ok(_) => (faults::SUCCESS, success_word(self.verb)),
                Err(f) => (f.0, daemon::fault_message(f.0)),
            };
            r.push(
                (
                    self.names[k].clone(),
                    sup.processes[k].pool_name().to_string(),
                    code,
                    desc.to_string(),
                ),
            );
            k = k + 1;
        }
        proof {
            assert(entry_list(r@) =~= entries(self@, sup@.processes));
        }
        r
    }
}

impl Supervisor {
    /// The operation that starts every process.
    pub fn op_start_all(&self) -> (r: Batch)
        ensures
            r@ == new_batch(Verb::Start, daemon::names_of(self@.processes)),
    {
        Batch::new(Verb::Start, self.names())
    }

    /// The operation that stops every process.
    pub fn op_stop_all(&self) -> (r: Batch)
        ensures
            r@ == new_batch(Verb::Stop, daemon::names_of(self@.processes)),
    {
        Batch::new(Verb::Stop, self.names())
    }
}

} // verus!
