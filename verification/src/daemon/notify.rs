//! Routing and delivering events: what state changes and the passing of time
//! have produced goes to the buffers of the event listeners that subscribe to
//! it, and from there, one by one, to the listeners that are ready.
use crate::daemon;
use crate::daemon::Supervisor;
use crate::daemon::SupervisorModel;
use crate::events;
use crate::process::machine;
use crate::process::machine::ProcessModel;
use crate::text;
use crate::util;
use vstd::prelude::*;
use vstd::utf8;

verus! {

// ---------------------------------------------------------------------------
// The model
// ---------------------------------------------------------------------------

/// Whether a process is sent an event.
pub open spec fn receives(p: ProcessModel, name: Seq<char>) -> bool {
    p.config.is_listener && events::wants(p.subscribed, name)
}

/// A process after an event was offered to it.
pub open spec fn offered(p: ProcessModel, serial: u64, event: (Seq<char>, Seq<char>)) -> ProcessModel {
    if receives(p, event.0) {
        ProcessModel {
            event_buffer: machine::with_event(
                p.event_buffer,
                p.config.buffer_size as nat,
                (serial, event.0, event.1),
            ),
            ..p
        }
    } else {
        p
    }
}

/// The processes after an event was offered to all of them.
pub open spec fn offered_to_all(
    ps: Seq<ProcessModel>,
    serial: u64,
    event: (Seq<char>, Seq<char>),
) -> Seq<ProcessModel> {
    ps.map_values(|p: ProcessModel| offered(p, serial, event))
}

/// The supervisor after events were offered to all processes, in order.
pub open spec fn after_events(s: SupervisorModel, events: Seq<(Seq<char>, Seq<char>)>) -> SupervisorModel
    decreases events.len(),
{
    if events.len() == 0 {
        s
    } else {
        let t = after_events(s, events.drop_last());
        SupervisorModel {
            processes: offered_to_all(t.processes, t.event_serial, events.last()),
            event_serial: events::next_serial(t.event_serial),
            ..t
        }
    }
}

/// The events that the first `n` processes have produced, in order.
pub open spec fn produced(ps: Seq<ProcessModel>, n: int) -> Seq<(Seq<char>, Seq<char>)>
    decreases n,
{
    if n <= 0 {
        Seq::empty()
    } else {
        produced(ps, n - 1) + ps[n - 1].pending_events
    }
}

/// The processes with the events of the first `n` handed out.
pub open spec fn handed_out(ps: Seq<ProcessModel>, n: int) -> Seq<ProcessModel> {
    Seq::new(
        ps.len(),
        |i: int|
            if i < n {
                ProcessModel { pending_events: Seq::empty(), ..ps[i] }
            } else {
                ps[i]
            },
    )
}

/// The supervisor after every event has been routed: first its own, then those
/// of the processes.
pub open spec fn after_routing(s: SupervisorModel) -> SupervisorModel {
    let n = s.processes.len() as int;
    after_events(
        SupervisorModel {
            processes: handed_out(s.processes, n),
            pending_events: Seq::empty(),
            ..s
        },
        s.pending_events + produced(s.processes, n),
    )
}

/// The supervisor after ticks were looked for at `now`.
pub open spec fn ticked(s: SupervisorModel, now: u64) -> SupervisorModel {
    SupervisorModel {
        pending_events: s.pending_events + events::due_ticks(s.last_tick, now),
        last_tick: Some(now),
        ..s
    }
}

/// What is to be sent to a process: the envelope of its oldest event, if it is
/// a listener that is ready for one.
pub open spec fn outgoing(server: Seq<char>, p: ProcessModel) -> Option<Seq<char>> {
    if machine::can_receive(p) && p.event_buffer.len() > 0 {
        let e = p.event_buffer[0];
        Some(events::envelope_text(server, e.0, p.config.group, p.pool_serial, e.1, e.2))
    } else {
        None
    }
}

/// A listener whose oldest event went out.
pub open spec fn sent(p: ProcessModel) -> ProcessModel {
    ProcessModel {
        pool_serial: events::next_serial(p.pool_serial),
        ..machine::event_sent(p)
    }
}

// ---------------------------------------------------------------------------
// Execution
// ---------------------------------------------------------------------------

/// Processes with the same pids have the same children.
proof fn lemma_same_pids(ps: Seq<ProcessModel>, qs: Seq<ProcessModel>)
    requires
        ps.len() == qs.len(),
        forall|i: int|
            0 <= i < ps.len() ==> (#[trigger] ps[i]).pid == qs[i].pid,
    ensures
        daemon::children(ps) == daemon::children(qs),
    decreases ps.len(),
{
    if ps.len() > 0 {
        let a = ps.drop_last();
        let b = qs.drop_last();
        assert forall|i: int| 0 <= i < a.len() implies (#[trigger] a[i]).pid == b[i].pid by {
            assert(a[i] == ps[i]);
            assert(b[i] == qs[i]);
        }
        lemma_same_pids(a, b);
        assert(ps[ps.len() - 1].pid == qs[qs.len() - 1].pid);
    }
}

impl Supervisor {
    /// Offers an event to every process.
    fn offer(&mut self, name: &str, payload: &str)
        requires
            old(self).well_formed(),
        ensures
            final(self).well_formed(),
            final(self)@ == (SupervisorModel {
                processes: offered_to_all(
                    old(self)@.processes,
                    old(self)@.event_serial,
                    (name@, payload@),
                ),
                event_serial: events::next_serial(old(self)@.event_serial),
                ..old(self)@
            }),
    {
        let serial = self.event_serial;
        let ghost before = self@;
        let ghost all = offered_to_all(before.processes, serial, (name@, payload@));
        let mut i: usize = 0;
        while i < self.processes.len()
            invariant
                i <= self.processes@.len(),
                before == old(self)@,
                old(self).well_formed(),
                self.pid_index@ == old(self).pid_index@,
                serial == before.event_serial,
                all == offered_to_all(before.processes, serial, (name@, payload@)),
                self@ == (SupervisorModel { processes: self@.processes, ..before }),
                self@.processes.len() == before.processes.len(),
                forall|k: int| 0 <= k < i ==> #[trigger] self@.processes[k] == all[k],
                forall|k: int|
                    i <= k < before.processes.len() ==> #[trigger] self@.processes[k]
                        == before.processes[k],
            decreases self.processes@.len() - i,
        {
            proof {
                assert(self@.processes[i as int] == before.processes[i as int]);
            }
            let ghost was = self@.processes;
            if self.processes[i].is_listener() && self.processes[i].subscribed_to(name) {
                self.processes[i].buffer_event(serial, name, payload);
                proof {
                    assert(self@.processes =~= was.update(i as int, all[i as int]));
                }
            }
            i = i + 1;
        }
        self.event_serial = events::following(self.event_serial);
        proof {
            assert(self@.processes =~= all);
            assert(daemon::programs_of(self@.processes) =~= daemon::programs_of(before.processes));
            lemma_same_pids(before.processes, self@.processes);
            assert forall|k: int| 0 <= k < self@.processes.len() implies machine::well_formed(
                #[trigger] self@.processes[k],
            ) by {
                assert(machine::well_formed(before.processes[k]));
            }
        }
    }

    /// Hands out the events that every process has produced, in order.
    fn collect_events(&mut self) -> (r: Vec<(String, String)>)
        requires
            old(self).well_formed(),
        ensures
            final(self).well_formed(),
            text::text_pairs(r@) == produced(
                old(self)@.processes,
                old(self)@.processes.len() as int,
            ),
            final(self)@ == (SupervisorModel {
                processes: handed_out(
                    old(self)@.processes,
                    old(self)@.processes.len() as int,
                ),
                ..old(self)@
            }),
    {
        let ghost before = self@;
        let mut r: Vec<(String, String)> = Vec::new();
        let mut i: usize = 0;
        proof {
            assert(text::text_pairs(r@) =~= produced(before.processes, 0));
            assert(handed_out(before.processes, 0) =~= before.processes);
        }
        while i < self.processes.len()
            invariant
                i <= self.processes@.len(),
                before == old(self)@,
                old(self).well_formed(),
                self.pid_index@ == old(self).pid_index@,
                self@ == (SupervisorModel { processes: self@.processes, ..before }),
                self@.processes == handed_out(before.processes, i as int),
                self@.processes.len() == before.processes.len(),
                text::text_pairs(r@) == produced(before.processes, i as int),
            decreases self.processes@.len() - i,
        {
            let ghost was = self@.processes;
            let ghost got = r@;
            proof {
                assert(i < was.len());
                assert(was[i as int] == before.processes[i as int]);
            }
            let mut more = self.processes[i].take_events();
            let ghost fresh = more@;
            r.append(&mut more);
            proof {
                let p = before.processes[i as int];
                let q = ProcessModel { pending_events: Seq::empty(), ..p };
                assert(self@.processes =~= was.update(i as int, q));
            }
            i = i + 1;
            proof {
                assert(text::text_pairs(r@) =~= text::text_pairs(got) + text::text_pairs(fresh));
                assert(self@.processes =~= handed_out(before.processes, i as int));
            }
        }
        proof {
            assert(daemon::programs_of(self@.processes) =~= daemon::programs_of(before.processes));
            lemma_same_pids(before.processes, self@.processes);
            assert forall|k: int| 0 <= k < self@.processes.len() implies machine::well_formed(
                #[trigger] self@.processes[k],
            ) by {
                assert(machine::well_formed(before.processes[k]));
            }
        }
        r
    }

    /// Hands out the events about the supervisor itself.
    fn take_events(&mut self) -> (r: Vec<(String, String)>)
        requires
            old(self).well_formed(),
        ensures
            final(self).well_formed(),
            text::text_pairs(r@) == old(self)@.pending_events,
            final(self)@ == (SupervisorModel { pending_events: Seq::empty(), ..old(self)@ }),
    {
        let mut none: Vec<(String, String)> = Vec::new();
        proof {
            assert(text::text_pairs(none@) =~= Seq::<(Seq<char>, Seq<char>)>::empty());
        }
        std::mem::swap(&mut self.pending_events, &mut none);
        none
    }

    /// Looks for ticks at a time given in seconds since the epoch.
    pub fn tick(&mut self, now: u64)
        requires
            old(self).well_formed(),
        ensures
            final(self).well_formed(),
            final(self)@ == ticked(old(self)@, now),
    {
        let mut fresh = events::ticks(self.last_tick, now);
        let ghost own = self.pending_events@;
        let ghost due = fresh@;
        self.pending_events.append(&mut fresh);
        self.last_tick = Some(now);
        proof {
            assert(text::text_pairs(self.pending_events@) =~= text::text_pairs(own)
                + text::text_pairs(due));
        }
    }

    /// What is to be written to the stdin of a process: the envelope of the
    /// next event, if it is a listener that is ready for one.
    pub fn next_envelope(&self, i: usize) -> (r: Option<Vec<u8>>)
        requires
            i < self@.processes.len(),
        ensures
            match (r, outgoing(self@.config.supervisord.identifier, self@.processes[i as int])) {
                (Some(bytes), Some(s)) => bytes@ == utf8::encode_utf8(s),
                (None, None) => true,
                _ => false,
            },
    {
        if !self.processes[i].listener_ready() {
            return None;
        }
        match self.processes[i].peek_event() {
            None => None,
            Some(e) => {
                let s = events::envelope(
                    self.identifier(),
                    e.0,
                    self.processes[i].pool_name(),
                    self.processes[i].pool_serial,
                    e.1.as_str(),
                    e.2.as_str(),
                );
                Some(util::bytes_of(s.as_str()))
            },
        }
    }

    /// Takes note of what came of writing an envelope of `len` bytes to the
    /// stdin of a process: `written` is the number of bytes that went out
    /// (negative on an error), `None` when there is no pipe. The event is
    /// consumed if all did. Returns whether it was.
    pub fn envelope_written(&mut self, i: usize, written: Option<i64>, len: usize) -> (r: bool)
        requires
            old(self).well_formed(),
            i < old(self)@.processes.len(),
        ensures
            final(self).well_formed(),
            r == machine::went_out(written, len as int),
            final(self)@ == (if r {
                daemon::with_process(old(self)@, i as int, sent(old(self)@.processes[i as int]))
            } else {
                old(self)@
            }),
    {
        let r = self.processes[i].send_event(written, len);
        if r {
            self.processes[i].count_event();
        }
        proof {
            let p = old(self)@.processes[i as int];
            if r {
                assert(self@ =~= daemon::with_process(old(self)@, i as int, sent(p)));
            } else {
                assert(self@.processes =~= old(self)@.processes);
                assert(self@ =~= old(self)@);
            }
            lemma_same_pids(old(self)@.processes, self@.processes);
            assert(daemon::programs_of(self@.processes) =~= daemon::programs_of(
                old(self)@.processes,
            ));
        }
        r
    }

    /// Routes the events that state changes and ticks have produced to the
    /// listeners that subscribe to them.
    pub fn route_events(&mut self)
        requires
            old(self).well_formed(),
        ensures
            final(self).well_formed(),
            final(self)@ == after_routing(old(self)@),
    {
        let mut fresh = self.take_events();
        let ghost own = fresh@;
        let mut more = self.collect_events();
        let ghost theirs = more@;
        fresh.append(&mut more);
        proof {
            assert(text::text_pairs(fresh@) =~= text::text_pairs(own) + text::text_pairs(theirs));
        }
        let ghost start = self@;
        let ghost all = text::text_pairs(fresh@);
        let mut i: usize = 0;
        proof {
            assert(self@ == after_events(start, all.take(0)));
        }
        while i < fresh.len()
            invariant
                i <= fresh@.len(),
                all == text::text_pairs(fresh@),
                self.well_formed(),
                self@ == after_events(start, all.take(i as int)),
            decreases fresh@.len() - i,
        {
            self.offer(fresh[i].0.as_str(), fresh[i].1.as_str());
            proof {
                let t = all.take(i as int + 1);
                assert(t.drop_last() =~= all.take(i as int));
                assert(t.last() == all[i as int]);
            }
            i = i + 1;
        }
        proof {
            assert(all.take(i as int) =~= all);
        }
    }
}

// ---------------------------------------------------------------------------
// Laws
// ---------------------------------------------------------------------------

/// Every listener that subscribes to an event gets it, as its newest, and no
/// other process does.
pub proof fn law_event_reaches_its_subscribers(
    ps: Seq<ProcessModel>,
    serial: u64,
    event: (Seq<char>, Seq<char>),
    i: int,
)
    requires
        0 <= i < ps.len(),
    ensures
        ({
            let q = offered_to_all(ps, serial, event)[i];
            if receives(ps[i], event.0) {
                q.event_buffer.last() == (serial, event.0, event.1)
            } else {
                q == ps[i]
            }
        }),
{
}

/// Offering events leaves everything about a process but its buffer.
proof fn lemma_after_events(s: SupervisorModel, fresh: Seq<(Seq<char>, Seq<char>)>)
    ensures
        after_events(s, fresh).pending_events == s.pending_events,
        after_events(s, fresh).config == s.config,
        after_events(s, fresh).available == s.available,
        after_events(s, fresh).processes.len() == s.processes.len(),
        forall|i: int|
            0 <= i < s.processes.len() ==> (ProcessModel {
                event_buffer: s.processes[i].event_buffer,
                ..#[trigger] after_events(s, fresh).processes[i]
            }) == s.processes[i],
    decreases fresh.len(),
{
    if fresh.len() > 0 {
        lemma_after_events(s, fresh.drop_last());
        let t = after_events(s, fresh.drop_last());
        assert forall|i: int| 0 <= i < s.processes.len() implies (ProcessModel {
            event_buffer: s.processes[i].event_buffer,
            ..#[trigger] after_events(s, fresh).processes[i]
        }) == s.processes[i] by {
            assert((ProcessModel { event_buffer: s.processes[i].event_buffer, ..t.processes[i] })
                == s.processes[i]);
        }
    }
}

/// Every event is routed once: routing leaves none behind, and changes nothing
/// else about a process than its buffer.
pub proof fn law_events_are_routed_once(s: SupervisorModel)
    ensures
        ({
            let t = after_routing(s);
            &&& t.pending_events.len() == 0
            &&& t.config == s.config
            &&& t.available == s.available
            &&& t.processes.len() == s.processes.len()
            &&& forall|i: int|
                0 <= i < s.processes.len() ==> (#[trigger] t.processes[i]).pending_events.len() == 0
                    && (ProcessModel {
                    event_buffer: s.processes[i].event_buffer,
                    pending_events: s.processes[i].pending_events,
                    ..t.processes[i]
                }) == s.processes[i]
        }),
{
    let n = s.processes.len() as int;
    let m = SupervisorModel {
        processes: handed_out(s.processes, n),
        pending_events: Seq::empty(),
        ..s
    };
    lemma_after_events(m, s.pending_events + produced(s.processes, n));
    let t = after_routing(s);
    assert forall|i: int| 0 <= i < s.processes.len() implies (
    #[trigger] t.processes[i]).pending_events.len() == 0 && (ProcessModel {
        event_buffer: s.processes[i].event_buffer,
        pending_events: s.processes[i].pending_events,
        ..t.processes[i]
    }) == s.processes[i] by {
        assert((ProcessModel { event_buffer: m.processes[i].event_buffer, ..t.processes[i] })
            == m.processes[i]);
    }
}

/// A listener that is ready is sent its oldest event. Once that went out it is
/// sent nothing more until it is ready again, and then the event after that,
/// under the next number.
pub proof fn law_events_are_delivered_in_order(server: Seq<char>, p: ProcessModel)
    requires
        machine::can_receive(p),
        p.event_buffer.len() > 0,
    ensures
        ({
            let e = p.event_buffer[0];
            let q = sent(p);
            &&& outgoing(server, p) == Some(
                events::envelope_text(server, e.0, p.config.group, p.pool_serial, e.1, e.2),
            )
            &&& outgoing(server, q) is None
            &&& q.event_buffer == p.event_buffer.skip(1)
            &&& p.pool_serial < u64::MAX ==> q.pool_serial == p.pool_serial + 1
        }),
{
}

/// Nothing is sent to a process that is no listener, does not run, or has not
/// asked for an event.
pub proof fn law_only_ready_listeners_are_sent_events(server: Seq<char>, p: ProcessModel)
    requires
        !p.config.is_listener || p.state !is Running || p.listener.state !is Ready,
    ensures
        outgoing(server, p) is None,
{
}

/// Events are numbered one after another, and each is offered under its number.
pub proof fn law_events_are_numbered(
    s: SupervisorModel,
    fresh: Seq<(Seq<char>, Seq<char>)>,
    e: (Seq<char>, Seq<char>),
)
    requires
        after_events(s, fresh).event_serial < u64::MAX,
    ensures
        ({
            let t = after_events(s, fresh);
            let u = after_events(s, fresh.push(e));
            &&& u.event_serial == t.event_serial + 1
            &&& u.processes == offered_to_all(t.processes, t.event_serial, e)
            &&& u.config == t.config && u.pending_events == t.pending_events
            &&& after_events(s, Seq::empty()) == s
        }),
{
    assert(fresh.push(e).drop_last() =~= fresh);
}

/// Looking for ticks queues those that are due behind what waits already, and
/// takes note of the time.
pub proof fn law_ticks_are_noted(s: SupervisorModel, now: u64)
    ensures
        ({
            let t = ticked(s, now);
            &&& t.last_tick == Some(now)
            &&& t.pending_events.take(s.pending_events.len() as int) == s.pending_events
            &&& t.pending_events.skip(s.pending_events.len() as int) == events::due_ticks(
                s.last_tick,
                now,
            )
            &&& t.processes == s.processes && t.config == s.config
            &&& ticked(t, now).pending_events == t.pending_events
        }),
{
    let t = ticked(s, now);
    let n = s.pending_events.len() as int;
    assert(t.pending_events.take(n) =~= s.pending_events);
    assert(t.pending_events.skip(n) =~= events::due_ticks(s.last_tick, now));
    assert(ticked(t, now).pending_events =~= t.pending_events);
}

/// The events of the processes are taken in the order of the processes.
pub proof fn law_produced_events(ps: Seq<ProcessModel>, n: int)
    requires
        0 <= n < ps.len(),
    ensures
        produced(ps, 0).len() == 0,
        produced(ps, n + 1) == produced(ps, n) + ps[n].pending_events,
{
}

/// A listener gets an event just if it is a listener and subscribes to it.
pub proof fn law_who_receives(p: ProcessModel, name: Seq<char>)
    ensures
        receives(p, name) ==> p.config.is_listener,
        p.config.is_listener && p.subscribed.contains(name) ==> receives(p, name),
        p.config.is_listener && p.subscribed.contains("EVENT"@) ==> receives(p, name),
        p.config.is_listener && p.subscribed == Set::<Seq<char>>::empty() ==> !receives(p, name),
{
    if p.subscribed.contains(name) {
        events::law_subscribers_receive(p.subscribed, name);
    }
    if p.subscribed.contains("EVENT"@) {
        events::law_event_receives_all(p.subscribed, name);
    }
}

} // verus!
