//! Adding and removing groups of processes while the supervisor runs.
use crate::config::assemble;
use crate::config::assemble::Config;
use crate::config::assemble::ConfigModel;
use crate::config::difference;
use crate::config::difference::ConfigDiff;
use crate::config::laws;
use crate::config::settings;
use crate::config::settings::ProgramConfig;
use crate::config::settings::ProgramModel;
use crate::daemon;
use crate::daemon::notify;
use crate::daemon::Supervisor;
use crate::daemon::SupervisorModel;
use crate::process::command;
use crate::process::machine;
use crate::process::machine::Action;
use crate::process::machine::Process;
use crate::process::machine::ProcessModel;
use crate::process::machine::Request;
use crate::rpc::faults;
use crate::states;
use crate::text;
use vstd::prelude::*;

verus! {

// ---------------------------------------------------------------------------
// The model
// ---------------------------------------------------------------------------

/// The supervisor with a process for one program more, at its place in the
/// order of priorities.
pub open spec fn with_program(s: SupervisorModel, c: ProgramModel) -> SupervisorModel {
    let k = assemble::slot(s.config.programs, c.priority);
    SupervisorModel {
        config: ConfigModel { programs: s.config.programs.insert(k, c), ..s.config },
        processes: s.processes.insert(
            k,
            machine::new_process(c, s.config.supervisord.childlogdir),
        ),
        ..s
    }
}

/// The supervisor after a program was added, where its process is, and what to
/// do for it: it is started if it is configured to start by itself, and the
/// supervisor does not shut down.
pub open spec fn added(s: SupervisorModel, c: ProgramModel, now: u128) -> (
    SupervisorModel,
    int,
    Request,
) {
    let k = assemble::slot(s.config.programs, c.priority);
    let t = with_program(s, c);
    if c.autostart && !s.shutting_down {
        let (q, r, _) = machine::started(t.processes[k], now);
        (daemon::with_process(t, k, q), k, r)
    } else {
        (t, k, Request::Idle)
    }
}

/// The programs that adding a group comes to, or the fault. The group must be
/// in the configuration that was read last, and none of it may run.
pub open spec fn addition(s: SupervisorModel, group: Seq<char>) -> Result<
    Seq<ProgramModel>,
    (i32, Seq<char>),
> {
    if !difference::has_group(s.available, group) {
        Err((faults::BAD_NAME, group))
    } else if difference::has_group(s.config.programs, group) {
        Err((faults::ALREADY_ADDED, group))
    } else {
        Ok(difference::members(s.available, group))
    }
}

/// What tells the processes outside a group.
pub open spec fn outside(group: Seq<char>) -> spec_fn(ProcessModel) -> bool {
    |p: ProcessModel| p.config.group != group
}

/// The supervisor without the processes of a group.
pub open spec fn without_group(s: SupervisorModel, group: Seq<char>) -> SupervisorModel {
    let rest = s.processes.filter(outside(group));
    SupervisorModel {
        config: ConfigModel { programs: daemon::programs_of(rest), ..s.config },
        processes: rest,
        ..s
    }
}

/// What tells the processes of a group.
pub open spec fn inside(group: Seq<char>) -> spec_fn(ProcessModel) -> bool {
    |p: ProcessModel| p.config.group == group
}

/// The names of the processes of a group, in config order.
pub open spec fn names_in(ps: Seq<ProcessModel>, group: Seq<char>) -> Seq<Seq<char>> {
    daemon::names_of(ps.filter(inside(group)))
}

/// The names of the processes that an operation on a group is about: those of
/// its processes. Where there is no such group, the name may be that of a
/// process.
pub open spec fn targets(ps: Seq<ProcessModel>, group: Seq<char>) -> Seq<Seq<char>> {
    if names_in(ps, group).len() == 0 {
        seq![group]
    } else {
        names_in(ps, group)
    }
}

/// The positions of the processes of a group.
pub open spec fn positions(ps: Seq<ProcessModel>, group: Seq<char>) -> Seq<int>
    decreases ps.len(),
{
    if ps.len() == 0 {
        Seq::empty()
    } else {
        let rest = positions(ps.drop_last(), group);
        if ps.last().config.group == group {
            rest.push(ps.len() - 1)
        } else {
            rest
        }
    }
}

/// Whether no process of a group has a child or wants one.
pub open spec fn group_at_rest(ps: Seq<ProcessModel>, group: Seq<char>) -> bool {
    forall|i: int|
        0 <= i < ps.len() && (#[trigger] ps[i]).config.group == group ==> ps[i].pid == 0
            && states::is_down(ps[i].state)
}

/// The supervisor after a group was removed, and where its processes were; or
/// the fault. Nothing of the group may run. Its last events are routed first.
pub open spec fn removal(s: SupervisorModel, group: Seq<char>) -> Result<
    (SupervisorModel, Seq<int>),
    (i32, Seq<char>),
> {
    if !difference::has_group(s.config.programs, group) {
        Err((faults::BAD_NAME, group))
    } else if !group_at_rest(s.processes, group) {
        Err((faults::STILL_RUNNING, group))
    } else {
        Ok((without_group(notify::after_routing(s), group), positions(s.processes, group)))
    }
}

/// The numbers in a list.
pub open spec fn numbers(v: Seq<usize>) -> Seq<int> {
    v.map_values(|i: usize| i as int)
}

/// The content of what came of reading a configuration.
pub open spec fn read_model(r: Result<Config, String>) -> Result<ConfigModel, Seq<char>> {
    match r {
        Ok(c) => Ok(c@),
        Err(e) => Err(e@),
    }
}

/// The supervisor once it knows a new configuration.
pub open spec fn with_available(s: SupervisorModel, fresh: ConfigModel) -> SupervisorModel {
    SupervisorModel { available: fresh.programs, ..s }
}

// ---------------------------------------------------------------------------
// Execution
// ---------------------------------------------------------------------------

impl Supervisor {
    /// Takes note of a new configuration, whose groups can then be added: what
    /// it changes in the running one.
    pub fn reread(&mut self, fresh: Config) -> (r: ConfigDiff)
        requires
            old(self).well_formed(),
        ensures
            final(self).well_formed(),
            final(self)@ == with_available(old(self)@, fresh@),
            r@ == difference::diff_of(old(self)@.config, fresh@),
    {
        let r = difference::difference(&self.config, &fresh);
        self.available = fresh.programs;
        r
    }

    /// The programs that adding a group comes to, or a `(fault_code, message)`.
    /// Each is then to be handed to [`Supervisor::add_process`].
    pub fn group_to_add(&self, group: &str) -> (r: Result<Vec<ProgramConfig>, (i32, String)>)
        ensures
            match (r, addition(self@, group@)) {
                (Ok(v), Ok(m)) => settings::program_list(v@) == m,
                (Err(f), Err(g)) => daemon::fault_model(f) == g,
                _ => false,
            },
    {
        if !difference::holds_group(&self.available, group) {
            Err((faults::BAD_NAME, group.to_string()))
        } else if difference::holds_group(&self.config.programs, group) {
            Err((faults::ALREADY_ADDED, group.to_string()))
        } else {
            Ok(difference::group_programs(&self.available, group))
        }
    }

    /// Adds a process for a program, and starts it if it is configured to
    /// start by itself: its position (those behind it move up by one), and
    /// what to do for it.
    pub fn add_process(&mut self, c: ProgramConfig, now: u128) -> (r: (usize, Action))
        requires
            old(self).well_formed(),
            now <= machine::MAX_NOW,
        ensures
            final(self).well_formed(),
            (final(self)@, r.0 as int, r.1@) == added(old(self)@, c@, now),
            r.0 < final(self)@.processes.len(),
    {
        let ghost s = self@;
        let ghost model = c@;
        let k = assemble::find_slot(&self.config.programs, c.priority);
        let starts = c.autostart && !self.shutting_down;
        proof {
            assert(s.config.programs.len() == s.processes.len());
            assert(self.config.programs@.len() == s.config.programs.len());
            assert(self.processes@.len() == s.processes.len());
        }
        let p = Process::new(c.clone(), self.config.supervisord.childlogdir.as_str());
        let ghost fresh = p@;
        self.processes.insert(k, p);
        self.config.programs.insert(k, c);
        self.resync_pid_index();
        proof {
            let t = with_program(s, model);
            assert(self@.processes =~= s.processes.insert(k as int, fresh));
            assert(self@.config.programs =~= s.config.programs.insert(k as int, model));
            assert(self@.config =~= t.config);
            assert(self@ =~= t);
            assert(t.config.programs =~= daemon::programs_of(t.processes));
            assert forall|i: int| 0 <= i < t.processes.len() implies machine::well_formed(
                #[trigger] t.processes[i],
            ) by {
                if i < k {
                    assert(t.processes[i] == s.processes[i]);
                } else if i > k {
                    assert(t.processes[i] == s.processes[i - 1]);
                }
            }
        }
        if starts {
            let action = self.autostart(k, now);
            (k, action)
        } else {
            (k, Action::Idle)
        }
    }

    /// The names of the processes that an operation on a group is about.
    pub fn group_targets(&self, group: &str) -> (r: Vec<String>)
        ensures
            text::texts(r@) == targets(self@.processes, group@),
            r@.len() > 0,
    {
        let ghost ps = self@.processes;
        let ghost f = inside(group@);
        let mut r: Vec<String> = Vec::new();
        let mut i: usize = 0;
        proof {
            difference::lemma_filter_empty(ps.take(0), f);
            assert(text::texts(r@) =~= names_in(ps.take(0), group@));
        }
        while i < self.processes.len()
            invariant
                i <= self.processes@.len(),
                ps == self@.processes,
                f == inside(group@),
                text::texts(r@) == names_in(ps.take(i as int), group@),
            decreases self.processes@.len() - i,
        {
            let ghost before = r@;
            let ghost kept = ps.take(i as int).filter(f);
            proof {
                difference::lemma_filter_step(ps, i as int, f);
                assert(ps[i as int] == self.processes@[i as int]@);
            }
            if text::same(self.processes[i].pool_name(), group) {
                r.push(self.processes[i].name().to_string());
                proof {
                    assert(text::texts(r@) =~= text::texts(before).push(
                        ps[i as int].config.name,
                    ));
                    assert(daemon::names_of(kept.push(ps[i as int])) =~= daemon::names_of(
                        kept,
                    ).push(ps[i as int].config.name));
                }
            }
            i = i + 1;
        }
        proof {
            assert(ps.take(i as int) =~= ps);
            assert(text::texts(r@).len() == r@.len());
        }
        if r.len() == 0 {
            r.push(group.to_string());
            proof {
                assert(text::texts(r@) =~= seq![group@]);
            }
        }
        r
    }

    /// Whether no process of a group has a child or wants one.
    fn group_stopped(&self, group: &str) -> (r: bool)
        ensures
            r == group_at_rest(self@.processes, group@),
    {
        let mut i: usize = 0;
        while i < self.processes.len()
            invariant
                i <= self.processes@.len(),
                forall|k: int|
                    0 <= k < i && (#[trigger] self@.processes[k]).config.group == group@
                        ==> self@.processes[k].pid == 0 && states::is_down(
                        self@.processes[k].state,
                    ),
            decreases self.processes@.len() - i,
        {
            if text::same(self.processes[i].pool_name(), group) && (self.processes[i].pid != 0
                || !self.processes[i].state.is_stopped()) {
                proof {
                    let p = self@.processes[i as int];
                    assert(p.config.group == group@ && !(p.pid == 0 && states::is_down(p.state)));
                }
                return false;
            }
            i = i + 1;
        }
        true
    }

    /// Drops the processes of a group: where they were.
    fn drop_group(&mut self, group: &str) -> (r: Vec<usize>)
        requires
            old(self).well_formed(),
        ensures
            final(self).well_formed(),
            final(self)@ == without_group(old(self)@, group@),
            numbers(r@) == positions(old(self)@.processes, group@),
    {
        let ghost s = self@;
        let ghost ps = s.processes;
        let ghost f = outside(group@);
        let total = self.processes.len();
        let mut r: Vec<usize> = Vec::new();
        let mut i: usize = 0;
        let mut n: usize = 0;
        proof {
            difference::lemma_filter_empty(ps.take(0), f);
            assert(self@.processes =~= ps.take(0).filter(f) + ps.skip(0));
            assert(numbers(r@) =~= positions(ps.take(0), group@));
            assert(total == ps.len());
        }
        while n < total
            invariant
                n <= total,
                total == ps.len(),
                ps == s.processes,
                f == outside(group@),
                i == ps.take(n as int).filter(f).len(),
                self@.processes == ps.take(n as int).filter(f) + ps.skip(n as int),
                self@.config.programs == daemon::programs_of(self@.processes),
                self@ == (SupervisorModel {
                    config: ConfigModel { programs: self@.config.programs, ..s.config },
                    processes: self@.processes,
                    ..s
                }),
                numbers(r@) == positions(ps.take(n as int), group@),
                forall|k: int|
                    0 <= k < self@.processes.len() ==> machine::well_formed(
                        #[trigger] self@.processes[k],
                    ),
            decreases total - n,
        {
            let ghost now = self@;
            let ghost kept = ps.take(n as int).filter(f);
            let ghost had = r@;
            let ghost next = ps.take(n as int + 1);
            proof {
                difference::lemma_filter_step(ps, n as int, f);
                assert(now.processes[i as int] == ps[n as int]);
                assert(now.processes.len() == self.processes@.len());
                assert(now.config.programs.len() == self.config.programs@.len());
                assert(next.drop_last() =~= ps.take(n as int));
                assert(next.last() == ps[n as int]);
            }
            if text::same(self.processes[i].pool_name(), group) {
                let _ = self.processes.remove(i);
                let _ = self.config.programs.remove(i);
                r.push(n);
                proof {
                    assert(self@.processes =~= now.processes.remove(i as int));
                    assert(self@.processes =~= kept + ps.skip(n as int + 1));
                    assert(self@.config.programs =~= now.config.programs.remove(i as int));
                    assert(self@.config.programs =~= daemon::programs_of(self@.processes));
                    assert(self@.config =~= (ConfigModel {
                        programs: self@.config.programs,
                        ..s.config
                    }));
                    assert(numbers(r@) =~= numbers(had).push(n as int));
                    assert forall|k: int| 0 <= k < self@.processes.len() implies machine::well_formed(
                        #[trigger] self@.processes[k],
                    ) by {
                        if k < i {
                            assert(self@.processes[k] == now.processes[k]);
                        } else {
                            assert(self@.processes[k] == now.processes[k + 1]);
                        }
                    }
                }
            } else {
                i = i + 1;
                proof {
                    assert(self@.processes =~= kept.push(ps[n as int]) + ps.skip(n as int + 1));
                }
            }
            n = n + 1;
        }
        self.resync_pid_index();
        proof {
            assert(ps.take(total as int) =~= ps);
            assert(self@.processes =~= ps.filter(f));
            assert(self@ =~= without_group(s, group@));
        }
        r
    }

    /// Removes a group that has stopped: the positions at which its processes
    /// were, or a `(fault_code, message)`.
    pub fn remove_group(&mut self, group: &str) -> (r: Result<Vec<usize>, (i32, String)>)
        requires
            old(self).well_formed(),
        ensures
            final(self).well_formed(),
            match (r, removal(old(self)@, group@)) {
                (Ok(v), Ok(m)) => final(self)@ == m.0 && numbers(v@) == m.1,
                (Err(f), Err(g)) => final(self)@ == old(self)@ && daemon::fault_model(f) == g,
                _ => false,
            },
    {
        if !difference::holds_group(&self.config.programs, group) {
            return Err((faults::BAD_NAME, group.to_string()));
        }
        if !self.group_stopped(group) {
            return Err((faults::STILL_RUNNING, group.to_string()));
        }
        self.route_events();
        proof {
            notify::law_events_are_routed_once(old(self)@);
            lemma_positions(old(self)@.processes, self@.processes, group@);
        }
        Ok(self.drop_group(group))
    }
}

/// The positions of the processes of a group depend on nothing but the programs.
proof fn lemma_positions(ps: Seq<ProcessModel>, qs: Seq<ProcessModel>, group: Seq<char>)
    requires
        ps.len() == qs.len(),
        forall|i: int| 0 <= i < ps.len() ==> (#[trigger] qs[i]).config == ps[i].config,
    ensures
        positions(ps, group) == positions(qs, group),
    decreases ps.len(),
{
    if ps.len() > 0 {
        let a = ps.drop_last();
        let b = qs.drop_last();
        assert forall|i: int| 0 <= i < a.len() implies (#[trigger] b[i]).config == a[i].config by {
            assert(b[i] == qs[i]);
        }
        lemma_positions(a, b, group);
        assert(qs[qs.len() - 1].config == ps[ps.len() - 1].config);
    }
}

// ---------------------------------------------------------------------------
// Laws
// ---------------------------------------------------------------------------

/// An operation on a group names every process of it, and no other.
pub proof fn law_group_operation_is_about_its_processes(
    ps: Seq<ProcessModel>,
    group: Seq<char>,
    name: Seq<char>,
)
    requires
        exists|i: int| 0 <= i < ps.len() && (#[trigger] ps[i]).config.group == group,
    ensures
        targets(ps, group).contains(name) <==> exists|i: int|
            0 <= i < ps.len() && (#[trigger] ps[i]).config.group == group && ps[i].config.name
                == name,
{
    let f = inside(group);
    let kept = ps.filter(f);
    let names = daemon::names_of(kept);
    let i = choose|i: int| 0 <= i < ps.len() && (#[trigger] ps[i]).config.group == group;
    difference::lemma_filter_contains(ps, f, ps[i]);
    assert(kept.contains(ps[i]));
    assert(kept.len() > 0);
    if names.contains(name) {
        let k = choose|k: int| 0 <= k < names.len() && names[k] == name;
        difference::lemma_filter_contains(ps, f, kept[k]);
        assert(kept.contains(kept[k]));
        let j = choose|j: int| 0 <= j < ps.len() && ps[j] == kept[k];
        assert(ps[j].config.group == group && ps[j].config.name == name);
    }
    if exists|i: int|
        0 <= i < ps.len() && (#[trigger] ps[i]).config.group == group && ps[i].config.name
            == name {
        let j = choose|i: int|
            0 <= i < ps.len() && (#[trigger] ps[i]).config.group == group && ps[i].config.name
                == name;
        difference::lemma_filter_contains(ps, f, ps[j]);
        let k = choose|k: int| 0 <= k < kept.len() && kept[k] == ps[j];
        assert(names[k] == name);
    }
}

/// The programs after more have been added, one after another, each at its
/// place in the order of priorities.
pub open spec fn with_all(programs: Seq<ProgramModel>, more: Seq<ProgramModel>) -> Seq<ProgramModel>
    decreases more.len(),
{
    if more.len() == 0 {
        programs
    } else {
        assemble::placed(with_all(programs, more.drop_last()), more.last())
    }
}

/// Adding a program adds it to the configuration at its place, and nothing else
/// to it; the processes of the others stay as they are.
pub proof fn law_addition_leaves_others_alone(s: SupervisorModel, c: ProgramModel, now: u128)
    requires
        s.config.programs == daemon::programs_of(s.processes),
    ensures
        ({
            let (t, k, _) = added(s, c, now);
            &&& t.config == (ConfigModel {
                programs: assemble::placed(s.config.programs, c),
                ..s.config
            })
            &&& 0 <= k < t.processes.len()
            &&& t.processes[k].config == c
            &&& t.processes.remove(k) == s.processes
        }),
{
    assemble::lemma_slot_range(s.config.programs, c.priority);
    let (t, k, _) = added(s, c, now);
    assert(t.processes.remove(k) =~= s.processes);
}

/// Programs of a group that none belongs to have no members of it.
proof fn lemma_no_members(programs: Seq<ProgramModel>, group: Seq<char>)
    requires
        !difference::has_group(programs, group),
    ensures
        difference::members(programs, group) == Seq::<ProgramModel>::empty(),
    decreases programs.len(),
{
    reveal(Seq::filter);
    if programs.len() > 0 {
        let t = programs.drop_last();
        assert(!difference::has_group(t, group)) by {
            if difference::has_group(t, group) {
                let i = choose|i: int| 0 <= i < t.len() && (#[trigger] t[i]).group == group;
                assert(programs[i].group == group);
            }
        }
        lemma_no_members(t, group);
        assert(programs[programs.len() - 1].group != group);
    }
}

/// A program that starts no earlier than the others of its group becomes its
/// last member; the members of other groups stay as they are.
proof fn lemma_placed(s: Seq<ProgramModel>, c: ProgramModel, group: Seq<char>)
    requires
        c.group == group ==> forall|i: int|
            0 <= i < s.len() && (#[trigger] s[i]).group == group ==> s[i].priority <= c.priority,
    ensures
        difference::members(assemble::placed(s, c), group) == (if c.group == group {
            difference::members(s, group).push(c)
        } else {
            difference::members(s, group)
        }),
{
    assemble::lemma_slot_range(s, c.priority);
    let k = assemble::slot(s, c.priority);
    let f = difference::belongs_to(group);
    let front = s.take(k);
    let back = s.skip(k);
    let one = seq![c];
    assert(assemble::placed(s, c) =~= front + one + back);
    assert(s =~= front + back);
    Seq::filter_distributes_over_add(front + one, back, f);
    Seq::filter_distributes_over_add(front, one, f);
    Seq::filter_distributes_over_add(front, back, f);
    assert(one.filter(f) =~= (if c.group == group {
        one
    } else {
        Seq::empty()
    })) by {
        reveal(Seq::filter);
        assert(one.drop_last() =~= Seq::<ProgramModel>::empty());
        difference::lemma_filter_empty(one.drop_last(), f);
    }
    if c.group == group {
        assert(!difference::has_group(back, group)) by {
            if difference::has_group(back, group) {
                let i = choose|i: int| 0 <= i < back.len() && (#[trigger] back[i]).group == group;
                assert(back[i] == s[k + i]);
            }
        }
        lemma_no_members(back, group);
        assert(front.filter(f) + one + back.filter(f) =~= (front.filter(f) + back.filter(f)).push(
            c,
        ));
    } else {
        assert(front.filter(f) + one.filter(f) + back.filter(f) =~= front.filter(f) + back.filter(
            f,
        ));
    }
}

/// The members of a group belong to it, and are in order if all programs are.
proof fn lemma_members_in_order(s: Seq<ProgramModel>, group: Seq<char>)
    requires
        laws::in_order(s),
    ensures
        laws::in_order(difference::members(s, group)),
        forall|i: int|
            0 <= i < difference::members(s, group).len() ==> (#[trigger] difference::members(
                s,
                group,
            )[i]).group == group,
    decreases s.len(),
{
    let f = difference::belongs_to(group);
    if s.len() == 0 {
        difference::lemma_filter_empty(s, f);
    } else {
        let t = s.drop_last();
        let n = s.len() - 1;
        assert forall|i: int, j: int| 0 <= i <= j < t.len() implies (#[trigger] t[i]).priority <= (
        #[trigger] t[j]).priority by {
            assert(s[i].priority <= s[j].priority);
        }
        lemma_members_in_order(t, group);
        difference::lemma_filter_step(s, n, f);
        assert(s.take(n) =~= t);
        assert(s.take(n + 1) =~= s);
        let m = difference::members(t, group);
        if f(s[n]) {
            let all = m.push(s[n]);
            assert forall|i: int| 0 <= i < m.len() implies (#[trigger] m[i]).priority
                <= s[n].priority by {
                difference::lemma_filter_contains(t, f, m[i]);
                let k = choose|k: int| 0 <= k < t.len() && t[k] == m[i];
                assert(s[k].priority <= s[n].priority);
            }
            assert forall|i: int, j: int| 0 <= i <= j < all.len() implies (
            #[trigger] all[i]).priority <= (#[trigger] all[j]).priority by {
                if j < m.len() {
                    assert(m[i].priority <= m[j].priority);
                } else if i < m.len() {
                    assert(m[i].priority <= s[n].priority);
                }
            }
        }
    }
}

/// Once the programs that a new configuration has for a group have been added,
/// the group is what that configuration says, and every other group is what
/// it was.
pub proof fn law_added_group_is_as_configured(
    programs: Seq<ProgramModel>,
    available: Seq<ProgramModel>,
    group: Seq<char>,
    other: Seq<char>,
)
    requires
        !difference::has_group(programs, group),
        laws::in_order(available),
        other != group,
    ensures
        ({
            let all = with_all(programs, difference::members(available, group));
            &&& difference::members(all, group) == difference::members(available, group)
            &&& difference::members(all, other) == difference::members(programs, other)
        }),
{
    lemma_members_in_order(available, group);
    lemma_added_group(programs, difference::members(available, group), group, other);
}

/// Programs of a new group, added one after another, become its members.
proof fn lemma_added_group(
    programs: Seq<ProgramModel>,
    more: Seq<ProgramModel>,
    group: Seq<char>,
    other: Seq<char>,
)
    requires
        !difference::has_group(programs, group),
        laws::in_order(more),
        forall|i: int| 0 <= i < more.len() ==> (#[trigger] more[i]).group == group,
        other != group,
    ensures
        difference::members(with_all(programs, more), group) == more,
        difference::members(with_all(programs, more), other) == difference::members(
            programs,
            other,
        ),
    decreases more.len(),
{
    if more.len() == 0 {
        lemma_no_members(programs, group);
        assert(more =~= Seq::<ProgramModel>::empty());
    } else {
        let front = more.drop_last();
        let c = more.last();
        assert forall|i: int| 0 <= i < front.len() implies (#[trigger] front[i]).group == group by {
            assert(front[i] == more[i]);
        }
        assert(laws::in_order(front)) by {
            assert forall|i: int, j: int| 0 <= i <= j < front.len() implies (
            #[trigger] front[i]).priority <= (#[trigger] front[j]).priority by {
                assert(more[i].priority <= more[j].priority);
            }
        }
        lemma_added_group(programs, front, group, other);
        let s = with_all(programs, front);
        assert(c == more[more.len() - 1]);
        assert forall|i: int|
            0 <= i < s.len() && (#[trigger] s[i]).group == group implies s[i].priority
            <= c.priority by {
            difference::lemma_filter_contains(s, difference::belongs_to(group), s[i]);
            assert(difference::members(s, group).contains(s[i]));
            let j = choose|j: int| 0 <= j < front.len() && front[j] == s[i];
            assert(more[j] == s[i]);
            assert(more[j].priority <= more[more.len() - 1].priority);
        }
        lemma_placed(s, c, group);
        lemma_placed(s, c, other);
        assert(front.push(c) =~= more);
    }
}

/// Filtering processes by their programs.
proof fn lemma_programs_filter(ps: Seq<ProcessModel>, group: Seq<char>, other: Seq<char>)
    ensures
        difference::members(daemon::programs_of(ps.filter(outside(group))), other) == (if other
            == group {
            Seq::empty()
        } else {
            difference::members(daemon::programs_of(ps), other)
        }),
    decreases ps.len(),
{
    reveal(Seq::filter);
    let f = outside(group);
    if ps.len() == 0 {
        assert(daemon::programs_of(ps) =~= Seq::<ProgramModel>::empty());
        assert(daemon::programs_of(ps.filter(f)) =~= Seq::<ProgramModel>::empty());
        difference::lemma_filter_empty(
            daemon::programs_of(ps.filter(f)),
            difference::belongs_to(other),
        );
        difference::lemma_filter_empty(daemon::programs_of(ps), difference::belongs_to(other));
    } else {
        let t = ps.drop_last();
        lemma_programs_filter(t, group, other);
        let all = daemon::programs_of(ps);
        assert(all.drop_last() =~= daemon::programs_of(t));
        assert(all.last() == ps.last().config);
        if f(ps.last()) {
            let kept = daemon::programs_of(ps.filter(f));
            assert(kept.drop_last() =~= daemon::programs_of(t.filter(f)));
            assert(kept.last() == ps.last().config);
        }
    }
}

/// A group that was removed is gone, and every other group is what it was. It
/// can be added again if the configuration that was read last has it.
pub proof fn law_removed_group_is_gone(s: SupervisorModel, group: Seq<char>, other: Seq<char>)
    requires
        s.config.programs == daemon::programs_of(s.processes),
        removal(s, group) is Ok,
        other != group,
    ensures
        ({
            let t = removal(s, group)->Ok_0.0;
            &&& !difference::has_group(t.config.programs, group)
            &&& difference::members(t.config.programs, other) == difference::members(
                s.config.programs,
                other,
            )
            &&& addition(t, group) == (if difference::has_group(s.available, group) {
                Ok::<Seq<ProgramModel>, (i32, Seq<char>)>(difference::members(s.available, group))
            } else {
                Err::<Seq<ProgramModel>, (i32, Seq<char>)>((faults::BAD_NAME, group))
            })
        }),
{
    let r = notify::after_routing(s);
    let t = removal(s, group)->Ok_0.0;
    notify::law_events_are_routed_once(s);
    assert(daemon::programs_of(r.processes) =~= daemon::programs_of(s.processes)) by {
        assert forall|i: int| 0 <= i < s.processes.len() implies r.processes[i].config
            == s.processes[i].config by {
            assert(r.processes[i].pending_events.len() == 0);
        }
    }
    lemma_programs_filter(r.processes, group, group);
    lemma_programs_filter(r.processes, group, other);
    let left = t.config.programs;
    if difference::has_group(left, group) {
        let i = choose|i: int| 0 <= i < left.len() && (#[trigger] left[i]).group == group;
        difference::lemma_filter_contains(left, difference::belongs_to(group), left[i]);
        assert(difference::members(left, group).contains(left[i]));
    }
}

/// A group that has the programs of the new configuration, or is in neither, is
/// not reported as a difference.
pub proof fn law_updated_group_is_not_reported(
    running: ConfigModel,
    fresh: ConfigModel,
    group: Seq<char>,
)
    requires
        difference::members(running.programs, group) == difference::members(
            fresh.programs,
            group,
        ),
    ensures
        ({
            let d = difference::diff_of(running, fresh);
            !d.added.contains(group) && !d.changed.contains(group) && !d.removed.contains(group)
        }),
{
    difference::law_difference(running, fresh, group);
    lemma_members_exist(running.programs, group);
    lemma_members_exist(fresh.programs, group);
}

/// A group has members if and only if there is such a group.
proof fn lemma_members_exist(programs: Seq<ProgramModel>, group: Seq<char>)
    ensures
        difference::has_group(programs, group) <==> difference::members(programs, group).len() > 0,
{
    if difference::has_group(programs, group) {
        let i = choose|i: int| 0 <= i < programs.len() && (#[trigger] programs[i]).group == group;
        difference::lemma_filter_contains(
            programs,
            difference::belongs_to(group),
            programs[i],
        );
        assert(difference::members(programs, group).contains(programs[i]));
    } else {
        lemma_no_members(programs, group);
    }
}

/// The positions of the processes of a group: those of all of them, and no
/// others, from the first to the last.
pub proof fn law_positions(ps: Seq<ProcessModel>, group: Seq<char>, i: int)
    ensures
        positions(ps, group).contains(i) <==> 0 <= i < ps.len() && ps[i].config.group == group,
        forall|a: int, b: int|
            0 <= a < b < positions(ps, group).len() ==> #[trigger] positions(ps, group)[a]
                < #[trigger] positions(ps, group)[b],
        forall|a: int|
            0 <= a < positions(ps, group).len() ==> 0 <= #[trigger] positions(ps, group)[a]
                < ps.len(),
    decreases ps.len(),
{
    if ps.len() > 0 {
        let t = ps.drop_last();
        law_positions(t, group, i);
        let rest = positions(t, group);
        let all = positions(ps, group);
        if ps.last().config.group == group {
            assert(all == rest.push(ps.len() - 1));
            if rest.contains(i) {
                let k = choose|k: int| 0 <= k < rest.len() && rest[k] == i;
                assert(all[k] == i);
            }
            assert(all[rest.len() as int] == ps.len() - 1);
            if all.contains(i) && i != ps.len() - 1 {
                let k = choose|k: int| 0 <= k < all.len() && all[k] == i;
                assert(rest[k] == i);
            }
        }
        if 0 <= i < t.len() {
            assert(t[i] == ps[i]);
        }
    }
}

/// Whether all of a group has stopped.
pub proof fn law_group_at_rest(ps: Seq<ProcessModel>, group: Seq<char>)
    ensures
        group_at_rest(ps, group) <==> forall|i: int|
            0 <= i < ps.len() && (#[trigger] ps[i]).config.group == group ==> ps[i].pid == 0 && (
            ps[i].state is Stopped || ps[i].state is Exited || ps[i].state is Fatal || ps[i].state
                is Unknown),
{
}

/// A group is added just if it is known and not there; a name that is no group
/// is refused as such, and one that is there already as that.
pub proof fn law_additions(s: SupervisorModel, group: Seq<char>)
    ensures
        ({
            let known = difference::has_group(s.available, group);
            let active = difference::has_group(s.config.programs, group);
            &&& addition(s, group) is Ok <==> known && !active
            &&& known && active ==> addition(s, group) == Err::<
                Seq<ProgramModel>,
                (i32, Seq<char>),
            >((90i32, group))
            &&& !known ==> addition(s, group) == Err::<Seq<ProgramModel>, (i32, Seq<char>)>(
                (10i32, group),
            )
        }),
{
}

/// A process that is added starts by itself just if it is configured to, and
/// the supervisor does not shut down.
pub proof fn law_added_process_starts(s: SupervisorModel, c: ProgramModel, now: u128)
    requires
        s.config.programs == daemon::programs_of(s.processes),
        command::arguments(c.command).len() > 0,
    ensures
        added(s, c, now).2 == (if c.autostart && !s.shutting_down {
            Request::Launch(command::arguments(c.command))
        } else {
            Request::Idle
        }),
{
    assemble::lemma_slot_range(s.config.programs, c.priority);
}

} // verus!
