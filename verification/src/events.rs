//! The event model: event names, payload and envelope formatting, ticks and
//! subscription matching.
//!
//! Events are named hierarchically: a concrete event like
//! `PROCESS_STATE_RUNNING` is also delivered to listeners subscribed to its
//! abstract parents `PROCESS_STATE` and `EVENT`. See [`ancestors`].
use crate::number;
use crate::states;
use crate::states::ProcessState;
use crate::text;
use crate::util;
use vstd::arithmetic::div_mod::lemma_mod_decreases;
use vstd::hash_set::StringHashSet;
use vstd::prelude::*;
use vstd::utf8;

verus! {

/// The concrete event name for a process entering a state.
pub open spec fn state_event(s: ProcessState) -> Seq<char> {
    match s {
        ProcessState::Stopped => "PROCESS_STATE_STOPPED"@,
        ProcessState::Starting => "PROCESS_STATE_STARTING"@,
        ProcessState::Running => "PROCESS_STATE_RUNNING"@,
        ProcessState::Backoff => "PROCESS_STATE_BACKOFF"@,
        ProcessState::Stopping => "PROCESS_STATE_STOPPING"@,
        ProcessState::Exited => "PROCESS_STATE_EXITED"@,
        ProcessState::Fatal => "PROCESS_STATE_FATAL"@,
        ProcessState::Unknown => "PROCESS_STATE_UNKNOWN"@,
    }
}

/// The concrete event name for a process entering `state`.
pub fn process_state_event_name(state: ProcessState) -> (r: &'static str)
    ensures
        r@ == state_event(state),
{
    match state {
        ProcessState::Stopped => "PROCESS_STATE_STOPPED",
        ProcessState::Starting => "PROCESS_STATE_STARTING",
        ProcessState::Running => "PROCESS_STATE_RUNNING",
        ProcessState::Backoff => "PROCESS_STATE_BACKOFF",
        ProcessState::Stopping => "PROCESS_STATE_STOPPING",
        ProcessState::Exited => "PROCESS_STATE_EXITED",
        ProcessState::Fatal => "PROCESS_STATE_FATAL",
        ProcessState::Unknown => "PROCESS_STATE_UNKNOWN",
    }
}

/// What a payload says at its end about the state entered.
pub open spec fn payload_tail(
    new_state: ProcessState,
    pid: int,
    backoff: nat,
    expected: bool,
) -> Seq<char> {
    match new_state {
        ProcessState::Starting | ProcessState::Backoff => " tries:"@ + number::nat_text(backoff),
        ProcessState::Running | ProcessState::Stopping | ProcessState::Stopped => " pid:"@
            + number::int_text(pid),
        ProcessState::Exited => " expected:"@ + number::nat_text(
            if expected {
                1
            } else {
                0
            },
        ) + " pid:"@ + number::int_text(pid),
        _ => Seq::empty(),
    }
}

/// The payload of a `PROCESS_STATE_*` event.
pub open spec fn state_payload(
    processname: Seq<char>,
    groupname: Seq<char>,
    from_state: ProcessState,
    new_state: ProcessState,
    pid: int,
    backoff: nat,
    expected: bool,
) -> Seq<char> {
    "processname:"@ + processname + " groupname:"@ + groupname + " from_state:"@
        + states::state_name(from_state) + payload_tail(new_state, pid, backoff, expected)
}

/// Builds a `PROCESS_STATE_*` event payload of `name:value` fields.
pub fn process_state_payload(
    processname: &str,
    groupname: &str,
    from_state: ProcessState,
    new_state: ProcessState,
    pid: i32,
    backoff: u32,
    expected: bool,
) -> (r: String)
    ensures
        r@ == state_payload(
            processname@,
            groupname@,
            from_state,
            new_state,
            pid as int,
            backoff as nat,
            expected,
        ),
{
    let mut s = "processname:".to_string();
    s.append(processname);
    s.append(" groupname:");
    s.append(groupname);
    s.append(" from_state:");
    s.append(from_state.description());
    let ghost head = s@;
    match new_state {
        ProcessState::Starting | ProcessState::Backoff => {
            s.append(" tries:");
            s.append(number::nat_string(backoff as u64).as_str());
        },
        ProcessState::Running | ProcessState::Stopping | ProcessState::Stopped => {
            s.append(" pid:");
            s.append(number::int_string(pid as i64).as_str());
        },
        ProcessState::Exited => {
            s.append(" expected:");
            s.append(
                number::nat_string(
                    if expected {
                        1
                    } else {
                        0
                    },
                ).as_str(),
            );
            s.append(" pid:");
            s.append(number::int_string(pid as i64).as_str());
        },
        _ => {},
    }
    proof {
        assert(s@ =~= head + payload_tail(new_state, pid as int, backoff as nat, expected));
    }
    s
}

// ---------------------------------------------------------------------------
// Ticks
// ---------------------------------------------------------------------------

/// The start of the period of `period` seconds that a time falls into.
pub open spec fn period_start(t: u64, period: u64) -> int {
    t - t % period
}

/// The tick event called `name`, if a new period has begun since `last`.
pub open spec fn tick_event(last: u64, now: u64, period: u64, name: Seq<char>) -> Seq<
    (Seq<char>, Seq<char>),
> {
    if period_start(last, period) != period_start(now, period) {
        seq![(name, "when:"@ + number::nat_text(period_start(now, period) as nat))]
    } else {
        Seq::empty()
    }
}

/// The tick events that are due at `now`, given when they were last looked
/// for. None are at the first look.
pub open spec fn due_ticks(last: Option<u64>, now: u64) -> Seq<(Seq<char>, Seq<char>)> {
    match last {
        None => Seq::empty(),
        Some(t) => tick_event(t, now, 5, "TICK_5"@) + tick_event(t, now, 60, "TICK_60"@)
            + tick_event(t, now, 3600, "TICK_3600"@),
    }
}

/// Adds the tick event called `name`, if a new period has begun since `last`.
fn push_tick(r: &mut Vec<(String, String)>, last: u64, now: u64, period: u64, name: &str)
    requires
        period > 0,
    ensures
        text::text_pairs(final(r)@) == text::text_pairs(old(r)@) + tick_event(
            last,
            now,
            period,
            name@,
        ),
{
    let ghost before = r@;
    proof {
        lemma_mod_decreases(last as nat, period as nat);
        lemma_mod_decreases(now as nat, period as nat);
    }
    if last - last % period != now - now % period {
        let mut payload = "when:".to_string();
        payload.append(number::nat_string(now - now % period).as_str());
        r.push((name.to_string(), payload));
    }
    proof {
        assert(text::text_pairs(r@) =~= text::text_pairs(before) + tick_event(
            last,
            now,
            period,
            name@,
        ));
    }
}

/// The tick events that are due at `now`, in seconds since the epoch, given
/// when they were last looked for.
pub fn ticks(last: Option<u64>, now: u64) -> (r: Vec<(String, String)>)
    ensures
        text::text_pairs(r@) == due_ticks(last, now),
{
    let mut r: Vec<(String, String)> = Vec::new();
    proof {
        assert(text::text_pairs(r@) =~= Seq::<(Seq<char>, Seq<char>)>::empty());
    }
    if let Some(t) = last {
        push_tick(&mut r, t, now, 5, "TICK_5");
        push_tick(&mut r, t, now, 60, "TICK_60");
        push_tick(&mut r, t, now, 3600, "TICK_3600");
        proof {
            assert(text::text_pairs(r@) =~= due_ticks(last, now));
        }
    }
    r
}

// ---------------------------------------------------------------------------
// Envelopes
// ---------------------------------------------------------------------------

/// The serial number after `n`; the last one is used over and over.
pub open spec fn next_serial(n: u64) -> u64 {
    if n < u64::MAX {
        (n + 1) as u64
    } else {
        n
    }
}

/// The serial number after `n`.
pub fn following(n: u64) -> (r: u64)
    ensures
        r == next_serial(n),
{
    if n < u64::MAX {
        n + 1
    } else {
        n
    }
}

/// The header line of an envelope, without its line feed.
pub open spec fn envelope_header(
    server: Seq<char>,
    serial: u64,
    pool: Seq<char>,
    pool_serial: u64,
    name: Seq<char>,
    len: nat,
) -> Seq<char> {
    "ver:3.0 server:"@ + server + " serial:"@ + number::nat_text(serial as nat) + " pool:"@ + pool
        + " poolserial:"@ + number::nat_text(pool_serial as nat) + " eventname:"@ + name + " len:"@
        + number::nat_text(len)
}

/// An event as a listener reads it: a line of `name:value` fields, the last of
/// which is the length of the payload in bytes, and the payload.
pub open spec fn envelope_text(
    server: Seq<char>,
    serial: u64,
    pool: Seq<char>,
    pool_serial: u64,
    name: Seq<char>,
    payload: Seq<char>,
) -> Seq<char> {
    envelope_header(server, serial, pool, pool_serial, name, utf8::encode_utf8(payload).len())
        + seq!['\n'] + payload
}

/// An event as a listener reads it: `server` is the name of the supervisor,
/// `pool` that of the listener's group.
pub fn envelope(
    server: &str,
    serial: u64,
    pool: &str,
    pool_serial: u64,
    name: &str,
    payload: &str,
) -> (r: String)
    ensures
        r@ == envelope_text(server@, serial, pool@, pool_serial, name@, payload@),
{
    let len = util::bytes_of(payload).len();
    let mut r = "ver:3.0 server:".to_string();
    r.append(server);
    r.append(" serial:");
    r.append(number::nat_string(serial).as_str());
    r.append(" pool:");
    r.append(pool);
    r.append(" poolserial:");
    r.append(number::nat_string(pool_serial).as_str());
    r.append(" eventname:");
    r.append(name);
    r.append(" len:");
    r.append(number::nat_string(len as u64).as_str());
    r.push('\n');
    r.append(payload);
    proof {
        assert(r@ =~= envelope_text(server@, serial, pool@, pool_serial, name@, payload@));
    }
    r
}

// ---------------------------------------------------------------------------
// Subscriptions
// ---------------------------------------------------------------------------

/// The abstract event right above an event, apart from `EVENT`.
pub open spec fn family(s: Seq<char>) -> Option<Seq<char>> {
    if text::has_prefix(s, "PROCESS_STATE"@) {
        Some("PROCESS_STATE"@)
    } else if text::has_prefix(s, "TICK"@) {
        Some("TICK"@)
    } else if text::has_prefix(s, "SUPERVISOR_STATE_CHANGE"@) {
        Some("SUPERVISOR_STATE_CHANGE"@)
    } else if text::has_prefix(s, "PROCESS_GROUP"@) {
        Some("PROCESS_GROUP"@)
    } else {
        None
    }
}

/// The names under which an event is delivered, from concrete to abstract.
pub open spec fn ancestor_names(s: Seq<char>) -> Seq<Seq<char>> {
    match family(s) {
        Some(f) => seq![s, f, "EVENT"@],
        None => seq![s, "EVENT"@],
    }
}

/// The texts of a list of names.
pub open spec fn name_texts(v: Seq<&str>) -> Seq<Seq<char>> {
    v.map_values(|s: &str| s@)
}

/// The ancestors of an event name, including the name itself, used for
/// subscription matching.
pub fn ancestors(event_name: &str) -> (r: Vec<&str>)
    ensures
        name_texts(r@) == ancestor_names(event_name@),
{
    let c = text::chars_of(event_name);
    let c = c.as_slice();
    let mut r: Vec<&str> = Vec::new();
    r.push(event_name);
    if text::starts_with(c, "PROCESS_STATE") {
        r.push("PROCESS_STATE");
    } else if text::starts_with(c, "TICK") {
        r.push("TICK");
    } else if text::starts_with(c, "SUPERVISOR_STATE_CHANGE") {
        r.push("SUPERVISOR_STATE_CHANGE");
    } else if text::starts_with(c, "PROCESS_GROUP") {
        r.push("PROCESS_GROUP");
    }
    r.push("EVENT");
    proof {
        assert(name_texts(r@) =~= ancestor_names(event_name@));
    }
    r
}

/// The set of event names a listener subscribes to.
pub struct Subscriptions {
    pub names: StringHashSet,
}

impl View for Subscriptions {
    type V = Set<Seq<char>>;

    open spec fn view(&self) -> Set<Seq<char>> {
        self.names@
    }
}

impl Subscriptions {
    /// No subscriptions.
    pub fn new() -> (r: Self)
        ensures
            r@ == Set::<Seq<char>>::empty(),
    {
        Subscriptions { names: StringHashSet::new() }
    }

    /// Adds a name.
    pub fn insert(&mut self, name: String)
        ensures
            final(self)@ == old(self)@.insert(name@),
    {
        let _ = self.names.insert(name);
    }

    /// Whether a name is subscribed to.
    pub fn contains(&self, name: &str) -> (r: bool)
        ensures
            r == self@.contains(name@),
    {
        self.names.contains(name)
    }

    /// The subscriptions of a list of names.
    pub fn of(names: &Vec<String>) -> (r: Self)
        ensures
            r@ == text::texts(names@).to_set(),
    {
        let mut r = Subscriptions::new();
        let mut i: usize = 0;
        proof {
            assert(text::texts(names@).take(0).to_set() =~= Set::<Seq<char>>::empty());
        }
        while i < names.len()
            invariant
                i <= names@.len(),
                r@ == text::texts(names@).take(i as int).to_set(),
            decreases names@.len() - i,
        {
            r.insert(names[i].clone());
            proof {
                let all = text::texts(names@);
                let s = all.take(i as int);
                let t = all.take(i as int + 1);
                assert(t =~= s.push(all[i as int]));
                assert forall|x: Seq<char>| t.contains(x) == (s.contains(x) || x == all[i as int]) by {
                    if s.contains(x) {
                        let k = choose|k: int| 0 <= k < s.len() && s[k] == x;
                        assert(t[k] == x);
                    }
                    assert(t[i as int] == all[i as int]);
                }
                assert(t.to_set() =~= s.to_set().insert(all[i as int]));
            }
            i = i + 1;
        }
        proof {
            assert(text::texts(names@).take(i as int) =~= text::texts(names@));
        }
        r
    }
}

/// Whether a listener with these subscriptions receives an event.
pub open spec fn wants(subscribed: Set<Seq<char>>, event_name: Seq<char>) -> bool {
    exists|i: int|
        0 <= i < ancestor_names(event_name).len() && subscribed.contains(
            #[trigger] ancestor_names(event_name)[i],
        )
}

/// A listener subscribed to `subscribed` should receive `event_name` if any
/// of the event's ancestors is in its subscription set.
pub fn subscription_matches(subscribed: &Subscriptions, event_name: &str) -> (r: bool)
    ensures
        r == wants(subscribed@, event_name@),
{
    let names = ancestors(event_name);
    let ghost all = ancestor_names(event_name@);
    let mut i: usize = 0;
    while i < names.len()
        invariant
            i <= names@.len(),
            all == name_texts(names@),
            all == ancestor_names(event_name@),
            forall|k: int| 0 <= k < i ==> !subscribed@.contains(#[trigger] all[k]),
        decreases names@.len() - i,
    {
        proof {
            assert(all[i as int] == names@[i as int]@);
        }
        if subscribed.contains(names[i]) {
            return true;
        }
        i = i + 1;
    }
    false
}

/// A listener subscribed to `EVENT` receives every event.
pub proof fn law_event_receives_all(subscribed: Set<Seq<char>>, event_name: Seq<char>)
    requires
        subscribed.contains("EVENT"@),
    ensures
        wants(subscribed, event_name),
{
    let names = ancestor_names(event_name);
    assert(names[names.len() - 1] == "EVENT"@);
}

/// A listener subscribed to an event by its own name, or to the abstract event
/// right above it, receives it.
pub proof fn law_subscribers_receive(subscribed: Set<Seq<char>>, event_name: Seq<char>)
    requires
        subscribed.contains(event_name) || (family(event_name) is Some && subscribed.contains(
            family(event_name)->0,
        )),
    ensures
        wants(subscribed, event_name),
{
    let names = ancestor_names(event_name);
    if subscribed.contains(event_name) {
        assert(names[0] == event_name);
    } else {
        assert(names[1] == family(event_name)->0);
    }
}

/// A listener receives no event that it subscribes to neither by name nor by
/// one of the abstract names above it.
pub proof fn law_others_do_not_receive(subscribed: Set<Seq<char>>, event_name: Seq<char>)
    requires
        !subscribed.contains(event_name),
        !subscribed.contains("EVENT"@),
        family(event_name) is Some ==> !subscribed.contains(family(event_name)->0),
    ensures
        !wants(subscribed, event_name),
{
}

/// Later times fall into the same period or into later ones.
proof fn lemma_period_starts(a: u64, b: u64, period: u64)
    requires
        a <= b,
        period == 5 || period == 60 || period == 3600,
    ensures
        period_start(a, period) <= a < period_start(a, period) + period,
        period_start(b, period) <= b < period_start(b, period) + period,
        period_start(a, period) <= period_start(b, period),
        period_start(b, period) <= a ==> period_start(a, period) == period_start(b, period),
{
    if period == 5 {
        assert(a % 5 == a - 5 * (a / 5));
        assert(b % 5 == b - 5 * (b / 5));
    } else if period == 60 {
        assert(a % 60 == a - 60 * (a / 60));
        assert(b % 60 == b - 60 * (b / 60));
    } else {
        assert(a % 3600 == a - 3600 * (a / 3600));
        assert(b % 3600 == b - 3600 * (b / 3600));
    }
}

/// Ticks do not depend on how often they are looked for: over a stretch of
/// time a tick is due if and only if it is due over one of its parts. It is
/// due at least once in every period, and never twice in one.
pub proof fn law_ticks_are_regular(last: u64, mid: u64, now: u64, period: u64, name: Seq<char>)
    requires
        last <= mid <= now,
        period == 5 || period == 60 || period == 3600,
    ensures
        tick_event(last, now, period, name).len() > 0 <==> tick_event(
            last,
            mid,
            period,
            name,
        ).len() > 0 || tick_event(mid, now, period, name).len() > 0,
        last + period <= now ==> tick_event(last, now, period, name).len() == 1,
        period_start(now, period) <= last ==> tick_event(last, now, period, name).len() == 0,
{
    lemma_period_starts(last, mid, period);
    lemma_period_starts(mid, now, period);
    lemma_period_starts(last, now, period);
}

/// Two texts without a line feed make one without.
proof fn lemma_joined_line(a: Seq<char>, b: Seq<char>)
    requires
        !a.contains('\n'),
        !b.contains('\n'),
    ensures
        !(a + b).contains('\n'),
{
    assert forall|i: int| 0 <= i < (a + b).len() implies (a + b)[i] != '\n' by {
        if i < a.len() {
            assert(a.contains(a[i]));
        } else {
            assert(b.contains(b[i - a.len()]));
        }
    }
}

/// A number is written without a line feed.
proof fn lemma_number_line(n: nat)
    ensures
        !number::nat_text(n).contains('\n'),
{
    number::lemma_nat_text_digits(n);
}

/// A listener finds the payload of an event behind the first line feed, and
/// the length that the line announces is that of the payload.
pub proof fn law_envelope_can_be_read(
    server: Seq<char>,
    serial: u64,
    pool: Seq<char>,
    pool_serial: u64,
    name: Seq<char>,
    payload: Seq<char>,
)
    requires
        !server.contains('\n'),
        !pool.contains('\n'),
        !name.contains('\n'),
    ensures
        ({
            let e = envelope_text(server, serial, pool, pool_serial, name, payload);
            let n = text::first_index(e, '\n');
            &&& e.skip(n + 1) == payload
            &&& e.take(n) == envelope_header(
                server,
                serial,
                pool,
                pool_serial,
                name,
                utf8::encode_utf8(payload).len(),
            )
        }),
{
    let len = utf8::encode_utf8(payload).len();
    let h = envelope_header(server, serial, pool, pool_serial, name, len);
    let e = envelope_text(server, serial, pool, pool_serial, name, payload);
    reveal_strlit("ver:3.0 server:");
    reveal_strlit(" serial:");
    reveal_strlit(" pool:");
    reveal_strlit(" poolserial:");
    reveal_strlit(" eventname:");
    reveal_strlit(" len:");
    lemma_number_line(serial as nat);
    lemma_number_line(pool_serial as nat);
    lemma_number_line(len);
    let a = "ver:3.0 server:"@ + server;
    let b = a + " serial:"@ + number::nat_text(serial as nat);
    let c = b + " pool:"@ + pool;
    let d = c + " poolserial:"@ + number::nat_text(pool_serial as nat);
    let f = d + " eventname:"@ + name;
    lemma_joined_line("ver:3.0 server:"@, server);
    lemma_joined_line(a, " serial:"@);
    lemma_joined_line(a + " serial:"@, number::nat_text(serial as nat));
    lemma_joined_line(b, " pool:"@);
    lemma_joined_line(b + " pool:"@, pool);
    lemma_joined_line(c, " poolserial:"@);
    lemma_joined_line(c + " poolserial:"@, number::nat_text(pool_serial as nat));
    lemma_joined_line(d, " eventname:"@);
    lemma_joined_line(d + " eventname:"@, name);
    lemma_joined_line(f, " len:"@);
    lemma_joined_line(f + " len:"@, number::nat_text(len));
    let n = h.len() as int;
    assert forall|j: int| 0 <= j < n implies e[j] != '\n' by {
        assert(e[j] == h[j]);
        assert(h.contains(h[j]));
    }
    assert(e[n] == '\n');
    text::lemma_first_index_is(e, '\n', n);
    assert(e.take(n) =~= h);
    assert(e.skip(n + 1) =~= payload);
}

/// The event about a state is named after the state.
pub proof fn law_state_event_names_the_state(s: ProcessState)
    ensures
        state_event(s) == "PROCESS_STATE_"@ + states::state_name(s),
{
    reveal_strlit("PROCESS_STATE_");
    reveal_strlit("PROCESS_STATE_STOPPED");
    reveal_strlit("PROCESS_STATE_STARTING");
    reveal_strlit("PROCESS_STATE_RUNNING");
    reveal_strlit("PROCESS_STATE_BACKOFF");
    reveal_strlit("PROCESS_STATE_STOPPING");
    reveal_strlit("PROCESS_STATE_EXITED");
    reveal_strlit("PROCESS_STATE_FATAL");
    reveal_strlit("PROCESS_STATE_UNKNOWN");
    reveal_strlit("STOPPED");
    reveal_strlit("STARTING");
    reveal_strlit("RUNNING");
    reveal_strlit("BACKOFF");
    reveal_strlit("STOPPING");
    reveal_strlit("EXITED");
    reveal_strlit("FATAL");
    reveal_strlit("UNKNOWN");
    assert(state_event(s) =~= "PROCESS_STATE_"@ + states::state_name(s));
}

/// What every payload begins with: the process, its group, and the state it
/// was in.
pub open spec fn payload_head(
    processname: Seq<char>,
    groupname: Seq<char>,
    from_state: ProcessState,
) -> Seq<char> {
    "processname:"@ + processname + " groupname:"@ + groupname + " from_state:"@
        + states::state_name(from_state)
}

/// The payload about an exit says whether it was expected, 1 if it was and 0 if
/// not, and the pid; so expected and unexpected exits can be told apart.
pub proof fn law_exit_payload(
    processname: Seq<char>,
    groupname: Seq<char>,
    from_state: ProcessState,
    pid: int,
    backoff: nat,
    expected: bool,
)
    ensures
        ({
            let head = payload_head(processname, groupname, from_state);
            let yes = state_payload(
                processname,
                groupname,
                from_state,
                ProcessState::Exited,
                pid,
                backoff,
                true,
            );
            let no = state_payload(
                processname,
                groupname,
                from_state,
                ProcessState::Exited,
                pid,
                backoff,
                false,
            );
            &&& yes == head + " expected:1 pid:"@ + number::int_text(pid)
            &&& no == head + " expected:0 pid:"@ + number::int_text(pid)
            &&& yes != no
            &&& state_payload(
                processname,
                groupname,
                from_state,
                ProcessState::Exited,
                pid,
                backoff,
                expected,
            ) == (if expected {
                yes
            } else {
                no
            })
        }),
{
    reveal_strlit(" expected:1 pid:");
    reveal_strlit(" expected:0 pid:");
    reveal_strlit(" expected:");
    reveal_strlit(" pid:");
    assert(number::nat_text(1) =~= seq!['1']);
    assert(number::nat_text(0) =~= seq!['0']);
    let head = payload_head(processname, groupname, from_state);
    let yes = state_payload(
        processname,
        groupname,
        from_state,
        ProcessState::Exited,
        pid,
        backoff,
        true,
    );
    let no = state_payload(
        processname,
        groupname,
        from_state,
        ProcessState::Exited,
        pid,
        backoff,
        false,
    );
    assert(" expected:"@ + number::nat_text(1) + " pid:"@ =~= " expected:1 pid:"@);
    assert(" expected:"@ + number::nat_text(0) + " pid:"@ =~= " expected:0 pid:"@);
    assert(yes =~= head + " expected:1 pid:"@ + number::int_text(pid));
    assert(no =~= head + " expected:0 pid:"@ + number::int_text(pid));
    assert(yes[head.len() as int + 10] == '1');
    assert(no[head.len() as int + 10] == '0');
}

/// The other payloads: a start tells how many tries there were, a process that
/// runs, stops or has stopped its pid, and the rest nothing more.
pub proof fn law_state_payloads(
    processname: Seq<char>,
    groupname: Seq<char>,
    from_state: ProcessState,
    new_state: ProcessState,
    pid: int,
    backoff: nat,
    expected: bool,
)
    requires
        new_state !is Exited,
    ensures
        state_payload(processname, groupname, from_state, new_state, pid, backoff, expected)
            == payload_head(processname, groupname, from_state) + (match new_state {
            ProcessState::Starting | ProcessState::Backoff => " tries:"@ + number::nat_text(
                backoff,
            ),
            ProcessState::Running | ProcessState::Stopping | ProcessState::Stopped => " pid:"@
                + number::int_text(pid),
            _ => Seq::empty(),
        }),
{
}

/// Ticks come when their period begins: a tick is due just if the period that
/// `now` falls into began after the last look, and it tells when that was.
pub proof fn law_due_ticks(last: u64, now: u64, n: nat)
    requires
        last <= now,
    ensures
        ({
            let due = due_ticks(Some(last), now);
            let when = "when:"@ + number::nat_text(n);
            &&& due.contains(("TICK_5"@, when)) <==> n % 5 == 0 && last < n <= now < n + 5
            &&& due.contains(("TICK_60"@, when)) <==> n % 60 == 0 && last < n <= now < n + 60
            &&& due.contains(("TICK_3600"@, when)) <==> n % 3600 == 0 && last < n <= now < n
                + 3600
            &&& due_ticks(None, now).len() == 0
        }),
{
    reveal_strlit("TICK_5");
    reveal_strlit("TICK_60");
    reveal_strlit("TICK_3600");
    assert("TICK_5"@.len() == 6 && "TICK_60"@.len() == 7 && "TICK_3600"@.len() == 9);
    lemma_period_starts(last, now, 5);
    lemma_period_starts(last, now, 60);
    lemma_period_starts(last, now, 3600);
    lemma_tick(last, now, 5, "TICK_5"@, n);
    lemma_tick(last, now, 60, "TICK_60"@, n);
    lemma_tick(last, now, 3600, "TICK_3600"@, n);
    let a = tick_event(last, now, 5, "TICK_5"@);
    let b = tick_event(last, now, 60, "TICK_60"@);
    let c = tick_event(last, now, 3600, "TICK_3600"@);
    let due = due_ticks(Some(last), now);
    let when = "when:"@ + number::nat_text(n);
    lemma_in_one_of_three(a, b, c, ("TICK_5"@, when));
    lemma_in_one_of_three(a, b, c, ("TICK_60"@, when));
    lemma_in_one_of_three(a, b, c, ("TICK_3600"@, when));
}

proof fn lemma_in_one_of_three<A>(a: Seq<A>, b: Seq<A>, c: Seq<A>, x: A)
    ensures
        (a + b + c).contains(x) <==> a.contains(x) || b.contains(x) || c.contains(x),
{
    let all = a + b + c;
    if a.contains(x) {
        let i = choose|i: int| 0 <= i < a.len() && a[i] == x;
        assert(all[i] == x);
    }
    if b.contains(x) {
        let i = choose|i: int| 0 <= i < b.len() && b[i] == x;
        assert(all[a.len() + i] == x);
    }
    if c.contains(x) {
        let i = choose|i: int| 0 <= i < c.len() && c[i] == x;
        assert(all[a.len() + b.len() + i] == x);
    }
    if all.contains(x) {
        let i = choose|i: int| 0 <= i < all.len() && all[i] == x;
        if i < a.len() {
            assert(a[i] == x);
        } else if i < a.len() + b.len() {
            assert(b[i - a.len()] == x);
        } else {
            assert(c[i - a.len() - b.len()] == x);
        }
    }
}

/// A period begins at the multiple of its length that the time falls behind.
proof fn lemma_period_is(now: u64, period: u64, n: nat)
    requires
        period == 5 || period == 60 || period == 3600,
    ensures
        n % period as nat == 0 && n <= now < n + period <==> n == period_start(now, period),
{
    let t = now as int;
    if period == 5 {
        assert(t - t % 5 == 5 * (t / 5));
        assert(n % 5 == 0 ==> n == 5 * (n as int / 5));
    } else if period == 60 {
        assert(t - t % 60 == 60 * (t / 60));
        assert(n % 60 == 0 ==> n == 60 * (n as int / 60));
    } else {
        assert(t - t % 3600 == 3600 * (t / 3600));
        assert(n % 3600 == 0 ==> n == 3600 * (n as int / 3600));
    }
}

proof fn lemma_tick(last: u64, now: u64, period: u64, name: Seq<char>, n: nat)
    requires
        last <= now,
        period == 5 || period == 60 || period == 3600,
    ensures
        tick_event(last, now, period, name).contains((name, "when:"@ + number::nat_text(n)))
            <==> n % period as nat == 0 && last < n <= now < n + period,
        forall|other: Seq<char>, when: Seq<char>|
            other != name ==> !(#[trigger] tick_event(last, now, period, name).contains(
                (other, when),
            )),
{
    lemma_period_starts(last, now, period);
    reveal_strlit("when:");
    let m = period_start(now, period) as nat;
    let t = tick_event(last, now, period, name);
    let when = "when:"@ + number::nat_text(n);
    number::law_nat_text_injective(m, n);
    assert(("when:"@ + number::nat_text(m)).skip(5) =~= number::nat_text(m));
    assert(when.skip(5) =~= number::nat_text(n));
    lemma_period_is(now, period, n);
    if period_start(last, period) != period_start(now, period) {
        assert(t[0] == (name, "when:"@ + number::nat_text(m)));
        if t.contains((name, when)) {
            let i = choose|i: int| 0 <= i < t.len() && t[i] == (name, when);
            assert(m == n);
        }
        if m == n {
            assert(t[0] == (name, when));
        }
    }
}

/// The events that belong together: those about states, ticks, the supervisor
/// and groups, whatever their names go on with.
pub proof fn law_families(rest: Seq<char>)
    ensures
        family("PROCESS_STATE"@ + rest) == Some("PROCESS_STATE"@),
        family("TICK"@ + rest) == Some("TICK"@),
        family("SUPERVISOR_STATE_CHANGE"@ + rest) == Some("SUPERVISOR_STATE_CHANGE"@),
        family("PROCESS_GROUP"@ + rest) == Some("PROCESS_GROUP"@),
{
    reveal_strlit("PROCESS_STATE");
    reveal_strlit("TICK");
    reveal_strlit("SUPERVISOR_STATE_CHANGE");
    reveal_strlit("PROCESS_GROUP");
    let a = "PROCESS_STATE"@ + rest;
    let b = "TICK"@ + rest;
    let c = "SUPERVISOR_STATE_CHANGE"@ + rest;
    let d = "PROCESS_GROUP"@ + rest;
    assert(a.take(13) =~= "PROCESS_STATE"@);
    assert(b.take(4) =~= "TICK"@);
    assert(c.take(23) =~= "SUPERVISOR_STATE_CHANGE"@);
    assert(d.take(13) =~= "PROCESS_GROUP"@);
    assert(b[0] == 'T');
    assert(!text::has_prefix(b, "PROCESS_STATE"@)) by {
        if text::has_prefix(b, "PROCESS_STATE"@) {
            assert(b.take(13)[0] == 'T');
        }
    }
    assert(!text::has_prefix(c, "PROCESS_STATE"@)) by {
        assert(c.take(13)[0] == 'S');
    }
    assert(!text::has_prefix(c, "TICK"@)) by {
        assert(c.take(4)[0] == 'S');
    }
    assert(!text::has_prefix(d, "PROCESS_STATE"@)) by {
        assert(d.take(13)[8] == 'G');
        assert("PROCESS_STATE"@[8] == 'S');
    }
    assert(!text::has_prefix(d, "TICK"@)) by {
        assert(d.take(4)[0] == 'P');
    }
    assert(!text::has_prefix(d, "SUPERVISOR_STATE_CHANGE"@)) by {
        if text::has_prefix(d, "SUPERVISOR_STATE_CHANGE"@) {
            assert(d.take(23)[0] == 'P');
        }
    }
}

/// What an envelope says before its payload, field by field; the last is how
/// many bytes the payload has.
pub proof fn law_envelope_fields(
    server: Seq<char>,
    serial: u64,
    pool: Seq<char>,
    pool_serial: u64,
    name: Seq<char>,
    payload: Seq<char>,
)
    ensures
        envelope_text(server, serial, pool, pool_serial, name, payload) == "ver:3.0 server:"@
            + server + " serial:"@ + number::nat_text(serial as nat) + " pool:"@ + pool
            + " poolserial:"@ + number::nat_text(pool_serial as nat) + " eventname:"@ + name
            + " len:"@ + number::nat_text(utf8::encode_utf8(payload).len()) + seq!['\n'] + payload,
{
}

/// Serial numbers count up.
pub proof fn law_serials_count(n: u64)
    requires
        n < u64::MAX,
    ensures
        next_serial(n) == n + 1,
{
}

/// An event of any other name belongs to no family.
pub proof fn law_no_family(s: Seq<char>)
    requires
        s.len() > 0,
        s[0] != 'P' && s[0] != 'T' && s[0] != 'S',
    ensures
        family(s) is None,
        ancestor_names(s) == seq![s, "EVENT"@],
{
    reveal_strlit("PROCESS_STATE");
    reveal_strlit("TICK");
    reveal_strlit("SUPERVISOR_STATE_CHANGE");
    reveal_strlit("PROCESS_GROUP");
    assert(!text::has_prefix(s, "PROCESS_STATE"@)) by {
        if text::has_prefix(s, "PROCESS_STATE"@) {
            assert(s.take(13)[0] == s[0]);
        }
    }
    assert(!text::has_prefix(s, "TICK"@)) by {
        if text::has_prefix(s, "TICK"@) {
            assert(s.take(4)[0] == s[0]);
        }
    }
    assert(!text::has_prefix(s, "SUPERVISOR_STATE_CHANGE"@)) by {
        if text::has_prefix(s, "SUPERVISOR_STATE_CHANGE"@) {
            assert(s.take(23)[0] == s[0]);
        }
    }
    assert(!text::has_prefix(s, "PROCESS_GROUP"@)) by {
        if text::has_prefix(s, "PROCESS_GROUP"@) {
            assert(s.take(13)[0] == s[0]);
        }
    }
}

/// An event goes by its own name first, then by that of its family, and by the
/// name of all events last.
pub proof fn law_ancestors(s: Seq<char>)
    ensures
        ancestor_names(s)[0] == s,
        ancestor_names(s).last() == "EVENT"@,
        family(s) is Some ==> ancestor_names(s) == seq![s, family(s)->0, "EVENT"@],
        family(s) is None ==> ancestor_names(s).len() == 2,
{
}

} // verus!
