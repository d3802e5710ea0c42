//! What holds of every configuration: the order of the programs, group
//! membership, instances, and the reading of single values.
use crate::config::assemble;
use crate::config::ini;
use crate::config::ini::SectionModel;
use crate::config::program;
use crate::config::settings::ProgramModel;
use crate::config::values;
use crate::config::values::Signals;
use crate::text;
use vstd::prelude::*;

verus! {

// ---------------------------------------------------------------------------
// Order
// ---------------------------------------------------------------------------

/// Whether no program comes before one with a lower priority number.
pub open spec fn in_order(s: Seq<ProgramModel>) -> bool {
    forall|i: int, j: int|
        0 <= i <= j < s.len() ==> (#[trigger] s[i]).priority <= (#[trigger] s[j]).priority
}

/// The programs of one priority, in their order.
pub open spec fn of_priority(s: Seq<ProgramModel>, n: i32) -> Seq<ProgramModel>
    decreases s.len(),
{
    if s.len() == 0 {
        s
    } else {
        let rest = of_priority(s.drop_last(), n);
        if s.last().priority == n {
            rest.push(s.last())
        } else {
            rest
        }
    }
}

/// What `slot` returns for programs in order: the position that parts those
/// up to the priority from those above it.
proof fn lemma_slot(s: Seq<ProgramModel>, n: i32)
    requires
        in_order(s),
    ensures
        0 <= assemble::slot(s, n) <= s.len(),
        forall|i: int| 0 <= i < assemble::slot(s, n) ==> (#[trigger] s[i]).priority <= n,
        forall|i: int| assemble::slot(s, n) <= i < s.len() ==> (#[trigger] s[i]).priority > n,
    decreases s.len(),
{
    if s.len() == 0 || s.last().priority <= n {
    } else {
        let t = s.drop_last();
        assert(forall|i: int| 0 <= i < t.len() ==> #[trigger] t[i] == s[i]);
        lemma_slot(t, n);
        let k = assemble::slot(s, n);
        assert forall|i: int| 0 <= i < k implies (#[trigger] s[i]).priority <= n by {
            assert(t[i] == s[i]);
        }
        assert forall|i: int| k <= i < s.len() implies (#[trigger] s[i]).priority > n by {
            if i < t.len() {
                assert(t[i] == s[i]);
            }
        }
    }
}

/// Putting a program behind all that do not start later changes the order of no others.
proof fn lemma_insert_keeps(s: Seq<ProgramModel>, k: int, p: ProgramModel, n: i32)
    requires
        0 <= k <= s.len(),
        forall|i: int| k <= i < s.len() ==> (#[trigger] s[i]).priority > p.priority,
    ensures
        of_priority(s.insert(k, p), n) == (if p.priority == n {
            of_priority(s, n).push(p)
        } else {
            of_priority(s, n)
        }),
    decreases s.len(),
{
    let t = s.insert(k, p);
    if k == s.len() {
        assert(t.drop_last() =~= s);
    } else {
        let u = s.drop_last();
        assert(forall|i: int| 0 <= i < u.len() ==> #[trigger] u[i] == s[i]);
        lemma_insert_keeps(u, k, p, n);
        assert(t.drop_last() =~= u.insert(k, p));
        assert(t.last() == s.last());
        assert(s.last() == s[s.len() - 1]);
    }
}

/// Programs start in the order of their priorities, and those of one priority
/// in the order in which the file gives them; none is lost or added.
pub proof fn law_by_priority(s: Seq<ProgramModel>)
    ensures
        in_order(assemble::by_priority(s)),
        assemble::by_priority(s).len() == s.len(),
        forall|n: i32| #[trigger]
            of_priority(assemble::by_priority(s), n) == of_priority(s, n),
    decreases s.len(),
{
    if s.len() > 0 {
        let t = s.drop_last();
        let p = s.last();
        law_by_priority(t);
        let sorted = assemble::by_priority(t);
        lemma_slot(sorted, p.priority);
        let k = assemble::slot(sorted, p.priority);
        let r = sorted.insert(k, p);
        assert forall|i: int, j: int| 0 <= i <= j < r.len() implies (#[trigger] r[i]).priority <= (
        #[trigger] r[j]).priority by {
            let a = if i < k {
                i
            } else {
                i - 1
            };
            let b = if j < k {
                j
            } else {
                j - 1
            };
            if i != k {
                assert(r[i] == sorted[a]);
            }
            if j != k {
                assert(r[j] == sorted[b]);
            }
        }
        assert forall|n: i32| #[trigger] of_priority(r, n) == of_priority(s, n) by {
            lemma_insert_keeps(sorted, k, p, n);
            assert(of_priority(sorted, n) == of_priority(t, n));
        }
    }
}

// ---------------------------------------------------------------------------
// Groups
// ---------------------------------------------------------------------------

/// After a group's members have joined: every instance of a named program is
/// in the group, all others are where they were, and nothing but the group and
/// the priority of a member has changed.
pub proof fn law_group_membership(
    programs: Seq<ProgramModel>,
    members: Seq<Seq<char>>,
    i: int,
    group: Seq<char>,
    priority: Option<i32>,
)
    requires
        0 <= i <= members.len(),
    ensures
        assemble::after_members(programs, members, i, group, priority) matches Ok(r) ==> {
            &&& r.len() == programs.len()
            &&& forall|k: int|
                0 <= k < r.len() ==> #[trigger] r[k] == (if members.skip(i).contains(
                    programs[k].program,
                ) {
                    assemble::in_group(programs[k], group, priority)
                } else {
                    programs[k]
                })
        },
    decreases members.len() - i,
{
    if i < members.len() && assemble::has_program(programs, members[i]) {
        let next = assemble::joined(programs, members[i], group, priority);
        law_group_membership(next, members, i + 1, group, priority);
        if let Ok(r) = assemble::after_members(programs, members, i, group, priority) {
            assert forall|k: int| 0 <= k < r.len() implies #[trigger] r[k] == (
            if members.skip(i).contains(programs[k].program) {
                assemble::in_group(programs[k], group, priority)
            } else {
                programs[k]
            }) by {
                let m = programs[k].program;
                assert(members.skip(i)[0] == members[i]);
                let here = members.skip(i);
                let later = members.skip(i + 1);
                if later.contains(m) {
                    let j = choose|j: int| 0 <= j < later.len() && later[j] == m;
                    assert(here[j + 1] == m);
                }
                if here.contains(m) && m != members[i] {
                    let j = choose|j: int| 0 <= j < here.len() && here[j] == m;
                    assert(later[j - 1] == m);
                }
                assert(next[k].program == m);
                assert(assemble::in_group(
                    assemble::in_group(programs[k], group, priority),
                    group,
                    priority,
                ) =~= assemble::in_group(programs[k], group, priority));
            }
        }
    }
}

/// A group can name only programs that exist.
pub proof fn law_group_names_known_programs(
    programs: Seq<ProgramModel>,
    members: Seq<Seq<char>>,
    i: int,
    group: Seq<char>,
    priority: Option<i32>,
)
    requires
        0 <= i <= members.len(),
    ensures
        assemble::after_members(programs, members, i, group, priority) is Ok <==> (forall|k: int|
            i <= k < members.len() ==> assemble::has_program(programs, #[trigger] members[k])),
    decreases members.len() - i,
{
    if i < members.len() && assemble::has_program(programs, members[i]) {
        let next = assemble::joined(programs, members[i], group, priority);
        law_group_names_known_programs(next, members, i + 1, group, priority);
        assert forall|m: Seq<char>| assemble::has_program(programs, m) == #[trigger]
            assemble::has_program(next, m) by {
            if assemble::has_program(programs, m) {
                let k = choose|k: int|
                    0 <= k < programs.len() && (#[trigger] programs[k]).program == m;
                assert(next[k].program == m);
            }
            if assemble::has_program(next, m) {
                let k = choose|k: int| 0 <= k < next.len() && (#[trigger] next[k]).program == m;
                assert(programs[k].program == m);
            }
        }
    }
}

// ---------------------------------------------------------------------------
// Instances
// ---------------------------------------------------------------------------

/// A program without faults has an instance at least, and all its instances
/// share everything but the name.
pub proof fn law_instances(
    name: Seq<char>,
    items: Seq<(Seq<char>, Seq<char>)>,
    base: Seq<(Seq<char>, Seq<char>)>,
    listener: bool,
    signals: Signals,
)
    ensures
        program::programs_of(name, items, base, listener, signals) matches Ok(r) ==> {
            &&& r.len() >= 1
            &&& forall|i: int|
                0 <= i < r.len() ==> {
                    &&& (#[trigger] r[i]) == ProgramModel { name: r[i].name, ..r[0] }
                    &&& r[i].program == name
                    &&& r[i].group == name
                    &&& r[i].is_listener == listener
                }
        },
{
}

/// A listener's stderr never mixes with the protocol on its stdout.
pub proof fn law_listener_keeps_stderr_apart(
    name: Seq<char>,
    items: Seq<(Seq<char>, Seq<char>)>,
    base: Seq<(Seq<char>, Seq<char>)>,
    signals: Signals,
)
    ensures
        program::programs_of(name, items, base, true, signals) matches Ok(r) ==> forall|i: int|
            0 <= i < r.len() ==> !(#[trigger] r[i]).redirect_stderr,
{
}

// ---------------------------------------------------------------------------
// Lines and values
// ---------------------------------------------------------------------------

/// A blank line or a comment line changes nothing, wherever it stands.
pub proof fn law_remarks_change_nothing(sections: Seq<SectionModel>, lineno: nat, raw: Seq<char>)
    requires
        ini::is_remark(text::trimmed(raw)),
    ensures
        ini::after_line(sections, lineno, raw) == Ok::<Seq<SectionModel>, Seq<char>>(sections),
{
}

/// Of several items with one key, the last counts.
pub proof fn law_last_item_counts(
    items: Seq<(Seq<char>, Seq<char>)>,
    key: Seq<char>,
    value: Seq<char>,
)
    ensures
        ini::value_of(items.push((key, value)), key) == Some(value),
        forall|other: Seq<char>|
            other != key ==> #[trigger] ini::value_of(items.push((key, value)), other)
                == ini::value_of(items, other),
{
    assert(items.push((key, value)).drop_last() =~= items);
}

/// Whether a character can stand in a variable's name.
pub open spec fn name_char(c: char) -> bool {
    !text::is_white(c) && c != '=' && c != ',' && c != '"'
}

/// A comma between quotes does not end a part.
proof fn lemma_quoted_commas(s: Seq<char>, end: int, quoted: bool)
    requires
        0 <= end < s.len(),
        s.len() == end + 1,
        s[end] == '"',
        quoted,
        forall|i: int| 0 <= i < end ==> #[trigger] s[i] != '"',
    ensures
        values::next_comma(s, quoted) == s.len(),
    decreases end,
{
    let t = s.skip(1);
    if end == 0 {
        assert(t =~= Seq::<char>::empty());
        assert(values::next_comma(t, false) == 0);
    } else {
        assert(s[0] != '"');
        assert forall|i: int| 0 <= i < end - 1 implies #[trigger] t[i] != '"' by {
            assert(t[i] == s[i + 1]);
        }
        lemma_quoted_commas(t, end - 1, quoted);
    }
}

proof fn lemma_unquoted_part(s: Seq<char>, from: int)
    requires
        0 <= from <= s.len(),
        forall|i: int| 0 <= i < from ==> #[trigger] s[i] != '"' && s[i] != ',',
    ensures
        values::next_comma(s, false) == from + values::next_comma(s.skip(from), false),
    decreases from,
{
    if from == 0 {
        assert(s.skip(0) =~= s);
    } else {
        let t = s.skip(1);
        assert(s[0] != '"');
        assert forall|i: int| 0 <= i < from - 1 implies #[trigger] t[i] != '"' && t[i] != ',' by {
            assert(t[i] == s[i + 1]);
        }
        lemma_unquoted_part(t, from - 1);
        assert(t.skip(from - 1) =~= s.skip(from));
    }
}

/// A variable given as `NAME="value"` is one part of a list.
pub proof fn lemma_quoted_variable_is_one_part(name: Seq<char>, value: Seq<char>)
    requires
        forall|i: int| 0 <= i < name.len() ==> name_char(#[trigger] name[i]),
        forall|i: int| 0 <= i < value.len() ==> #[trigger] value[i] != '"',
    ensures
        ({
            let s = name + seq!['=', '"'] + value + seq!['"'];
            values::next_comma(s, false) == s.len()
        }),
{
    let s = name + seq!['=', '"'] + value + seq!['"'];
    let n = name.len() as int;
    let v = value.len() as int;
    assert(s.len() == n + v + 3);
    assert forall|i: int| 0 <= i < n + 1 implies #[trigger] s[i] != '"' && s[i] != ',' by {
        if i < n {
            assert(s[i] == name[i]);
        }
    }
    lemma_unquoted_part(s, n + 1);
    let q = s.skip(n + 1);
    assert(q[0] == '"');
    let rest = q.skip(1);
    assert forall|i: int| 0 <= i < v implies #[trigger] rest[i] != '"' by {
        assert(rest[i] == value[i]);
    }
    lemma_quoted_commas(rest, v, true);
    assert(values::next_comma(q, false) == 1 + values::next_comma(rest, true));
}

/// A variable given as `NAME="value"` has that value, whatever the value
/// holds apart from double quotes.
pub proof fn law_quoted_variable(name: Seq<char>, value: Seq<char>)
    requires
        name.len() > 0,
        forall|i: int| 0 <= i < name.len() ==> name_char(#[trigger] name[i]),
        forall|i: int| 0 <= i < value.len() ==> #[trigger] value[i] != '"',
    ensures
        values::environment_of(name + seq!['=', '"'] + value + seq!['"']) == seq![(name, value)],
{
    let s = name + seq!['=', '"'] + value + seq!['"'];
    let n = name.len() as int;
    let v = value.len() as int;
    assert(s.len() == n + v + 3);
    lemma_quoted_variable_is_one_part(name, value);
    let parts = values::comma_parts(s);
    assert(parts =~= seq![s]);
    assert(s[0] == name[0]);
    assert(s.last() == '"');
    assert(text::trimmed(s) == s);
    assert forall|j: int| 0 <= j < n implies s[j] != '=' by {
        assert(s[j] == name[j]);
    }
    assert(s[n] == '=');
    text::lemma_first_index_is(s, '=', n);
    assert(s.take(n) =~= name);
    assert(!text::is_white(name[n - 1]));
    assert(text::trimmed(name) == name);
    let t = s.skip(n + 1);
    assert(t[0] == '"');
    assert(t.last() == '"');
    assert(text::trimmed(t) == t);
    assert(t.subrange(1, t.len() - 1) =~= value);
    assert(parts.skip(1) =~= Seq::<Seq<char>>::empty());
    assert(values::variables(parts.skip(1)) =~= Seq::<(Seq<char>, Seq<char>)>::empty());
    assert(values::environment_of(s) =~= seq![(name, value)]);
}

} // verus!
