//! What a new configuration changes: the groups it adds, those whose programs
//! are no longer the same, and those it no longer has.
use crate::config::assemble::Config;
use crate::config::assemble::ConfigModel;
use crate::config::settings;
use crate::config::settings::ProgramConfig;
use crate::config::settings::ProgramModel;
use crate::text;
use vstd::prelude::*;

verus! {

/// The groups that a new configuration adds, changes and removes.
#[derive(Debug, PartialEq)]
pub struct ConfigDiff {
    pub added: Vec<String>,
    pub changed: Vec<String>,
    pub removed: Vec<String>,
}

/// The mathematical content of a [`ConfigDiff`].
#[verifier::ext_equal]
pub struct DiffModel {
    pub added: Seq<Seq<char>>,
    pub changed: Seq<Seq<char>>,
    pub removed: Seq<Seq<char>>,
}

impl View for ConfigDiff {
    type V = DiffModel;

    open spec fn view(&self) -> DiffModel {
        DiffModel {
            added: text::texts(self.added@),
            changed: text::texts(self.changed@),
            removed: text::texts(self.removed@),
        }
    }
}

// ---------------------------------------------------------------------------
// Groups
// ---------------------------------------------------------------------------

/// Whether some program belongs to the group.
pub open spec fn has_group(programs: Seq<ProgramModel>, group: Seq<char>) -> bool {
    exists|i: int| 0 <= i < programs.len() && (#[trigger] programs[i]).group == group
}

/// What tells the programs of a group from all others.
pub open spec fn belongs_to(group: Seq<char>) -> spec_fn(ProgramModel) -> bool {
    |p: ProgramModel| p.group == group
}

/// The programs of a group, in their order.
pub open spec fn members(programs: Seq<ProgramModel>, group: Seq<char>) -> Seq<ProgramModel> {
    programs.filter(belongs_to(group))
}

/// The groups that programs belong to, each once, in the order in which they
/// come up.
pub open spec fn group_names(programs: Seq<ProgramModel>) -> Seq<Seq<char>>
    decreases programs.len(),
{
    if programs.len() == 0 {
        Seq::empty()
    } else {
        let rest = group_names(programs.drop_last());
        if has_group(programs.drop_last(), programs.last().group) {
            rest
        } else {
            rest.push(programs.last().group)
        }
    }
}

/// What tells the groups that `programs` does not have.
pub open spec fn missing_from(programs: Seq<ProgramModel>) -> spec_fn(Seq<char>) -> bool {
    |g: Seq<char>| !has_group(programs, g)
}

/// What tells the groups that two lists of programs have, but not with the
/// same programs.
pub open spec fn differs_in(a: Seq<ProgramModel>, b: Seq<ProgramModel>) -> spec_fn(
    Seq<char>,
) -> bool {
    |g: Seq<char>| has_group(a, g) && has_group(b, g) && members(a, g) != members(b, g)
}

/// The groups that are only in `fresh`, those in both whose programs differ,
/// and those that are only in `running`.
pub open spec fn diff_of(running: ConfigModel, fresh: ConfigModel) -> DiffModel {
    DiffModel {
        added: group_names(fresh.programs).filter(missing_from(running.programs)),
        changed: group_names(fresh.programs).filter(
            differs_in(running.programs, fresh.programs),
        ),
        removed: group_names(running.programs).filter(missing_from(fresh.programs)),
    }
}

/// Filtering one item more.
pub proof fn lemma_filter_step<A>(s: Seq<A>, i: int, f: spec_fn(A) -> bool)
    requires
        0 <= i < s.len(),
    ensures
        s.take(i + 1).filter(f) == (if f(s[i]) {
            s.take(i).filter(f).push(s[i])
        } else {
            s.take(i).filter(f)
        }),
{
    reveal(Seq::filter);
    assert(s.take(i + 1).drop_last() =~= s.take(i));
}

/// Filtering nothing.
pub proof fn lemma_filter_empty<A>(s: Seq<A>, f: spec_fn(A) -> bool)
    requires
        s.len() == 0,
    ensures
        s.filter(f) == Seq::<A>::empty(),
{
    reveal(Seq::filter);
    assert(s =~= Seq::<A>::empty());
}

/// Whether some program belongs to the group.
pub fn holds_group(programs: &Vec<ProgramConfig>, group: &str) -> (r: bool)
    ensures
        r == has_group(settings::program_list(programs@), group@),
{
    let ghost all = settings::program_list(programs@);
    let mut i: usize = 0;
    while i < programs.len()
        invariant
            i <= programs@.len(),
            all == settings::program_list(programs@),
            forall|k: int| 0 <= k < i ==> (#[trigger] all[k]).group != group@,
        decreases programs@.len() - i,
    {
        proof {
            assert(all[i as int] == programs@[i as int]@);
        }
        if text::same(programs[i].group.as_str(), group) {
            return true;
        }
        i = i + 1;
    }
    false
}

/// The programs of a group, in their order.
pub fn group_programs(programs: &Vec<ProgramConfig>, group: &str) -> (r: Vec<ProgramConfig>)
    ensures
        settings::program_list(r@) == members(settings::program_list(programs@), group@),
{
    let ghost all = settings::program_list(programs@);
    let mut r: Vec<ProgramConfig> = Vec::new();
    let mut i: usize = 0;
    proof {
        lemma_filter_empty(all.take(0), belongs_to(group@));
        assert(settings::program_list(r@) =~= members(all.take(0), group@));
    }
    while i < programs.len()
        invariant
            i <= programs@.len(),
            all == settings::program_list(programs@),
            settings::program_list(r@) == members(all.take(i as int), group@),
        decreases programs@.len() - i,
    {
        let ghost before = r@;
        proof {
            assert(all[i as int] == programs@[i as int]@);
            lemma_filter_step(all, i as int, belongs_to(group@));
        }
        if text::same(programs[i].group.as_str(), group) {
            r.push(programs[i].clone());
            proof {
                assert(settings::program_list(r@) =~= settings::program_list(before).push(
                    all[i as int],
                ));
            }
        }
        i = i + 1;
    }
    proof {
        assert(all.take(i as int) =~= all);
    }
    r
}

/// The groups that programs belong to, in the order in which they come up.
pub fn groups(programs: &Vec<ProgramConfig>) -> (r: Vec<String>)
    ensures
        text::texts(r@) == group_names(settings::program_list(programs@)),
{
    let ghost all = settings::program_list(programs@);
    let mut r: Vec<String> = Vec::new();
    let mut i: usize = 0;
    proof {
        assert(text::texts(r@) =~= group_names(all.take(0)));
    }
    while i < programs.len()
        invariant
            i <= programs@.len(),
            all == settings::program_list(programs@),
            text::texts(r@) == group_names(all.take(i as int)),
        decreases programs@.len() - i,
    {
        let ghost before = r@;
        let ghost t = all.take(i as int);
        let mut known = false;
        let mut k: usize = 0;
        while k < i
            invariant
                k <= i < programs@.len(),
                all == settings::program_list(programs@),
                t == all.take(i as int),
                known == exists|j: int|
                    0 <= j < k && (#[trigger] t[j]).group == all[i as int].group,
            decreases i - k,
        {
            proof {
                assert(t[k as int] == programs@[k as int]@);
                assert(all[i as int] == programs@[i as int]@);
            }
            if text::same(programs[k].group.as_str(), programs[i].group.as_str()) {
                known = true;
            }
            k = k + 1;
        }
        proof {
            let next = all.take(i as int + 1);
            assert(next.drop_last() =~= t);
            assert(next.last() == programs@[i as int]@);
            assert(known == has_group(t, next.last().group));
        }
        if !known {
            r.push(programs[i].group.clone());
            proof {
                assert(text::texts(r@) =~= text::texts(before).push(all[i as int].group));
            }
        }
        i = i + 1;
    }
    proof {
        assert(all.take(i as int) =~= all);
    }
    r
}

// ---------------------------------------------------------------------------
// Comparison
// ---------------------------------------------------------------------------

/// Whether two lists of programs are the same.
fn same_programs(a: &Vec<ProgramConfig>, b: &Vec<ProgramConfig>) -> (r: bool)
    ensures
        r == (settings::program_list(a@) == settings::program_list(b@)),
{
    let ghost x = settings::program_list(a@);
    let ghost y = settings::program_list(b@);
    if a.len() != b.len() {
        proof {
            assert(x.len() != y.len());
        }
        return false;
    }
    let mut i: usize = 0;
    while i < a.len()
        invariant
            i <= a@.len(),
            a@.len() == b@.len(),
            x == settings::program_list(a@),
            y == settings::program_list(b@),
            forall|k: int| 0 <= k < i ==> #[trigger] x[k] == y[k],
        decreases a@.len() - i,
    {
        proof {
            assert(x[i as int] == a@[i as int]@);
            assert(y[i as int] == b@[i as int]@);
        }
        if !a[i].same(&b[i]) {
            return false;
        }
        i = i + 1;
    }
    proof {
        assert(x =~= y);
    }
    true
}

/// The groups of one list of programs that another does not have.
fn groups_only_in(programs: &Vec<ProgramConfig>, others: &Vec<ProgramConfig>) -> (r: Vec<String>)
    ensures
        text::texts(r@) == group_names(settings::program_list(programs@)).filter(
            missing_from(settings::program_list(others@)),
        ),
{
    let names = groups(programs);
    let ghost all = text::texts(names@);
    let ghost f = missing_from(settings::program_list(others@));
    let mut r: Vec<String> = Vec::new();
    let mut i: usize = 0;
    proof {
        lemma_filter_empty(all.take(0), f);
        assert(text::texts(r@) =~= all.take(0).filter(f));
    }
    while i < names.len()
        invariant
            i <= names@.len(),
            all == text::texts(names@),
            f == missing_from(settings::program_list(others@)),
            text::texts(r@) == all.take(i as int).filter(f),
        decreases names@.len() - i,
    {
        let ghost before = r@;
        proof {
            assert(all[i as int] == names@[i as int]@);
            lemma_filter_step(all, i as int, f);
        }
        if !holds_group(others, names[i].as_str()) {
            r.push(names[i].clone());
            proof {
                assert(text::texts(r@) =~= text::texts(before).push(all[i as int]));
            }
        }
        i = i + 1;
    }
    proof {
        assert(all.take(i as int) =~= all);
    }
    r
}

/// The groups of `fresh` that `running` has too, but not with the same programs.
fn groups_changed(running: &Vec<ProgramConfig>, fresh: &Vec<ProgramConfig>) -> (r: Vec<String>)
    ensures
        text::texts(r@) == group_names(settings::program_list(fresh@)).filter(
            differs_in(settings::program_list(running@), settings::program_list(fresh@)),
        ),
{
    let names = groups(fresh);
    let ghost all = text::texts(names@);
    let ghost f = differs_in(settings::program_list(running@), settings::program_list(fresh@));
    let mut r: Vec<String> = Vec::new();
    let mut i: usize = 0;
    proof {
        lemma_filter_empty(all.take(0), f);
        assert(text::texts(r@) =~= all.take(0).filter(f));
    }
    while i < names.len()
        invariant
            i <= names@.len(),
            all == text::texts(names@),
            f == differs_in(settings::program_list(running@), settings::program_list(fresh@)),
            text::texts(r@) == all.take(i as int).filter(f),
        decreases names@.len() - i,
    {
        let ghost before = r@;
        proof {
            assert(all[i as int] == names@[i as int]@);
            lemma_filter_step(all, i as int, f);
        }
        let name = names[i].as_str();
        if holds_group(running, name) && holds_group(fresh, name) && !same_programs(
            &group_programs(running, name),
            &group_programs(fresh, name),
        ) {
            r.push(names[i].clone());
            proof {
                assert(text::texts(r@) =~= text::texts(before).push(all[i as int]));
            }
        }
        i = i + 1;
    }
    proof {
        assert(all.take(i as int) =~= all);
    }
    r
}

/// The groups that `fresh` adds to `running`, changes in it and removes from it.
pub fn difference(running: &Config, fresh: &Config) -> (r: ConfigDiff)
    ensures
        r@ == diff_of(running@, fresh@),
{
    ConfigDiff {
        added: groups_only_in(&fresh.programs, &running.programs),
        changed: groups_changed(&running.programs, &fresh.programs),
        removed: groups_only_in(&running.programs, &fresh.programs),
    }
}

// ---------------------------------------------------------------------------
// Laws
// ---------------------------------------------------------------------------

/// The names of the groups are those of the groups that there are.
pub proof fn lemma_group_names(programs: Seq<ProgramModel>, group: Seq<char>)
    ensures
        group_names(programs).contains(group) <==> has_group(programs, group),
    decreases programs.len(),
{
    if programs.len() > 0 {
        let t = programs.drop_last();
        let g = programs.last().group;
        lemma_group_names(t, group);
        let names = group_names(programs);
        assert(has_group(programs, group) <==> has_group(t, group) || g == group) by {
            if has_group(t, group) {
                let i = choose|i: int| 0 <= i < t.len() && (#[trigger] t[i]).group == group;
                assert(programs[i].group == group);
            }
            if has_group(programs, group) && g != group {
                let i = choose|i: int|
                    0 <= i < programs.len() && (#[trigger] programs[i]).group == group;
                assert(t[i].group == group);
            }
            assert(programs[programs.len() - 1].group == g);
        }
        if !has_group(t, g) {
            let rest = group_names(t);
            assert(names == rest.push(g));
            if rest.contains(group) {
                let i = choose|i: int| 0 <= i < rest.len() && rest[i] == group;
                assert(names[i] == group);
            }
            assert(names[rest.len() as int] == g);
            if names.contains(group) && group != g {
                let i = choose|i: int| 0 <= i < names.len() && names[i] == group;
                assert(rest[i] == group);
            }
        }
    }
}

/// What a filtered list holds.
pub proof fn lemma_filter_contains<A>(s: Seq<A>, f: spec_fn(A) -> bool, x: A)
    ensures
        s.filter(f).contains(x) <==> s.contains(x) && f(x),
    decreases s.len(),
{
    reveal(Seq::filter);
    if s.len() > 0 {
        let t = s.drop_last();
        lemma_filter_contains(t, f, x);
        let kept = t.filter(f);
        let all = s.filter(f);
        assert(s.contains(x) <==> t.contains(x) || s.last() == x) by {
            if t.contains(x) {
                let i = choose|i: int| 0 <= i < t.len() && t[i] == x;
                assert(s[i] == x);
            }
            if s.contains(x) && s.last() != x {
                let i = choose|i: int| 0 <= i < s.len() && s[i] == x;
                assert(t[i] == x);
            }
            assert(s[s.len() - 1] == s.last());
        }
        if f(s.last()) {
            assert(all == kept.push(s.last()));
            if kept.contains(x) {
                let i = choose|i: int| 0 <= i < kept.len() && kept[i] == x;
                assert(all[i] == x);
            }
            assert(all[kept.len() as int] == s.last());
            if all.contains(x) && s.last() != x {
                let i = choose|i: int| 0 <= i < all.len() && all[i] == x;
                assert(kept[i] == x);
            }
        }
    }
}

/// A group is added if only the new configuration has it, removed if only the
/// running one has it, and changed if both have it with different programs.
pub proof fn law_difference(running: ConfigModel, fresh: ConfigModel, group: Seq<char>)
    ensures
        ({
            let d = diff_of(running, fresh);
            let before = has_group(running.programs, group);
            let after = has_group(fresh.programs, group);
            &&& d.added.contains(group) <==> after && !before
            &&& d.removed.contains(group) <==> before && !after
            &&& d.changed.contains(group) <==> before && after && members(
                running.programs,
                group,
            ) != members(fresh.programs, group)
        }),
{
    lemma_group_names(running.programs, group);
    lemma_group_names(fresh.programs, group);
    lemma_filter_contains(
        group_names(fresh.programs),
        missing_from(running.programs),
        group,
    );
    lemma_filter_contains(
        group_names(running.programs),
        missing_from(fresh.programs),
        group,
    );
    lemma_filter_contains(
        group_names(fresh.programs),
        differs_in(running.programs, fresh.programs),
        group,
    );
}

/// A configuration that has not changed adds, changes and removes nothing.
pub proof fn law_no_difference(c: ConfigModel)
    ensures
        diff_of(c, c) == (DiffModel {
            added: Seq::empty(),
            changed: Seq::empty(),
            removed: Seq::empty(),
        }),
{
    let d = diff_of(c, c);
    assert forall|g: Seq<char>| !d.added.contains(g) && !d.changed.contains(g)
        && !d.removed.contains(g) by {
        law_difference(c, c, g);
    }
    if d.added.len() > 0 {
        assert(d.added.contains(d.added[0]));
    }
    if d.changed.len() > 0 {
        assert(d.changed.contains(d.changed[0]));
    }
    if d.removed.len() > 0 {
        assert(d.removed.contains(d.removed[0]));
    }
    assert(d.added =~= Seq::<Seq<char>>::empty());
    assert(d.changed =~= Seq::<Seq<char>>::empty());
    assert(d.removed =~= Seq::<Seq<char>>::empty());
}

/// The groups are listed in the order in which they come up.
pub proof fn law_group_order(programs: Seq<ProgramModel>, p: ProgramModel)
    ensures
        has_group(programs, p.group) ==> group_names(programs.push(p)) == group_names(programs),
        !has_group(programs, p.group) ==> group_names(programs.push(p)) == group_names(
            programs,
        ).push(p.group),
        group_names(Seq::empty()).len() == 0,
{
    assert(programs.push(p).drop_last() =~= programs);
}

} // verus!
