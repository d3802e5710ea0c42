//! File name patterns: `*` stands for any run of characters, `?` for one.
use crate::text;
use vstd::prelude::*;

verus! {

/// Whether the pattern `p` covers the whole name `n`.
pub open spec fn covers(p: Seq<char>, n: Seq<char>) -> bool
    decreases p.len() + n.len(),
{
    if p.len() == 0 {
        n.len() == 0
    } else if p[0] == '*' {
        covers(p.skip(1), n) || (n.len() > 0 && covers(p, n.skip(1)))
    } else {
        n.len() > 0 && (p[0] == '?' || p[0] == n[0]) && covers(p.skip(1), n.skip(1))
    }
}

/// Whether the first `len` characters of `p` are no stars and match those of `n` one by one.
spec fn step_by_step(p: Seq<char>, n: Seq<char>, len: int) -> bool {
    &&& 0 <= len <= p.len()
    &&& len <= n.len()
    &&& forall|i: int| 0 <= i < len ==> #[trigger] p[i] != '*' && (p[i] == '?' || p[i] == n[i])
}

/// Whether the first `len` characters of `p` are no stars.
spec fn starless(p: Seq<char>, len: int) -> bool {
    &&& 0 <= len <= p.len()
    &&& forall|i: int| 0 <= i < len ==> #[trigger] p[i] != '*'
}

/// A matching stretch without stars can be taken off both sides.
proof fn lemma_take_off(p: Seq<char>, n: Seq<char>, len: int)
    requires
        step_by_step(p, n, len),
    ensures
        covers(p, n) == covers(p.skip(len), n.skip(len)),
    decreases len,
{
    if len == 0 {
        assert(p.skip(0) =~= p);
        assert(n.skip(0) =~= n);
    } else {
        assert(p[0] != '*');
        assert forall|i: int| 0 <= i < len - 1 implies #[trigger] p.skip(1)[i] != '*' && (p.skip(
            1,
        )[i] == '?' || p.skip(1)[i] == n.skip(1)[i]) by {
            assert(p.skip(1)[i] == p[i + 1]);
            assert(n.skip(1)[i] == n[i + 1]);
        }
        lemma_take_off(p.skip(1), n.skip(1), len - 1);
        assert(p.skip(1).skip(len - 1) =~= p.skip(len));
        assert(n.skip(1).skip(len - 1) =~= n.skip(len));
    }
}

/// A pattern that begins without stars covers a name only if it matches the
/// name's beginning, and its rest covers the name's rest.
proof fn lemma_starless_prefix(p: Seq<char>, n: Seq<char>, len: int)
    requires
        starless(p, len),
        covers(p, n),
    ensures
        len <= n.len(),
        covers(p.skip(len), n.skip(len)),
    decreases len,
{
    if len == 0 {
        assert(p.skip(0) =~= p);
        assert(n.skip(0) =~= n);
    } else {
        assert(p[0] != '*');
        assert forall|i: int| 0 <= i < len - 1 implies #[trigger] p.skip(1)[i] != '*' by {
            assert(p.skip(1)[i] == p[i + 1]);
        }
        lemma_starless_prefix(p.skip(1), n.skip(1), len - 1);
        assert(p.skip(1).skip(len - 1) =~= p.skip(len));
        assert(n.skip(1).skip(len - 1) =~= n.skip(len));
    }
}

/// A star covers whatever comes before a covered rest.
proof fn lemma_star_absorbs(p: Seq<char>, n: Seq<char>, from: int)
    requires
        p.len() > 0,
        p[0] == '*',
        0 <= from <= n.len(),
        covers(p, n.skip(from)),
    ensures
        covers(p, n),
    decreases from,
{
    if from == 0 {
        assert(n.skip(0) =~= n);
    } else {
        assert(n.skip(1).skip(from - 1) =~= n.skip(from));
        lemma_star_absorbs(p, n.skip(1), from - 1);
    }
}

/// A star covers a name just if what follows the star covers some end of the name.
proof fn lemma_star(p: Seq<char>, n: Seq<char>)
    requires
        p.len() > 0,
        p[0] == '*',
    ensures
        covers(p, n) == exists|k: int|
            0 <= k <= n.len() && #[trigger] covers(p.skip(1), n.skip(k)),
    decreases n.len(),
{
    assert(n.skip(0) =~= n);
    assert(covers(p.skip(1), n) == covers(p.skip(1), n.skip(0)));
    if n.len() > 0 {
        lemma_star(p, n.skip(1));
        if covers(p, n.skip(1)) {
            let k = choose|k: int|
                0 <= k <= n.skip(1).len() && #[trigger] covers(p.skip(1), n.skip(1).skip(k));
            assert(n.skip(1).skip(k) =~= n.skip(k + 1));
            assert(covers(p.skip(1), n.skip(k + 1)));
        }
        if exists|k: int| 0 <= k <= n.len() && #[trigger] covers(p.skip(1), n.skip(k)) {
            let k = choose|k: int| 0 <= k <= n.len() && #[trigger] covers(p.skip(1), n.skip(k));
            if k > 0 {
                assert(n.skip(1).skip(k - 1) =~= n.skip(k));
                assert(covers(p.skip(1), n.skip(1).skip(k - 1)));
            }
        }
    }
}

/// Whether the pattern from `from` on covers some end of the name that starts at `mark` or later.
spec fn some_end(p: Seq<char>, n: Seq<char>, from: int, mark: int) -> bool {
    exists|k: int| mark <= k <= n.len() && #[trigger] covers(p.skip(from), n.skip(k))
}

/// What the search for a match knows: the answer hangs on the rest of the
/// pattern and of the name, and on the ends of the name that the last star has
/// not tried yet.
spec fn search_state(
    p: Seq<char>,
    n: Seq<char>,
    pi: int,
    ni: int,
    star: Option<usize>,
    mark: int,
) -> bool {
    &&& 0 <= pi <= p.len()
    &&& 0 <= ni <= n.len()
    &&& match star {
        None => covers(p, n) == covers(p.skip(pi), n.skip(ni)),
        Some(s) => {
            &&& s < pi
            &&& 0 <= mark <= ni
            &&& ni - mark == pi - (s + 1)
            &&& step_by_step(p.skip(s + 1), n.skip(mark), pi - (s + 1))
            &&& covers(p, n) == some_end(p, n, s + 1, mark)
        },
    }
}

/// The last star's first choice, followed so far.
proof fn lemma_first_choice(p: Seq<char>, n: Seq<char>, pi: int, ni: int, s: usize, mark: int)
    requires
        search_state(p, n, pi, ni, Some(s), mark),
    ensures
        covers(p.skip(s + 1), n.skip(mark)) == covers(p.skip(pi), n.skip(ni)),
{
    lemma_take_off(p.skip(s + 1), n.skip(mark), pi - (s + 1));
    assert(p.skip(s + 1).skip(pi - (s + 1)) =~= p.skip(pi));
    assert(n.skip(mark).skip(ni - mark) =~= n.skip(ni));
}

/// One more character matches.
proof fn lemma_advance(
    p: Seq<char>,
    n: Seq<char>,
    pi: int,
    ni: int,
    star: Option<usize>,
    mark: int,
)
    requires
        search_state(p, n, pi, ni, star, mark),
        pi < p.len(),
        ni < n.len(),
        p[pi] != '*',
        p[pi] == '?' || p[pi] == n[ni],
    ensures
        search_state(p, n, pi + 1, ni + 1, star, mark),
{
    assert(p.skip(pi).skip(1) =~= p.skip(pi + 1));
    assert(n.skip(ni).skip(1) =~= n.skip(ni + 1));
    assert(p.skip(pi)[0] == p[pi]);
    assert(n.skip(ni)[0] == n[ni]);
    if let Some(s) = star {
        let a = p.skip(s + 1);
        let b = n.skip(mark);
        let len = pi - (s + 1);
        assert(a[len] == p[pi]);
        assert(b[len] == n[ni]);
        assert(step_by_step(a, b, len + 1));
    }
}

/// A new star replaces the last one.
proof fn lemma_new_star(
    p: Seq<char>,
    n: Seq<char>,
    pi: int,
    ni: int,
    star: Option<usize>,
    mark: int,
)
    requires
        search_state(p, n, pi, ni, star, mark),
        pi < p.len() <= usize::MAX,
        p[pi] == '*',
    ensures
        search_state(p, n, pi + 1, ni, Some(pi as usize), ni),
{
    let q = p.skip(pi);
    assert(q[0] == '*');
    // The answer is whether the rest of the pattern covers the rest of the name.
    assert(covers(p, n) == covers(q, n.skip(ni))) by {
        if let Some(s) = star {
            lemma_first_choice(p, n, pi, ni, s, mark);
            let len = pi - (s + 1);
            let a = p.skip(s + 1);
            if covers(q, n.skip(ni)) {
                assert(covers(a, n.skip(mark)));
            }
            if covers(p, n) {
                let k = choose|k: int|
                    mark <= k <= n.len() && #[trigger] covers(p.skip(s + 1), n.skip(k));
                lemma_starless_prefix(a, n.skip(k), len);
                assert(a.skip(len) =~= q);
                let m = n.skip(ni);
                assert(n.skip(k).skip(len) =~= m.skip(k + len - ni));
                lemma_star_absorbs(q, m, k + len - ni);
            }
        }
    }
    // That is whether what follows the star covers some end of the rest.
    lemma_star(q, n.skip(ni));
    assert(q.skip(1) =~= p.skip(pi + 1));
    if covers(p, n) {
        let k = choose|k: int|
            0 <= k <= n.skip(ni).len() && #[trigger] covers(q.skip(1), n.skip(ni).skip(k));
        assert(n.skip(ni).skip(k) =~= n.skip(ni + k));
        assert(covers(p.skip(pi + 1), n.skip(ni + k)));
    }
    if some_end(p, n, pi + 1, ni) {
        let k = choose|k: int| ni <= k <= n.len() && #[trigger] covers(p.skip(pi + 1), n.skip(k));
        assert(n.skip(ni).skip(k - ni) =~= n.skip(k));
        assert(covers(q.skip(1), n.skip(ni).skip(k - ni)));
    }
}

/// The last star covers one character more.
proof fn lemma_backtrack(p: Seq<char>, n: Seq<char>, pi: int, ni: int, s: usize, mark: int)
    requires
        search_state(p, n, pi, ni, Some(s), mark),
        ni < n.len(),
        !covers(p.skip(pi), n.skip(ni)),
    ensures
        search_state(p, n, s + 1, mark + 1, Some(s), mark + 1),
{
    lemma_first_choice(p, n, pi, ni, s, mark);
    if some_end(p, n, s + 1, mark) {
        let k = choose|k: int| mark <= k <= n.len() && #[trigger] covers(p.skip(s + 1), n.skip(k));
        assert(k != mark);
        assert(some_end(p, n, s + 1, mark + 1));
    }
}

/// At the end of the name the rest of the pattern decides.
proof fn lemma_at_end(p: Seq<char>, n: Seq<char>, pi: int, star: Option<usize>, mark: int)
    requires
        search_state(p, n, pi, n.len() as int, star, mark),
    ensures
        covers(p, n) == covers(p.skip(pi), Seq::<char>::empty()),
{
    let e = n.len() as int;
    assert(n.skip(e) =~= Seq::<char>::empty());
    if let Some(s) = star {
        lemma_first_choice(p, n, pi, e, s, mark);
        if covers(p, n) {
            let k = choose|k: int|
                mark <= k <= n.len() && #[trigger] covers(p.skip(s + 1), n.skip(k));
            lemma_starless_prefix(p.skip(s + 1), n.skip(k), pi - (s + 1));
            assert(k == mark);
        }
    }
}

/// Matches a file name against a pattern with `*` (any run) and `?` (one character).
pub fn glob_match(pattern: &str, name: &str) -> (r: bool)
    ensures
        r == covers(pattern@, name@),
{
    let p = text::chars_of(pattern);
    let n = text::chars_of(name);
    let mut pi: usize = 0;
    let mut ni: usize = 0;
    let mut star: Option<usize> = None;
    let mut mark: usize = 0;
    proof {
        assert(p@.skip(0) =~= p@);
        assert(n@.skip(0) =~= n@);
    }
    let pl: usize = p.len();
    while ni < n.len()
        invariant
            pl == p@.len(),
            p@ == pattern@,
            n@ == name@,
            mark <= ni <= n@.len(),
            pi <= pl,
            search_state(p@, n@, pi as int, ni as int, star, mark as int),
        decreases n@.len() - mark, n@.len() + p@.len() - ni - pi,
    {
        if pi < pl && p[pi] == '*' {
            proof {
                lemma_new_star(p@, n@, pi as int, ni as int, star, mark as int);
            }
            star = Some(pi);
            mark = ni;
            pi = pi + 1;
        } else if pi < pl && (p[pi] == '?' || p[pi] == n[ni]) {
            proof {
                lemma_advance(p@, n@, pi as int, ni as int, star, mark as int);
            }
            pi = pi + 1;
            ni = ni + 1;
        } else if let Some(s) = star {
            proof {
                if pi < p@.len() {
                    assert(p@.skip(pi as int)[0] == p@[pi as int]);
                    assert(n@.skip(ni as int)[0] == n@[ni as int]);
                }
                lemma_backtrack(p@, n@, pi as int, ni as int, s, mark as int);
            }
            pi = s + 1;
            mark = mark + 1;
            ni = mark;
        } else {
            proof {
                if pi < p@.len() {
                    assert(p@.skip(pi as int)[0] == p@[pi as int]);
                    assert(n@.skip(ni as int)[0] == n@[ni as int]);
                }
            }
            return false;
        }
    }
    proof {
        lemma_at_end(p@, n@, pi as int, star, mark as int);
    }
    while pi < p.len() && p[pi] == '*'
        invariant
            p@ == pattern@,
            pi <= p@.len(),
            covers(pattern@, name@) == covers(p@.skip(pi as int), Seq::<char>::empty()),
        decreases p@.len() - pi,
    {
        proof {
            assert(p@.skip(pi as int)[0] == '*');
            assert(p@.skip(pi as int).skip(1) =~= p@.skip(pi as int + 1));
        }
        pi = pi + 1;
    }
    proof {
        if pi < p@.len() {
            assert(p@.skip(pi as int)[0] == p@[pi as int]);
        }
    }
    pi == p.len()
}

// ---------------------------------------------------------------------------
// Selecting files
// ---------------------------------------------------------------------------

/// Whether `a` comes before `b` in the order of their characters, or equals it.
pub open spec fn in_order(a: Seq<char>, b: Seq<char>) -> bool
    decreases a.len(),
{
    if a.len() == 0 {
        true
    } else if b.len() == 0 {
        false
    } else if a[0] == b[0] {
        in_order(a.skip(1), b.skip(1))
    } else {
        a[0] < b[0]
    }
}

/// Of two texts, one comes before the other.
proof fn lemma_order_is_total(a: Seq<char>, b: Seq<char>)
    ensures
        in_order(a, b) || in_order(b, a),
    decreases a.len(),
{
    if a.len() > 0 && b.len() > 0 && a[0] == b[0] {
        lemma_order_is_total(a.skip(1), b.skip(1));
    }
}

/// What comes before something that comes before a third comes before that.
proof fn lemma_order_is_transitive(a: Seq<char>, b: Seq<char>, c: Seq<char>)
    requires
        in_order(a, b),
        in_order(b, c),
    ensures
        in_order(a, c),
    decreases a.len(),
{
    if a.len() > 0 && b.len() > 0 && c.len() > 0 && a[0] == b[0] && b[0] == c[0] {
        lemma_order_is_transitive(a.skip(1), b.skip(1), c.skip(1));
    }
}

/// Whether `a` comes before `b` in the order of their characters, or equals it.
fn ordered(a: &[char], b: &[char]) -> (r: bool)
    ensures
        r == in_order(a@, b@),
{
    let mut i: usize = 0;
    proof {
        assert(a@.skip(0) =~= a@);
        assert(b@.skip(0) =~= b@);
    }
    while i < a.len() && i < b.len() && a[i] == b[i]
        invariant
            i <= a@.len(),
            i <= b@.len(),
            in_order(a@, b@) == in_order(a@.skip(i as int), b@.skip(i as int)),
        decreases a@.len() - i,
    {
        proof {
            assert(a@.skip(i as int)[0] == a@[i as int]);
            assert(b@.skip(i as int)[0] == b@[i as int]);
            assert(a@.skip(i as int).skip(1) =~= a@.skip(i as int + 1));
            assert(b@.skip(i as int).skip(1) =~= b@.skip(i as int + 1));
        }
        i = i + 1;
    }
    if i >= a.len() {
        true
    } else if i >= b.len() {
        false
    } else {
        proof {
            assert(a@.skip(i as int)[0] == a@[i as int]);
            assert(b@.skip(i as int)[0] == b@[i as int]);
        }
        a[i] < b[i]
    }
}

/// Whether `picked` lists, each once and in the order of their names, the
/// positions of those of the first `n` names that a pattern covers.
pub open spec fn is_selection(
    picked: Seq<usize>,
    pattern: Seq<char>,
    names: Seq<Seq<char>>,
    n: int,
) -> bool {
    &&& picked.no_duplicates()
    &&& forall|k: int|
        0 <= k < picked.len() ==> (#[trigger] picked[k]) < n && covers(pattern, names[picked[k] as int])
    &&& forall|i: usize|
        i < n && covers(pattern, #[trigger] names[i as int]) ==> picked.contains(i)
    &&& forall|j: int, k: int|
        0 <= j < k < picked.len() ==> in_order(
            names[#[trigger] picked[j] as int],
            names[#[trigger] picked[k] as int],
        )
}

/// The positions of the names that a pattern covers, in the order of the names.
pub fn select(pattern: &str, names: &Vec<String>) -> (r: Vec<usize>)
    ensures
        is_selection(r@, pattern@, text::texts(names@), names@.len() as int),
{
    let ghost all = text::texts(names@);
    let mut r: Vec<usize> = Vec::new();
    let mut i: usize = 0;
    while i < names.len()
        invariant
            i <= names@.len(),
            all == text::texts(names@),
            is_selection(r@, pattern@, all, i as int),
        decreases names@.len() - i,
    {
        if glob_match(pattern, names[i].as_str()) {
            let name = text::chars_of(names[i].as_str());
            let mut at: usize = 0;
            let mut searching = true;
            while at < r.len() && searching
                invariant
                    i < names@.len(),
                    at <= r@.len(),
                    all == text::texts(names@),
                    name@ == all[i as int],
                    is_selection(r@, pattern@, all, i as int),
                    forall|k: int| 0 <= k < at ==> in_order(all[#[trigger] r@[k] as int], name@),
                    !searching ==> at < r@.len() && in_order(name@, all[r@[at as int] as int]),
                decreases r@.len() - at + (if searching {
                        1int
                    } else {
                        0int
                    }),
            {
                let other = text::chars_of(names[r[at]].as_str());
                if ordered(other.as_slice(), name.as_slice()) {
                    at = at + 1;
                } else {
                    proof {
                        lemma_order_is_total(other@, name@);
                    }
                    searching = false;
                }
            }
            let ghost before = r@;
            r.insert(at, i);
            proof {
                assert forall|k: int| at <= k < before.len() implies in_order(
                    name@,
                    all[#[trigger] before[k] as int],
                ) by {
                    if k > at {
                        lemma_order_is_transitive(
                            name@,
                            all[before[at as int] as int],
                            all[before[k] as int],
                        );
                    }
                }
                lemma_inserted(before, r@, pattern@, all, i, at as int);
            }
        }
        i = i + 1;
    }
    r
}

/// A selection with one more position, put where its name belongs.
proof fn lemma_inserted(
    before: Seq<usize>,
    after: Seq<usize>,
    pattern: Seq<char>,
    names: Seq<Seq<char>>,
    i: usize,
    at: int,
)
    requires
        is_selection(before, pattern, names, i as int),
        i < names.len(),
        covers(pattern, names[i as int]),
        0 <= at <= before.len(),
        after == before.insert(at, i),
        forall|k: int| 0 <= k < at ==> in_order(names[#[trigger] before[k] as int], names[i as int]),
        forall|k: int|
            at <= k < before.len() ==> in_order(names[i as int], names[#[trigger] before[k] as int]),
    ensures
        is_selection(after, pattern, names, i + 1),
{
    assert forall|k: int| 0 <= k < after.len() implies (#[trigger] after[k]) == (if k < at {
        before[k]
    } else if k == at {
        i
    } else {
        before[k - 1]
    }) by {}
    assert forall|x: usize| x < i + 1 && covers(pattern, #[trigger] names[x as int]) implies
        after.contains(x) by {
        if x == i {
            assert(after[at] == i);
        } else {
            let k = before.index_of(x);
            assert(before.contains(x));
            assert(before[k] == x);
            if k < at {
                assert(after[k] == x);
            } else {
                assert(after[k + 1] == x);
            }
        }
    }
}

/// A star stands for any text, a question mark for any one character, and every
/// other character for itself.
pub proof fn law_wildcards(c: char, d: char, p: Seq<char>, n: Seq<char>)
    requires
        c != '*' && c != '?',
    ensures
        covers(seq!['*'], n),
        covers(seq!['*'] + p, d_before(d, n)) <==> covers(p, d_before(d, n)) || covers(
            seq!['*'] + p,
            n,
        ),
        covers(seq!['?'] + p, d_before(d, n)) <==> covers(p, n),
        covers(seq![c] + p, d_before(d, n)) <==> c == d && covers(p, n),
        !covers(seq!['?'] + p, Seq::empty()),
        !covers(seq![c] + p, Seq::empty()),
        covers(Seq::empty(), n) <==> n.len() == 0,
{
    lemma_star_covers_all(n);
    let m = d_before(d, n);
    assert(m.skip(1) =~= n);
    assert((seq!['*'] + p).skip(1) =~= p);
    assert((seq!['?'] + p).skip(1) =~= p);
    assert((seq![c] + p).skip(1) =~= p);
}

/// A text with one more character in front.
pub open spec fn d_before(d: char, n: Seq<char>) -> Seq<char> {
    seq![d] + n
}

proof fn lemma_star_covers_all(n: Seq<char>)
    ensures
        covers(seq!['*'], n),
    decreases n.len(),
{
    let p = seq!['*'];
    assert(p.skip(1) =~= Seq::<char>::empty());
    if n.len() > 0 {
        lemma_star_covers_all(n.skip(1));
    } else {
        assert(covers(p.skip(1), n));
    }
}

/// A name without wildcards covers itself and nothing else.
pub proof fn law_plain_names(p: Seq<char>, n: Seq<char>)
    requires
        forall|i: int| 0 <= i < p.len() ==> #[trigger] p[i] != '*' && p[i] != '?',
    ensures
        covers(p, n) <==> p == n,
    decreases p.len(),
{
    if p.len() > 0 {
        assert(p[0] != '*' && p[0] != '?');
        let q = p.skip(1);
        assert forall|i: int| 0 <= i < q.len() implies #[trigger] q[i] != '*' && q[i] != '?' by {
            assert(q[i] == p[i + 1]);
        }
        law_plain_names(q, n.skip(1));
        if n.len() > 0 && p[0] == n[0] && q == n.skip(1) {
            assert(p =~= seq![p[0]] + q);
            assert(n =~= seq![n[0]] + n.skip(1));
        }
    } else if n.len() == 0 {
        assert(p =~= n);
    }
}

} // verus!
