//! Standard base64: decoding, for Basic credentials and for `base64` values.
use crate::text;
use vstd::prelude::*;
use vstd::utf8;

verus! {

/// The value of a base64 digit.
pub open spec fn digit_value(c: u8) -> Option<nat> {
    if 65 <= c <= 90 {
        Some((c - 65) as nat)
    } else if 97 <= c <= 122 {
        Some((c - 97 + 26) as nat)
    } else if 48 <= c <= 57 {
        Some((c - 48 + 52) as nat)
    } else if c == 43 {
        Some(62)
    } else if c == 47 {
        Some(63)
    } else {
        None
    }
}

/// Whether a byte is ASCII white space.
pub open spec fn is_space(c: u8) -> bool {
    c == 32 || c == 9 || c == 10 || c == 12 || c == 13
}

/// The bytes that are no white space.
pub open spec fn unspaced(s: Seq<u8>) -> Seq<u8>
    decreases s.len(),
{
    if s.len() == 0 {
        s
    } else {
        let rest = unspaced(s.skip(1));
        if is_space(s[0]) {
            rest
        } else {
            seq![s[0]] + rest
        }
    }
}

/// How many bytes come before the first `=`.
pub open spec fn before_padding(s: Seq<u8>) -> int
    decreases s.len(),
{
    if s.len() == 0 || s[0] == 61 {
        0
    } else {
        1 + before_padding(s.skip(1))
    }
}

/// The number that a run of base64 digits denotes.
pub open spec fn digits_number(s: Seq<u8>) -> Option<nat>
    decreases s.len(),
{
    if s.len() == 0 {
        Some(0)
    } else {
        match (digits_number(s.drop_last()), digit_value(s.last())) {
            (Some(n), Some(d)) => Some(64 * n + d),
            _ => None,
        }
    }
}

/// The bytes that a group of up to four base64 digits stands for: three for
/// four digits, two for three, one for two. What follows a `=` does not count.
pub open spec fn group_bytes(s: Seq<u8>) -> Option<Seq<u8>> {
    let k = before_padding(s);
    match digits_number(s.take(k)) {
        None => None,
        Some(n) => Some(
            if k == 4 {
                seq![(n / 65536) as u8, ((n / 256) % 256) as u8, (n % 256) as u8]
            } else if k == 3 {
                seq![(n / 1024) as u8, ((n / 4) % 256) as u8]
            } else if k == 2 {
                seq![(n / 16) as u8]
            } else {
                Seq::empty()
            },
        ),
    }
}

/// The bytes that base64 digits without white space stand for.
pub open spec fn groups_bytes(s: Seq<u8>) -> Option<Seq<u8>>
    decreases s.len(),
{
    if s.len() == 0 {
        Some(Seq::empty())
    } else {
        let n = if s.len() < 4 {
            s.len() as int
        } else {
            4
        };
        match (group_bytes(s.take(n)), groups_bytes(s.skip(n))) {
            (Some(a), Some(b)) => Some(a + b),
            _ => None,
        }
    }
}

/// The bytes that a base64 text stands for; `None` if it holds anything but
/// digits, padding and white space.
pub open spec fn decoded(s: Seq<u8>) -> Option<Seq<u8>> {
    groups_bytes(unspaced(s))
}

fn read_digit(c: u8) -> (r: Option<u32>)
    ensures
        match r {
            Some(d) => digit_value(c) == Some(d as nat) && d < 64,
            None => digit_value(c) is None,
        },
{
    if 65 <= c && c <= 90 {
        Some((c - 65) as u32)
    } else if 97 <= c && c <= 122 {
        Some((c - 97 + 26) as u32)
    } else if 48 <= c && c <= 57 {
        Some((c - 48 + 52) as u32)
    } else if c == 43 {
        Some(62)
    } else if c == 47 {
        Some(63)
    } else {
        None
    }
}

proof fn lemma_before_padding_is(s: Seq<u8>, k: int)
    requires
        0 <= k <= s.len(),
        forall|j: int| 0 <= j < k ==> #[trigger] s[j] != 61,
        k < s.len() ==> s[k] == 61,
    ensures
        before_padding(s) == k,
    decreases k,
{
    if k > 0 {
        assert(s[0] != 61);
        let t = s.skip(1);
        assert forall|j: int| 0 <= j < k - 1 implies #[trigger] t[j] != 61 by {
            assert(t[j] == s[j + 1]);
        }
        lemma_before_padding_is(t, k - 1);
    }
}

/// A run of digits with one that is none denotes no number.
proof fn lemma_bad_digit(s: Seq<u8>, i: int)
    requires
        0 <= i < s.len(),
        digit_value(s[i]) is None,
    ensures
        digits_number(s) is None,
    decreases s.len(),
{
    if i < s.len() - 1 {
        assert(s.drop_last()[i] == s[i]);
        lemma_bad_digit(s.drop_last(), i);
    }
}

/// Appends what the bytes from `from` to `to` stand for.
fn read_group(b: &Vec<u8>, from: usize, to: usize, out: &mut Vec<u8>) -> (r: bool)
    requires
        from <= to <= b@.len(),
        to - from <= 4,
    ensures
        match group_bytes(b@.subrange(from as int, to as int)) {
            Some(a) => r && final(out)@ == old(out)@ + a,
            None => !r,
        },
{
    let ghost chunk = b@.subrange(from as int, to as int);
    let ghost before = out@;
    let mut acc: u32 = 0;
    let mut k: usize = 0;
    proof {
        assert(chunk.take(0) =~= Seq::<u8>::empty());
    }
    while from + k < to && b[from + k] != 61
        invariant
            from + k <= to <= b@.len(),
            to - from <= 4,
            k <= 4,
            chunk == b@.subrange(from as int, to as int),
            forall|j: int| 0 <= j < k ==> #[trigger] chunk[j] != 61,
            digits_number(chunk.take(k as int)) == Some(acc as nat),
            k == 0 ==> acc == 0,
            k == 1 ==> acc < 64,
            k == 2 ==> acc < 4096,
            k == 3 ==> acc < 262144,
            k == 4 ==> acc < 16777216,
        decreases to - from - k,
    {
        let c: u8 = b[from + k];
        proof {
            assert(chunk[k as int] == c);
            assert(chunk.take(k as int + 1).drop_last() =~= chunk.take(k as int));
            assert(chunk.take(k as int + 1).last() == c);
        }
        match read_digit(c) {
            Some(d) => {
                acc = acc * 64 + d;
                k = k + 1;
            },
            None => {
                proof {
                    let n = before_padding(chunk);
                    lemma_bad_group(chunk, k as int);
                }
                return false;
            },
        }
    }
    proof {
        if from + k < to {
            assert(chunk[k as int] == b@[from + k]);
        }
        lemma_before_padding_is(chunk, k as int);
    }
    if k == 4 {
        out.push((acc / 65536) as u8);
        out.push(((acc / 256) % 256) as u8);
        out.push((acc % 256) as u8);
    } else if k == 3 {
        out.push((acc / 1024) as u8);
        out.push(((acc / 4) % 256) as u8);
    } else if k == 2 {
        out.push((acc / 16) as u8);
    }
    proof {
        assert(out@ =~= before + group_bytes(chunk)->0);
    }
    true
}

/// A group with a bad byte before its padding stands for nothing.
proof fn lemma_bad_group(s: Seq<u8>, i: int)
    requires
        0 <= i < s.len(),
        digit_value(s[i]) is None,
        s[i] != 61,
        forall|j: int| 0 <= j < i ==> #[trigger] s[j] != 61,
    ensures
        group_bytes(s) is None,
{
    lemma_before_padding_bound(s, i);
    let k = before_padding(s);
    assert(s.take(k)[i] == s[i]);
    lemma_bad_digit(s.take(k), i);
}

proof fn lemma_before_padding_bound(s: Seq<u8>, i: int)
    requires
        0 <= i < s.len(),
        forall|j: int| 0 <= j <= i ==> #[trigger] s[j] != 61,
    ensures
        i < before_padding(s) <= s.len(),
    decreases s.len(),
{
    assert(s[0] != 61);
    let t = s.skip(1);
    if i > 0 {
        assert forall|j: int| 0 <= j <= i - 1 implies #[trigger] t[j] != 61 by {
            assert(t[j] == s[j + 1]);
        }
        lemma_before_padding_bound(t, i - 1);
    } else {
        lemma_before_padding_range(t);
    }
}

proof fn lemma_before_padding_range(s: Seq<u8>)
    ensures
        0 <= before_padding(s) <= s.len(),
    decreases s.len(),
{
    if s.len() > 0 && s[0] != 61 {
        lemma_before_padding_range(s.skip(1));
    }
}

/// The bytes that are no white space.
fn drop_spaces(s: &[u8]) -> (r: Vec<u8>)
    ensures
        r@ == unspaced(s@),
{
    let mut r: Vec<u8> = Vec::new();
    let mut i: usize = 0;
    proof {
        assert(s@.skip(0) =~= s@);
        assert(r@ + unspaced(s@) =~= unspaced(s@));
    }
    while i < s.len()
        invariant
            i <= s@.len(),
            r@ + unspaced(s@.skip(i as int)) == unspaced(s@),
        decreases s@.len() - i,
    {
        let c: u8 = s[i];
        let ghost before = r@;
        let ghost t = s@.skip(i as int);
        proof {
            assert(t[0] == c);
            assert(t.skip(1) =~= s@.skip(i as int + 1));
        }
        if !(c == 32 || c == 9 || c == 10 || c == 12 || c == 13) {
            r.push(c);
            proof {
                let tail = unspaced(s@.skip(i as int + 1));
                assert(before + (seq![c] + tail) =~= r@ + tail);
            }
        }
        i = i + 1;
    }
    proof {
        assert(s@.skip(i as int) =~= Seq::<u8>::empty());
        assert(r@ + Seq::<u8>::empty() =~= r@);
    }
    r
}

/// Decodes standard base64, ignoring white space.
pub fn base64_decode(input: &[u8]) -> (r: Option<Vec<u8>>)
    ensures
        match r {
            Some(v) => decoded(input@) == Some(v@),
            None => decoded(input@) is None,
        },
{
    let b = drop_spaces(input);
    let mut out: Vec<u8> = Vec::new();
    let mut i: usize = 0;
    let total: usize = b.len();
    proof {
        assert(b@.skip(0) =~= b@);
        if let Some(all) = groups_bytes(b@) {
            assert(out@ + all =~= all);
        }
    }
    while i < total
        invariant
            total == b@.len(),
            i <= total,
            b@ == unspaced(input@),
            match (groups_bytes(b@), groups_bytes(b@.skip(i as int))) {
                (Some(all), Some(rest)) => all == out@ + rest,
                (None, None) => true,
                _ => false,
            },
        decreases total - i,
    {
        let n: usize = if total - i < 4 {
            total - i
        } else {
            4
        };
        let ghost t = b@.skip(i as int);
        let ghost before = out@;
        proof {
            assert(b@.subrange(i as int, i + n) =~= t.take(n as int));
            assert(t.skip(n as int) =~= b@.skip(i + n));
        }
        if !read_group(&b, i, i + n, &mut out) {
            return None;
        }
        proof {
            let a = group_bytes(t.take(n as int))->0;
            if let Some(rest) = groups_bytes(b@.skip(i + n)) {
                assert(before + (a + rest) =~= out@ + rest);
            }
        }
        i = i + n;
    }
    proof {
        assert(b@.skip(i as int) =~= Seq::<u8>::empty());
        assert(out@ + Seq::<u8>::empty() =~= out@);
    }
    Some(out)
}

// ---------------------------------------------------------------------------
// Laws
// ---------------------------------------------------------------------------

/// The base64 digit of a value.
pub open spec fn digit(v: nat) -> u8 {
    if v < 26 {
        (65 + v) as u8
    } else if v < 52 {
        (97 + v - 26) as u8
    } else if v < 62 {
        (48 + v - 52) as u8
    } else if v == 62 {
        43
    } else {
        47
    }
}

/// The standard base64 encoding of bytes.
pub open spec fn encoded(s: Seq<u8>) -> Seq<u8>
    decreases s.len(),
{
    if s.len() == 0 {
        Seq::empty()
    } else if s.len() == 1 {
        let n = (s[0] as nat) * 16;
        seq![digit(n / 64), digit(n % 64), 61u8, 61u8]
    } else if s.len() == 2 {
        let n = ((s[0] as nat) * 256 + s[1] as nat) * 4;
        seq![digit(n / 4096), digit((n / 64) % 64), digit(n % 64), 61u8]
    } else {
        let n = (s[0] as nat) * 65536 + (s[1] as nat) * 256 + s[2] as nat;
        seq![digit(n / 262144), digit((n / 4096) % 64), digit((n / 64) % 64), digit(n % 64)]
            + encoded(s.skip(3))
    }
}

proof fn lemma_digit(v: nat)
    requires
        v < 64,
    ensures
        digit_value(digit(v)) == Some(v),
        digit(v) != 61,
        !is_space(digit(v)),
{
}

proof fn lemma_two_digits(s: Seq<u8>, a: nat, b: nat)
    requires
        s.len() >= 2,
        digit_value(s[0]) == Some(a),
        digit_value(s[1]) == Some(b),
    ensures
        digits_number(s.take(2)) == Some(64 * a + b),
{
    let s1 = s.take(1);
    let s2 = s.take(2);
    assert(s1.drop_last() =~= Seq::<u8>::empty());
    assert(digits_number(Seq::<u8>::empty()) == Some(0nat));
    assert(digits_number(s1) == Some(a));
    assert(s2.drop_last() =~= s1);
}

proof fn lemma_three_digits(s: Seq<u8>, a: nat, b: nat, c: nat)
    requires
        s.len() >= 3,
        digit_value(s[0]) == Some(a),
        digit_value(s[1]) == Some(b),
        digit_value(s[2]) == Some(c),
    ensures
        digits_number(s.take(3)) == Some(64 * (64 * a + b) + c),
{
    lemma_two_digits(s, a, b);
    assert(s.take(3).drop_last() =~= s.take(2));
}

proof fn lemma_four_digits(s: Seq<u8>, a: nat, b: nat, c: nat, d: nat)
    requires
        s.len() >= 4,
        digit_value(s[0]) == Some(a),
        digit_value(s[1]) == Some(b),
        digit_value(s[2]) == Some(c),
        digit_value(s[3]) == Some(d),
    ensures
        digits_number(s.take(4)) == Some(64 * (64 * (64 * a + b) + c) + d),
{
    lemma_three_digits(s, a, b, c);
    assert(s.take(4).drop_last() =~= s.take(3));
}

/// The group of one byte.
proof fn lemma_group_of_one(x: u8)
    ensures
        ({
            let n = (x as nat) * 16;
            group_bytes(seq![digit(n / 64), digit(n % 64), 61u8, 61u8]) == Some(seq![x])
        }),
{
    let n = (x as nat) * 16;
    let e = seq![digit(n / 64), digit(n % 64), 61u8, 61u8];
    lemma_digit(n / 64);
    lemma_digit(n % 64);
    lemma_before_padding_is(e, 2);
    lemma_two_digits(e, n / 64, n % 64);
    assert(64 * (n / 64) + n % 64 == n);
    assert((n / 16) as u8 == x);
}

/// A number of three base64 digits is made up of them.
proof fn lemma_three_sextets(n: nat)
    ensures
        64 * (64 * (n / 4096) + (n / 64) % 64) + n % 64 == n,
{
    let a = n / 64;
    assert(n / 4096 == a / 64);
    assert(64 * (a / 64) + a % 64 == a);
}

/// The bytes of a number of two bytes and two bits.
proof fn lemma_two_octets(x: nat, y: nat)
    requires
        x < 256,
        y < 256,
    ensures
        ((x * 256 + y) * 4) / 1024 == x,
        (((x * 256 + y) * 4) / 4) % 256 == y,
        (x * 256 + y) * 4 < 262144,
{
    let m = x * 256 + y;
    assert((m * 4) / 4 == m);
    assert((m * 4) / 1024 == m / 256);
}

/// The group of two bytes.
proof fn lemma_group_of_two(x: u8, y: u8)
    ensures
        ({
            let n = ((x as nat) * 256 + y as nat) * 4;
            group_bytes(seq![digit(n / 4096), digit((n / 64) % 64), digit(n % 64), 61u8]) == Some(
                seq![x, y],
            )
        }),
{
    let n = ((x as nat) * 256 + y as nat) * 4;
    let e = seq![digit(n / 4096), digit((n / 64) % 64), digit(n % 64), 61u8];
    lemma_digit(n / 4096);
    lemma_digit((n / 64) % 64);
    lemma_digit(n % 64);
    lemma_before_padding_is(e, 3);
    lemma_three_digits(e, n / 4096, (n / 64) % 64, n % 64);
    lemma_three_sextets(n);
    lemma_two_octets(x as nat, y as nat);
}

/// A number of three bytes is made up of its four base64 digits.
proof fn lemma_sextets(n: nat)
    ensures
        64 * (64 * (64 * (n / 262144) + (n / 4096) % 64) + (n / 64) % 64) + n % 64 == n,
{
    let a = n / 64;
    let b = a / 64;
    assert(n / 4096 == b);
    assert(n / 262144 == b / 64);
    assert(64 * (b / 64) + b % 64 == b);
    assert(64 * b + a % 64 == a);
}

/// The bytes of a number of three bytes.
proof fn lemma_octets(x: nat, y: nat, z: nat)
    requires
        x < 256,
        y < 256,
        z < 256,
    ensures
        (x * 65536 + y * 256 + z) / 65536 == x,
        ((x * 65536 + y * 256 + z) / 256) % 256 == y,
        (x * 65536 + y * 256 + z) % 256 == z,
{
    let n = x * 65536 + y * 256 + z;
    assert(n / 256 == x * 256 + y);
}

/// The group of three bytes.
proof fn lemma_group_of_three(x: u8, y: u8, z: u8)
    ensures
        ({
            let n = (x as nat) * 65536 + (y as nat) * 256 + z as nat;
            group_bytes(
                seq![digit(n / 262144), digit((n / 4096) % 64), digit((n / 64) % 64), digit(n % 64)],
            ) == Some(seq![x, y, z])
        }),
{
    let n = (x as nat) * 65536 + (y as nat) * 256 + z as nat;
    let e = seq![digit(n / 262144), digit((n / 4096) % 64), digit((n / 64) % 64), digit(n % 64)];
    lemma_digit(n / 262144);
    lemma_digit((n / 4096) % 64);
    lemma_digit((n / 64) % 64);
    lemma_digit(n % 64);
    lemma_before_padding_is(e, 4);
    lemma_four_digits(e, n / 262144, (n / 4096) % 64, (n / 64) % 64, n % 64);
    lemma_sextets(n);
    lemma_octets(x as nat, y as nat, z as nat);
}

/// Encoded bytes hold no white space.
proof fn lemma_encoded_unspaced(s: Seq<u8>)
    ensures
        unspaced(encoded(s)) == encoded(s),
    decreases s.len(),
{
    let e = encoded(s);
    if s.len() >= 3 {
        let n = (s[0] as nat) * 65536 + (s[1] as nat) * 256 + s[2] as nat;
        lemma_digit(n / 262144);
        lemma_digit((n / 4096) % 64);
        lemma_digit((n / 64) % 64);
        lemma_digit(n % 64);
        lemma_encoded_unspaced(s.skip(3));
        lemma_unspaced_front(e, 4);
        assert(e.skip(4) =~= encoded(s.skip(3)));
        assert(e.take(4) + e.skip(4) =~= e);
    } else if s.len() == 2 {
        let n = ((s[0] as nat) * 256 + s[1] as nat) * 4;
        lemma_digit(n / 4096);
        lemma_digit((n / 64) % 64);
        lemma_digit(n % 64);
        lemma_unspaced_front(e, 4);
        assert(e.skip(4) =~= Seq::<u8>::empty());
        assert(e.take(4) + Seq::<u8>::empty() =~= e);
    } else if s.len() == 1 {
        let n = (s[0] as nat) * 16;
        lemma_digit(n / 64);
        lemma_digit(n % 64);
        lemma_unspaced_front(e, 4);
        assert(e.skip(4) =~= Seq::<u8>::empty());
        assert(e.take(4) + Seq::<u8>::empty() =~= e);
    }
}

proof fn lemma_unspaced_front(s: Seq<u8>, n: int)
    requires
        0 <= n <= s.len(),
        forall|i: int| 0 <= i < n ==> !is_space(#[trigger] s[i]),
    ensures
        unspaced(s) == s.take(n) + unspaced(s.skip(n)),
    decreases n,
{
    if n == 0 {
        assert(s.skip(0) =~= s);
        assert(s.take(0) + unspaced(s) =~= unspaced(s));
    } else {
        let t = s.skip(1);
        assert(!is_space(s[0]));
        assert forall|i: int| 0 <= i < n - 1 implies !is_space(#[trigger] t[i]) by {
            assert(t[i] == s[i + 1]);
        }
        lemma_unspaced_front(t, n - 1);
        assert(t.skip(n - 1) =~= s.skip(n));
        assert(seq![s[0]] + (t.take(n - 1) + unspaced(s.skip(n))) =~= s.take(n) + unspaced(
            s.skip(n),
        ));
    }
}

/// Decoding the standard base64 encoding of bytes gives the bytes back.
pub proof fn law_base64_round_trip(s: Seq<u8>)
    ensures
        decoded(encoded(s)) == Some(s),
    decreases s.len(),
{
    lemma_encoded_unspaced(s);
    lemma_groups_round_trip(s);
}

proof fn lemma_groups_round_trip(s: Seq<u8>)
    ensures
        groups_bytes(encoded(s)) == Some(s),
    decreases s.len(),
{
    let e = encoded(s);
    let empty = Seq::<u8>::empty();
    assert(groups_bytes(empty) == Some(empty));
    if s.len() == 0 {
        assert(s =~= empty);
    } else if s.len() == 1 {
        lemma_group_of_one(s[0]);
        assert(e.take(4) =~= e);
        assert(e.skip(4) =~= empty);
        assert(seq![s[0]] + empty =~= s);
    } else if s.len() == 2 {
        lemma_group_of_two(s[0], s[1]);
        assert(e.take(4) =~= e);
        assert(e.skip(4) =~= empty);
        assert(seq![s[0], s[1]] + empty =~= s);
    } else {
        let n = (s[0] as nat) * 65536 + (s[1] as nat) * 256 + s[2] as nat;
        let g = seq![digit(n / 262144), digit((n / 4096) % 64), digit((n / 64) % 64), digit(n % 64)];
        lemma_group_of_three(s[0], s[1], s[2]);
        assert(e.take(4) =~= g);
        assert(e.skip(4) =~= encoded(s.skip(3)));
        lemma_groups_round_trip(s.skip(3));
        assert(seq![s[0], s[1], s[2]] + s.skip(3) =~= s);
    }
}

/// The text of base64 digits.
pub open spec fn digits_text(s: Seq<u8>) -> Seq<char> {
    s.map_values(|b: u8| b as char)
}

/// Base64 digits and padding are printable ASCII and no white space.
proof fn lemma_encoded_chars(s: Seq<u8>)
    ensures
        forall|i: int|
            0 <= i < encoded(s).len() ==> 33 <= #[trigger] encoded(s)[i] <= 122,
        s.len() > 0 ==> encoded(s).len() > 0,
    decreases s.len(),
{
    if s.len() >= 3 {
        lemma_encoded_chars(s.skip(3));
        let e = encoded(s);
        let rest = encoded(s.skip(3));
        assert forall|i: int| 0 <= i < e.len() implies 33 <= #[trigger] e[i] <= 122 by {
            if i >= 4 {
                assert(e[i] == rest[i - 4]);
            }
        }
    }
}

/// The text of encoded bytes is ASCII without white space, and its own
/// encoding is the digits.
pub proof fn lemma_digits_text(raw: Seq<u8>)
    ensures
        utf8::encode_utf8(digits_text(encoded(raw))) == encoded(raw),
        forall|i: int|
            0 <= i < encoded(raw).len() ==> !text::is_white(
                #[trigger] digits_text(encoded(raw))[i],
            ),
        raw.len() > 0 ==> encoded(raw).len() > 0,
{
    let e = encoded(raw);
    let t = digits_text(e);
    lemma_encoded_chars(raw);
    assert forall|i: int| 0 <= i < t.len() implies !text::is_white(#[trigger] t[i]) && '!' <= t[i]
        <= 'z' by {
        assert(33 <= e[i] <= 122);
        assert(t[i] == e[i] as char);
    }
    assert(utf8::is_ascii_chars(t)) by {
        assert forall|i: int| 0 <= i < t.len() implies '\0' <= #[trigger] t[i] <= '\u{7f}' by {
            assert('!' <= t[i] <= 'z');
        }
    }
    utf8::is_ascii_chars_encode_utf8(t);
    assert(utf8::encode_utf8(t) =~= e) by {
        assert forall|i: int| 0 <= i < t.len() implies utf8::encode_utf8(t)[i] == e[i] by {
            assert(t[i] as u8 == utf8::encode_utf8(t)[i]);
            assert(t[i] == e[i] as char);
        }
    }
}

/// White space does not count, wherever it stands.
pub proof fn law_white_space_is_ignored(a: Seq<u8>, b: Seq<u8>, c: u8)
    requires
        c == 32 || c == 9 || c == 10 || c == 13,
    ensures
        decoded(a + seq![c] + b) == decoded(a + b),
{
    lemma_unspaced_concat(a + seq![c], b);
    lemma_unspaced_concat(a, seq![c]);
    lemma_unspaced_concat(a, b);
    assert(seq![c].skip(1) =~= Seq::<u8>::empty());
    assert(seq![c][0] == c);
    assert(unspaced(Seq::<u8>::empty()) == Seq::<u8>::empty());
    assert(unspaced(seq![c]) == unspaced(seq![c].skip(1)));
    assert(unspaced(a + seq![c] + b) =~= unspaced(a + b));
}

proof fn lemma_unspaced_concat(a: Seq<u8>, b: Seq<u8>)
    ensures
        unspaced(a + b) == unspaced(a) + unspaced(b),
    decreases a.len(),
{
    if a.len() == 0 {
        assert(a + b =~= b);
        assert(unspaced(a) + unspaced(b) =~= unspaced(b));
    } else {
        lemma_unspaced_concat(a.skip(1), b);
        assert((a + b)[0] == a[0]);
        assert((a + b).skip(1) =~= a.skip(1) + b);
        assert(unspaced(a + b) =~= unspaced(a) + unspaced(b));
    }
}

} // verus!
