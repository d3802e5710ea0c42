//! Numbers as text: decimal formatting, zero padding and parsing.
use crate::text::string_of;
use vstd::prelude::*;

verus! {

// ---------------------------------------------------------------------------
// Formatting
// ---------------------------------------------------------------------------

/// The character of a decimal digit.
pub open spec fn digit_char(d: nat) -> char {
    (48 + d) as char
}

/// The decimal text of a natural number.
pub open spec fn nat_text(n: nat) -> Seq<char>
    decreases n,
{
    if n < 10 {
        seq![digit_char(n)]
    } else {
        nat_text(n / 10).push(digit_char(n % 10))
    }
}

/// The decimal text of an integer.
pub open spec fn int_text(n: int) -> Seq<char> {
    if n < 0 {
        seq!['-'] + nat_text((-n) as nat)
    } else {
        nat_text(n as nat)
    }
}

/// `s` with zeros in front to make it at least `width` long.
pub open spec fn zero_padded(s: Seq<char>, width: nat) -> Seq<char> {
    if s.len() >= width {
        s
    } else {
        Seq::new((width - s.len()) as nat, |i: int| '0') + s
    }
}

/// The decimal digits of `n`.
pub fn nat_chars(n: u64) -> (r: Vec<char>)
    ensures
        r@ == nat_text(n as nat),
    decreases n,
{
    if n < 10 {
        let mut r: Vec<char> = Vec::new();
        r.push(((n as u8) + 48) as char);
        proof {
            assert(r@ =~= nat_text(n as nat));
        }
        r
    } else {
        let mut r = nat_chars(n / 10);
        let d: u64 = n % 10;
        r.push(((d as u8) + 48) as char);
        r
    }
}

/// The decimal digits of `n`, with a sign when it is negative.
pub fn int_chars(n: i64) -> (r: Vec<char>)
    ensures
        r@ == int_text(n as int),
{
    if n < 0 {
        let magnitude: u64 = if n == i64::MIN { 0x8000_0000_0000_0000 } else { (-n) as u64 };
        let digits = nat_chars(magnitude);
        let mut r: Vec<char> = Vec::new();
        r.push('-');
        crate::text::extend(&mut r, digits.as_slice());
        proof {
            assert(r@ =~= seq!['-'] + digits@);
        }
        r
    } else {
        nat_chars(n as u64)
    }
}

/// The decimal text of `n`.
pub fn nat_string(n: u64) -> (r: String)
    ensures
        r@ == nat_text(n as nat),
{
    let c = nat_chars(n);
    string_of(c.as_slice())
}

/// The decimal text of `n`.
pub fn int_string(n: i64) -> (r: String)
    ensures
        r@ == int_text(n as int),
{
    let c = int_chars(n);
    string_of(c.as_slice())
}

/// The decimal text of `n`, zero-padded to `width`.
pub fn padded_chars(n: u64, width: usize) -> (r: Vec<char>)
    ensures
        r@ == zero_padded(nat_text(n as nat), width as nat),
{
    let digits = nat_chars(n);
    if digits.len() >= width {
        return digits;
    }
    let zeros: usize = width - digits.len();
    let mut r: Vec<char> = Vec::new();
    let mut i: usize = 0;
    while i < zeros
        invariant
            i <= zeros,
            r@ =~= Seq::new(i as nat, |k: int| '0'),
        decreases zeros - i,
    {
        r.push('0');
        i = i + 1;
    }
    crate::text::extend(&mut r, digits.as_slice());
    proof {
        assert(r@ =~= zero_padded(nat_text(n as nat), width as nat));
    }
    r
}

/// The decimal text of `n`, zero-padded to `width`.
pub fn padded_string(n: u64, width: usize) -> (r: String)
    ensures
        r@ == zero_padded(nat_text(n as nat), width as nat),
{
    let c = padded_chars(n, width);
    string_of(c.as_slice())
}

// ---------------------------------------------------------------------------
// Parsing
// ---------------------------------------------------------------------------

/// The value of a digit in the given base (at most ten).
pub open spec fn digit_value(c: char, base: nat) -> Option<nat> {
    if '0' <= c && c <= '9' && (c as nat - 48) < base {
        Some((c as nat - 48) as nat)
    } else {
        None
    }
}

/// The number that a run of digits denotes; `None` if any character is no digit.
pub open spec fn digits_value(s: Seq<char>, base: nat) -> Option<nat>
    decreases s.len(),
{
    if s.len() == 0 {
        Some(0)
    } else {
        match (digits_value(s.drop_last(), base), digit_value(s.last(), base)) {
            (Some(n), Some(d)) => Some(n * base + d),
            _ => None,
        }
    }
}

/// The number denoted by an optional `+` and at least one digit.
pub open spec fn unsigned_value(s: Seq<char>, base: nat) -> Option<nat> {
    let t = if s.len() > 0 && s[0] == '+' {
        s.skip(1)
    } else {
        s
    };
    if t.len() == 0 {
        None
    } else {
        digits_value(t, base)
    }
}

/// The number denoted by an optional sign and at least one decimal digit.
pub open spec fn signed_value(s: Seq<char>) -> Option<int> {
    if s.len() > 0 && s[0] == '-' {
        if s.len() == 1 {
            None
        } else {
            match digits_value(s.skip(1), 10) {
                Some(n) => Some(-(n as int)),
                None => None,
            }
        }
    } else {
        match unsigned_value(s, 10) {
            Some(n) => Some(n as int),
            None => None,
        }
    }
}

/// The unsigned number that `s` denotes, if it denotes one of at most `max`.
pub open spec fn unsigned_upto(s: Seq<char>, base: nat, max: nat) -> Option<nat> {
    match unsigned_value(s, base) {
        Some(n) => if n <= max {
            Some(n)
        } else {
            None
        },
        None => None,
    }
}

/// The signed number that `s` denotes, if it lies between `min` and `max`.
pub open spec fn signed_within(s: Seq<char>, min: int, max: int) -> Option<int> {
    match signed_value(s) {
        Some(n) => if min <= n <= max {
            Some(n)
        } else {
            None
        },
        None => None,
    }
}

/// More digits never make a number smaller.
proof fn lemma_digits_grow(s: Seq<char>, base: nat, i: int)
    requires
        0 <= i <= s.len(),
        base >= 1,
    ensures
        digits_value(s.take(i), base) is None ==> digits_value(s, base) is None,
        digits_value(s, base) is Some ==> digits_value(s.take(i), base) is Some && digits_value(
            s,
            base,
        )->0 >= digits_value(s.take(i), base)->0,
    decreases s.len() - i,
{
    if i == s.len() {
        assert(s.take(i) =~= s);
    } else {
        lemma_digits_grow(s, base, i + 1);
        let t = s.take(i + 1);
        assert(t.drop_last() =~= s.take(i));
        if digits_value(t, base) is Some {
            let n = digits_value(s.take(i), base)->0;
            assert(n * base >= n) by (nonlinear_arith)
                requires
                    base >= 1,
            ;
        }
    }
}

/// The value of a run of digits, if it is at most `max`.
fn parse_digits(s: &[char], from: usize, base: u64, max: u64) -> (r: Option<u64>)
    requires
        from <= s@.len(),
        1 <= base <= 10,
    ensures
        match r {
            Some(n) => digits_value(s@.skip(from as int), base as nat) == Some(n as nat) && n
                <= max,
            None => match digits_value(s@.skip(from as int), base as nat) {
                Some(n) => n > max,
                None => true,
            },
        },
{
    let ghost t = s@.skip(from as int);
    let mut acc: u64 = 0;
    let mut i: usize = from;
    proof {
        assert(t.take(0) =~= Seq::<char>::empty());
    }
    while i < s.len()
        invariant
            from <= i <= s@.len(),
            t == s@.skip(from as int),
            1 <= base <= 10,
            digits_value(t.take(i - from), base as nat) == Some(acc as nat),
            acc <= max,
        decreases s@.len() - i,
    {
        let c = s[i];
        let ghost k = i - from;
        proof {
            assert(t.take(k + 1).drop_last() =~= t.take(k));
            assert(t.take(k + 1).last() == c);
            lemma_digits_grow(t, base as nat, k + 1);
            assert(acc as nat * base as nat <= 0xffff_ffff_ffff_ffff * 10) by (nonlinear_arith)
                requires
                    acc <= 0xffff_ffff_ffff_ffff,
                    base <= 10,
            ;
        }
        if !('0' <= c && c <= '9') {
            return None;
        }
        let d: u64 = (c as u8 - 48) as u64;
        if d >= base {
            return None;
        }
        let wide: u128 = (acc as u128) * (base as u128) + (d as u128);
        if wide > max as u128 {
            return None;
        }
        acc = wide as u64;
        i = i + 1;
    }
    proof {
        assert(t.take(i - from) =~= t);
    }
    if acc > max {
        return None;
    }
    Some(acc)
}

/// The unsigned number that the characters denote, if it is at most `max`.
pub fn parse_unsigned(s: &[char], base: u64, max: u64) -> (r: Option<u64>)
    requires
        1 <= base <= 10,
    ensures
        match r {
            Some(n) => unsigned_upto(s@, base as nat, max as nat) == Some(n as nat),
            None => unsigned_upto(s@, base as nat, max as nat) is None,
        },
{
    let from: usize = if s.len() > 0 && s[0] == '+' { 1 } else { 0 };
    proof {
        assert(s@.skip(0) =~= s@);
    }
    if from == s.len() {
        return None;
    }
    parse_digits(s, from, base, max)
}

/// The signed number that the characters denote, if it lies between `min` and `max`.
pub fn parse_signed(s: &[char], min: i64, max: i64) -> (r: Option<i64>)
    requires
        min <= 0 <= max,
    ensures
        match r {
            Some(n) => signed_within(s@, min as int, max as int) == Some(n as int),
            None => signed_within(s@, min as int, max as int) is None,
        },
{
    if s.len() > 0 && s[0] == '-' {
        if s.len() == 1 {
            return None;
        }
        let most: u64 = if min == i64::MIN { 0x8000_0000_0000_0000 } else { (-min) as u64 };
        match parse_digits(s, 1, 10, most) {
            Some(n) => Some(
                if n == 0x8000_0000_0000_0000 { i64::MIN } else { -(n as i64) },
            ),
            None => None,
        }
    } else {
        match parse_unsigned(s, 10, max as u64) {
            Some(n) => Some(n as i64),
            None => None,
        }
    }
}

// ---------------------------------------------------------------------------
// Laws
// ---------------------------------------------------------------------------

/// The decimal text of a number is made of digits, at least one.
pub proof fn lemma_nat_text_digits(n: nat)
    ensures
        nat_text(n).len() >= 1,
        forall|i: int| 0 <= i < nat_text(n).len() ==> '0' <= #[trigger] nat_text(n)[i] <= '9',
    decreases n,
{
    if n >= 10 {
        lemma_nat_text_digits(n / 10);
    }
}

/// Reading the digits of a number gives the number back.
pub proof fn lemma_digits_of_nat_text(n: nat)
    ensures
        digits_value(nat_text(n), 10) == Some(n),
    decreases n,
{
    reveal_with_fuel(digits_value, 2);
    if n < 10 {
        assert(nat_text(n).drop_last() =~= Seq::<char>::empty());
        assert(digit_value(nat_text(n).last(), 10) == Some(n));
    } else {
        lemma_digits_of_nat_text(n / 10);
        assert(nat_text(n).drop_last() =~= nat_text(n / 10));
        assert(digit_value(nat_text(n).last(), 10) == Some(n % 10));
    }
}

/// Parsing the decimal text of a natural number gives the number back.
pub proof fn law_unsigned_round_trip(n: nat)
    ensures
        unsigned_value(nat_text(n), 10) == Some(n),
{
    lemma_nat_text_digits(n);
    lemma_digits_of_nat_text(n);
    assert('0' <= nat_text(n)[0]);
}

/// Parsing the decimal text of an integer gives the integer back.
pub proof fn law_signed_round_trip(n: int)
    ensures
        signed_value(int_text(n)) == Some(n),
{
    if n < 0 {
        let m = (-n) as nat;
        lemma_nat_text_digits(m);
        lemma_digits_of_nat_text(m);
        assert((seq!['-'] + nat_text(m)).skip(1) =~= nat_text(m));
    } else {
        law_unsigned_round_trip(n as nat);
        lemma_nat_text_digits(n as nat);
        assert('0' <= nat_text(n as nat)[0]);
    }
}

/// Different numbers have different decimal texts.
pub proof fn law_nat_text_injective(a: nat, b: nat)
    ensures
        nat_text(a) == nat_text(b) ==> a == b,
{
    law_unsigned_round_trip(a);
    law_unsigned_round_trip(b);
}

/// A text that begins with neither a digit nor a plus sign is no unsigned
/// number.
pub proof fn law_other_text_is_no_number(s: Seq<char>, base: nat)
    requires
        s.len() > 0,
        !('0' <= s[0] <= '9'),
        s[0] != '+',
    ensures
        unsigned_value(s, base) is None,
{
    lemma_bad_digit(s, base, 0);
}

/// Digits with one among them that is none denote no number.
pub proof fn lemma_bad_digit(s: Seq<char>, base: nat, i: int)
    requires
        0 <= i < s.len(),
        digit_value(s[i], base) is None,
    ensures
        digits_value(s, base) is None,
    decreases s.len(),
{
    if i < s.len() - 1 {
        assert(s.drop_last()[i] == s[i]);
        lemma_bad_digit(s.drop_last(), base, i);
    }
}

/// Padding fills up with zeros in front, and changes neither the number nor a
/// text that is long enough.
pub proof fn law_padding(n: nat, width: nat)
    ensures
        ({
            let t = nat_text(n);
            let p = zero_padded(t, width);
            &&& p.len() == (if t.len() < width {
                width
            } else {
                t.len()
            })
            &&& p.skip(p.len() - t.len()) == t
            &&& forall|i: int| 0 <= i < p.len() - t.len() ==> #[trigger] p[i] == '0'
        }),
{
    let t = nat_text(n);
    let p = zero_padded(t, width);
    assert(p.skip(p.len() - t.len()) =~= t);
}

/// The text of a number holds its digits: the last is the remainder by ten,
/// what stands before it the text of the quotient.
pub proof fn law_decimal(n: nat, d: nat)
    requires
        d < 10,
    ensures
        n > 0 ==> nat_text(10 * n + d) == nat_text(n).push((48 + d) as char),
        nat_text(d) == seq![(48 + d) as char],
        n > 0 ==> int_text(-(n as int)) == seq!['-'] + nat_text(n),
        int_text(n as int) == nat_text(n),
{
    assert((10 * n + d) / 10 == n);
    assert((10 * n + d) % 10 == d);
}

/// What follows a sign, or comes without one, is read as the same number; a
/// minus sign negates it. A sign alone is no number.
pub proof fn law_signs(n: nat)
    ensures
        unsigned_value(seq!['+'] + nat_text(n), 10) == Some(n),
        signed_value(seq!['+'] + nat_text(n)) == Some(n as int),
        signed_value(seq!['-'] + nat_text(n)) == Some(-(n as int)),
        unsigned_value(seq!['-'] + nat_text(n), 10) is None,
        unsigned_value(seq!['+'], 10) is None,
        signed_value(seq!['-']) is None,
        unsigned_value(Seq::empty(), 10) is None,
{
    lemma_nat_text_digits(n);
    lemma_digits_of_nat_text(n);
    let p = seq!['+'] + nat_text(n);
    let m = seq!['-'] + nat_text(n);
    assert(p.skip(1) =~= nat_text(n));
    assert(m.skip(1) =~= nat_text(n));
    law_other_text_is_no_number(m, 10);
    assert(seq!['+'].skip(1) =~= Seq::<char>::empty());
}

/// A number is accepted up to a bound, and between two bounds.
pub proof fn law_bounds(n: nat, max: nat, k: int, low: int, high: int)
    ensures
        unsigned_upto(nat_text(n), 10, max) == (if n <= max {
            Some(n)
        } else {
            None
        }),
        signed_within(int_text(k), low, high) == (if low <= k <= high {
            Some(k)
        } else {
            None
        }),
{
    law_unsigned_round_trip(n);
    law_signed_round_trip(k);
}

} // verus!
