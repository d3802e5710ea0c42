//! Small helpers shared across modules.
use crate::text;
use vstd::prelude::*;
use vstd::slice::slice_subrange;
use vstd::utf8;

verus! {

/// Whether two byte strings are the same.
fn same_bytes(a: &[u8], b: &[u8]) -> (r: bool)
    ensures
        r == (a@ == b@),
{
    if a.len() != b.len() {
        return false;
    }
    let mut i: usize = 0;
    while i < a.len()
        invariant
            i <= a@.len(),
            a@.len() == b@.len(),
            forall|j: int| 0 <= j < i ==> a@[j] == b@[j],
        decreases a@.len() - i,
    {
        if a[i] != b[i] {
            return false;
        }
        i = i + 1;
    }
    proof {
        assert(a@ =~= b@);
    }
    true
}

/// The index of the first occurrence of `needle` within `haystack`. An empty
/// needle is never found.
pub fn find_subslice(haystack: &[u8], needle: &[u8]) -> (r: Option<usize>)
    ensures
        match r {
            Some(i) => needle@.len() > 0 && text::first_occurrence(haystack@, needle@) == Some(
                i as int,
            ) && i + needle@.len() <= haystack@.len(),
            None => needle@.len() == 0 || text::first_occurrence(haystack@, needle@) is None,
        },
{
    if needle.len() == 0 || haystack.len() < needle.len() {
        return None;
    }
    let last: usize = haystack.len() - needle.len();
    let total: usize = haystack.len();
    let mut i: usize = 0;
    loop
        invariant
            total == haystack@.len(),
            needle@.len() > 0,
            last == haystack@.len() - needle@.len(),
            i <= last,
            text::first_occurrence(haystack@, needle@) == text::occurrence_from(
                haystack@,
                needle@,
                i as int,
            ),
        decreases last + 1 - i,
    {
        let window = slice_subrange(haystack, i, i + needle.len());
        if same_bytes(window, needle) {
            return Some(i);
        }
        proof {
            assert(text::occurrence_from(haystack@, needle@, i as int) == text::occurrence_from(
                haystack@,
                needle@,
                i as int + 1,
            ));
        }
        if i == last {
            return None;
        }
        i = i + 1;
    }
}

/// Compares two byte strings in constant time (with respect to the contents),
/// so credential checks don't leak how many leading bytes matched via timing.
/// Differing lengths return `false` immediately (the length itself is not
/// considered secret here).
pub fn constant_time_eq(a: &[u8], b: &[u8]) -> (r: bool)
    ensures
        r == (a@ == b@),
{
    if a.len() != b.len() {
        return false;
    }
    let mut diff: u8 = 0;
    let mut i: usize = 0;
    while i < a.len()
        invariant
            i <= a@.len(),
            a@.len() == b@.len(),
            diff == 0 <==> (forall|j: int| 0 <= j < i ==> a@[j] == b@[j]),
        decreases a@.len() - i,
    {
        let x: u8 = a[i];
        let y: u8 = b[i];
        let ghost before = diff;
        diff = diff | (x ^ y);
        proof {
            assert((before | (x ^ y)) == 0 <==> before == 0 && x == y) by (bit_vector);
        }
        i = i + 1;
    }
    proof {
        if diff == 0 {
            assert(a@ =~= b@);
        }
    }
    diff == 0
}

/// The position of the first byte `b`, or the length when there is none.
pub open spec fn first_byte(s: Seq<u8>, b: u8) -> int
    decreases s.len(),
{
    if s.len() == 0 || s[0] == b {
        0
    } else {
        1 + first_byte(s.skip(1), b)
    }
}

/// What `first_byte` returns: the least position that holds `b`.
pub proof fn lemma_first_byte(s: Seq<u8>, b: u8)
    ensures
        0 <= first_byte(s, b) <= s.len(),
        forall|j: int| 0 <= j < first_byte(s, b) ==> s[j] != b,
        first_byte(s, b) < s.len() ==> s[first_byte(s, b)] == b,
    decreases s.len(),
{
    if s.len() == 0 || s[0] == b {
    } else {
        let t = s.skip(1);
        lemma_first_byte(t, b);
        assert forall|j: int| 0 <= j < first_byte(s, b) implies s[j] != b by {
            if j > 0 {
                assert(t[j - 1] == s[j]);
            }
        }
    }
}

/// The position of the first byte `b`, or the length when there is none.
pub fn find_byte(s: &[u8], b: u8) -> (r: usize)
    ensures
        r as int == first_byte(s@, b),
        r <= s@.len(),
        r < s@.len() ==> s@[r as int] == b,
        forall|j: int| 0 <= j < r ==> s@[j] != b,
{
    let mut i: usize = 0;
    while i < s.len() && s[i] != b
        invariant
            i <= s@.len(),
            forall|j: int| 0 <= j < i ==> s@[j] != b,
        decreases s@.len() - i,
    {
        i = i + 1;
    }
    proof {
        lemma_first_byte(s@, b);
    }
    i
}

/// Whether `s` begins with `p`.
pub fn begins_with(s: &[u8], p: &[u8]) -> (r: bool)
    ensures
        r == text::has_prefix(s@, p@),
{
    if p.len() > s.len() {
        return false;
    }
    let head = slice_subrange(s, 0, p.len());
    proof {
        assert(head@ =~= s@.take(p@.len() as int));
    }
    same_bytes(head, p)
}

// ---------------------------------------------------------------------------
// Bytes as text
// ---------------------------------------------------------------------------

/// `String::from_utf8`: the text whose UTF-8 encoding the bytes are, if there is one.
#[verifier::external_body]
pub(crate) fn utf8_text(bytes: Vec<u8>) -> (r: Option<String>)
    ensures
        match r {
            Some(s) => utf8::valid_utf8(bytes@) && utf8::encode_utf8(s@) == bytes@,
            None => !utf8::valid_utf8(bytes@),
        },
{
    String::from_utf8(bytes).ok()
}

/// The text of bytes in which sequences that are not UTF-8 are replaced.
pub uninterp spec fn lossy_text(bytes: Seq<u8>) -> Seq<char>;

/// `String::from_utf8_lossy`: the text of the bytes. Valid UTF-8 is kept as it
/// is; how other bytes are replaced is left to that function, and only said
/// to depend on nothing but the bytes.
#[verifier::external_body]
pub(crate) fn utf8_lossy(bytes: &[u8]) -> (r: String)
    ensures
        r@ == lossy_text(bytes@),
        utf8::valid_utf8(bytes@) ==> utf8::encode_utf8(r@) == bytes@,
{
    String::from_utf8_lossy(bytes).into_owned()
}

/// The text of bytes: what they encode, if they are UTF-8; else the text in
/// which what is not UTF-8 has been replaced.
pub open spec fn text_of(bytes: Seq<u8>) -> Seq<char> {
    if utf8::valid_utf8(bytes) {
        utf8::decode_utf8(bytes)
    } else {
        lossy_text(bytes)
    }
}

/// The text of bytes.
pub fn decode_text(bytes: &[u8]) -> (r: String)
    ensures
        r@ == text_of(bytes@),
{
    let r = utf8_lossy(bytes);
    proof {
        utf8::encode_utf8_decode_utf8(r@);
    }
    r
}

/// The text of a text's UTF-8 encoding is the text.
pub proof fn law_text_round_trip(s: Seq<char>)
    ensures
        text_of(utf8::encode_utf8(s)) == s,
{
    utf8::encode_utf8_valid_utf8(s);
    utf8::encode_utf8_decode_utf8(s);
}

/// The UTF-8 encoding of a text.
pub fn bytes_of(s: &str) -> (r: Vec<u8>)
    ensures
        r@ == utf8::encode_utf8(s@),
{
    let b = s.as_bytes();
    let mut r: Vec<u8> = Vec::new();
    push_bytes(&mut r, b);
    proof {
        assert(Seq::<u8>::empty() + b@ =~= b@);
    }
    r
}

/// Appends bytes.
pub fn push_bytes(out: &mut Vec<u8>, more: &[u8])
    ensures
        final(out)@ == old(out)@ + more@,
{
    let ghost before = out@;
    let mut i: usize = 0;
    while i < more.len()
        invariant
            i <= more@.len(),
            out@ == before + more@.take(i as int),
        decreases more@.len() - i,
    {
        out.push(more[i]);
        proof {
            assert(more@.take(i as int + 1) =~= more@.take(i as int).push(more@[i as int]));
            assert(out@ =~= before + more@.take(i as int + 1));
        }
        i = i + 1;
    }
    proof {
        assert(more@.take(more@.len() as int) =~= more@);
    }
}

/// A vector holding the given bytes.
pub fn copy_bytes(b: &[u8]) -> (r: Vec<u8>)
    ensures
        r@ == b@,
{
    let mut r: Vec<u8> = Vec::new();
    push_bytes(&mut r, b);
    proof {
        assert(Seq::<u8>::empty() + b@ =~= b@);
    }
    r
}

// ---------------------------------------------------------------------------
// Paths
// ---------------------------------------------------------------------------

/// The path `rel` as seen from the directory `base`. An absolute path stays as it is.
pub open spec fn path_from(base: Seq<char>, rel: Seq<char>) -> Seq<char> {
    if rel.len() > 0 && rel[0] == '/' {
        rel
    } else if base.len() == 0 || base.last() == '/' {
        base + rel
    } else {
        base + seq!['/'] + rel
    }
}

/// The path `rel` as seen from the directory `base`.
pub fn join_path(base: &str, rel: &str) -> (r: String)
    ensures
        r@ == path_from(base@, rel@),
{
    let b = text::chars_of(base);
    let c = text::chars_of(rel);
    if c.len() > 0 && c[0] == '/' {
        return rel.to_string();
    }
    let mut r = base.to_string();
    if b.len() > 0 && b[b.len() - 1] != '/' {
        r.push('/');
    }
    r.append(rel);
    proof {
        assert(r@ =~= path_from(base@, rel@));
    }
    r
}

/// An absolute path stays as it is; any other is looked for in the directory.
pub proof fn law_paths(base: Seq<char>, rel: Seq<char>)
    ensures
        rel.len() > 0 && rel[0] == '/' ==> path_from(base, rel) == rel,
        (rel.len() == 0 || rel[0] != '/') && base.len() > 0 && base.last() != '/' ==> path_from(
            base,
            rel,
        ) == base + seq!['/'] + rel,
        (rel.len() == 0 || rel[0] != '/') && base.len() > 0 && base.last() == '/' ==> path_from(
            base,
            rel,
        ) == base + rel,
        (rel.len() == 0 || rel[0] != '/') && base.len() == 0 ==> path_from(base, rel) == rel,
{
    assert(Seq::<char>::empty() + rel =~= rel);
    if base.len() == 0 {
        assert(base =~= Seq::<char>::empty());
    }
}

} // verus!
