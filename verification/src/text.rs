//! Byte-level text helpers: every statement this crate makes about a name
//! is made over the UTF-8 bytes of the string that holds it.

use vstd::prelude::*;

verus! {

use vstd::utf8::encode_utf8;

/// The UTF-8 bytes of a string value; the canonical form in which this
/// crate compares and normalizes name-like fields.
pub open spec fn bytes_of(s: Seq<char>) -> Seq<u8> {
    encode_utf8(s)
}

/// Result of a three-way comparison.
#[derive(Clone, Copy, Debug, PartialEq, Eq, Structural)]
pub enum Cmp {
    Less,
    Equal,
    Greater,
}

/// Lexicographic order on byte sequences; on UTF-8 bytes this is exactly
/// the order `String` values have under their standard comparison.
pub open spec fn lex_bytes(a: Seq<u8>, b: Seq<u8>) -> Cmp
    decreases a.len(),
{
    if a.len() == 0 && b.len() == 0 {
        Cmp::Equal
    } else if a.len() == 0 {
        Cmp::Less
    } else if b.len() == 0 {
        Cmp::Greater
    } else if a[0] < b[0] {
        Cmp::Less
    } else if a[0] > b[0] {
        Cmp::Greater
    } else {
        lex_bytes(a.drop_first(), b.drop_first())
    }
}

/// Compares two byte slices in lexicographic order.
pub fn lex_bytes_cmp(a: &[u8], b: &[u8]) -> (r: Cmp)
    ensures
        r == lex_bytes(a@, b@),
{
    broadcast use vstd::slice::group_slice_axioms;

    let alen = a.len();
    let blen = b.len();
    let mut i: usize = 0;
    assert(a@.skip(0) =~= a@);
    assert(b@.skip(0) =~= b@);
    while i < alen && i < blen
        invariant
            alen == a@.len(),
            blen == b@.len(),
            i <= alen,
            i <= blen,
            lex_bytes(a@, b@) == lex_bytes(a@.skip(i as int), b@.skip(i as int)),
        decreases alen - i,
    {
        let x = a[i];
        let y = b[i];
        assert(a@.skip(i as int)[0] == a@[i as int]);
        assert(b@.skip(i as int)[0] == b@[i as int]);
        if x < y {
            return Cmp::Less;
        }
        if x > y {
            return Cmp::Greater;
        }
        assert(a@.skip(i as int).drop_first() =~= a@.skip(i + 1));
        assert(b@.skip(i as int).drop_first() =~= b@.skip(i + 1));
        i = i + 1;
    }
    if i == alen && i == blen {
        assert(a@.skip(i as int).len() == 0 && b@.skip(i as int).len() == 0);
        Cmp::Equal
    } else if i == alen {
        assert(a@.skip(i as int).len() == 0 && b@.skip(i as int).len() > 0);
        Cmp::Less
    } else {
        assert(a@.skip(i as int).len() > 0 && b@.skip(i as int).len() == 0);
        Cmp::Greater
    }
}

/// The mirrored comparison result.
pub open spec fn flip(c: Cmp) -> Cmp {
    match c {
        Cmp::Less => Cmp::Greater,
        Cmp::Equal => Cmp::Equal,
        Cmp::Greater => Cmp::Less,
    }
}

/// Lexicographic comparison of a sequence with itself is a tie.
pub proof fn lemma_lex_refl(a: Seq<u8>)
    ensures
        lex_bytes(a, a) == Cmp::Equal,
    decreases a.len(),
{
    if a.len() > 0 {
        lemma_lex_refl(a.drop_first());
    }
}

/// Swapping the operands mirrors the comparison.
pub proof fn lemma_lex_flip(a: Seq<u8>, b: Seq<u8>)
    ensures
        lex_bytes(b, a) == flip(lex_bytes(a, b)),
    decreases a.len(),
{
    if a.len() > 0 && b.len() > 0 {
        lemma_lex_flip(a.drop_first(), b.drop_first());
    }
}

/// Lexicographic order composes transitively.
pub proof fn lemma_lex_trans(a: Seq<u8>, b: Seq<u8>, c: Seq<u8>)
    ensures
        lex_bytes(a, b) == Cmp::Less && lex_bytes(b, c) == Cmp::Less ==> lex_bytes(a, c)
            == Cmp::Less,
        lex_bytes(a, b) == Cmp::Less && lex_bytes(b, c) == Cmp::Equal ==> lex_bytes(a, c)
            == Cmp::Less,
        lex_bytes(a, b) == Cmp::Equal && lex_bytes(b, c) == Cmp::Less ==> lex_bytes(a, c)
            == Cmp::Less,
        lex_bytes(a, b) == Cmp::Equal && lex_bytes(b, c) == Cmp::Equal ==> lex_bytes(a, c)
            == Cmp::Equal,
    decreases a.len() + b.len() + c.len(),
{
    if a.len() > 0 && b.len() > 0 && c.len() > 0 {
        lemma_lex_trans(a.drop_first(), b.drop_first(), c.drop_first());
    }
}

/// Decides equality of two byte slices.
pub fn bytes_eq(a: &[u8], b: &[u8]) -> (r: bool)
    ensures
        r <==> a@ == b@,
{
    broadcast use vstd::slice::group_slice_axioms;

    let alen = a.len();
    let blen = b.len();
    if alen != blen {
        return false;
    }
    let mut i: usize = 0;
    while i < alen
        invariant
            alen == a@.len(),
            alen == b@.len(),
            i <= alen,
            forall|j: int| 0 <= j < i ==> a@[j] == b@[j],
        decreases alen - i,
    {
        if a[i] != b[i] {
            return false;
        }
        i = i + 1;
    }
    assert(a@ =~= b@);
    true
}

/// What `str::trim` returns, as a function of the input bytes.
pub uninterp spec fn trim_of(b: Seq<u8>) -> Seq<u8>;

/// What `str::to_lowercase` returns, as a function of the input bytes.
pub uninterp spec fn lower_of(b: Seq<u8>) -> Seq<u8>;

/// The normalized form of a name: trimmed, then lowercased. Two names
/// collide exactly when their normalized forms are equal.
pub open spec fn normalized(b: Seq<u8>) -> Seq<u8> {
    lower_of(trim_of(b))
}

/// Relies on str::trim: it returns a subslice of the input with leading
/// and trailing whitespace removed, so the result is a function of the
/// input alone and never longer than it.
#[verifier::external_body]
pub fn trim_str<'a>(s: &'a str) -> (r: &'a str)
    ensures
        bytes_of(r@) == trim_of(bytes_of(s@)),
        bytes_of(r@).len() <= bytes_of(s@).len(),
{
    s.trim()
}

/// Relies on str::to_lowercase: the result depends on the input
/// characters alone.
#[verifier::external_body]
pub fn lower_str(s: &str) -> (r: String)
    ensures
        bytes_of(r@) == lower_of(bytes_of(s@)),
{
    s.to_lowercase()
}

/// Trims and lowercases a name, yielding its normalized form.
pub fn normalize(s: &str) -> (r: String)
    ensures
        bytes_of(r@) == normalized(bytes_of(s@)),
{
    let t = trim_str(s);
    lower_str(t)
}

} // verus!
