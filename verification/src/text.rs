//! Helpers on text: equality, ordering and suffixes of character sequences.
//!
//! All contracts speak of a string through its view, the sequence of its
//! characters.

use vstd::prelude::*;

verus! {

/// How one piece of text stands to another in the order [`precedes`].
#[derive(Clone, Copy, Debug, PartialEq, Eq, Structural)]
pub enum Sign {
    Less,
    Equal,
    Greater,
}

/// `a` and `b` agree on their first `k` characters, and at position `k`
/// either `a` has ended while `b` goes on, or `a` holds the smaller character.
pub open spec fn precedes_at(a: Seq<char>, b: Seq<char>, k: int) -> bool {
    &&& 0 <= k <= a.len()
    &&& k < b.len()
    &&& forall|j: int| 0 <= j < k ==> a[j] == b[j]
    &&& (k == a.len() || a[k] < b[k])
}

/// The strict lexicographic order of text by code point. For strings this is
/// the order of their UTF-8 bytes, the one in which `String` values sort.
pub open spec fn precedes(a: Seq<char>, b: Seq<char>) -> bool {
    exists|k: int| precedes_at(a, b, k)
}

/// No text precedes itself.
pub proof fn lemma_precedes_irreflexive(a: Seq<char>)
    ensures
        !precedes(a, a),
{
}

/// The order is transitive.
pub proof fn lemma_precedes_transitive(a: Seq<char>, b: Seq<char>, c: Seq<char>)
    requires
        precedes(a, b),
        precedes(b, c),
    ensures
        precedes(a, c),
{
    let k1 = choose|k: int| precedes_at(a, b, k);
    let k2 = choose|k: int| precedes_at(b, c, k);
    let k = if k1 <= k2 { k1 } else { k2 };
    assert(precedes_at(a, c, k));
}

/// `s` ends with `suffix`.
pub open spec fn has_suffix(s: Seq<char>, suffix: Seq<char>) -> bool {
    &&& suffix.len() <= s.len()
    &&& s.subrange(s.len() - suffix.len(), s.len() as int) == suffix
}

/// What is left of `s` once its last `n` characters are taken away.
pub open spec fn without_last(s: Seq<char>, n: nat) -> Seq<char> {
    s.subrange(0, s.len() - n)
}

/// Copies the characters of `s` into a vector.
pub fn chars_of(s: &str) -> (out: Vec<char>)
    ensures
        out@ == s@,
{
    let mut out: Vec<char> = Vec::new();
    for c in it: s.chars()
        invariant
            out@ == it.seq().take(it.index() as int),
            it.seq() == s@,
    {
        out.push(c);
        assert(out@ =~= it.seq().take(it.index() + 1));
    }
    assert(s@.take(s@.len() as int) =~= s@);
    out
}

/// Whether two strings hold the same characters.
pub fn same(a: &str, b: &str) -> (r: bool)
    ensures
        r == (a@ == b@),
{
    let x = a.to_owned();
    let y = b.to_owned();
    x == y
}

/// Compares two strings in the order [`precedes`].
pub fn order(a: &str, b: &str) -> (r: Sign)
    ensures
        r == Sign::Less <==> precedes(a@, b@),
        r == Sign::Equal <==> a@ == b@,
        r == Sign::Greater <==> precedes(b@, a@),
{
    let x = chars_of(a);
    let y = chars_of(b);
    let mut i: usize = 0;
    let mut r = Sign::Equal;
    while i < x.len() && i < y.len()
        invariant_except_break
            r == Sign::Equal,
        invariant
            x@ == a@,
            y@ == b@,
            i <= x.len(),
            i <= y.len(),
            forall|j: int| 0 <= j < i ==> x[j] == y[j],
        ensures
            r == Sign::Less ==> precedes_at(a@, b@, i as int),
            r == Sign::Greater ==> precedes_at(b@, a@, i as int),
            r == Sign::Equal ==> i == x.len() || i == y.len(),
        decreases x.len() - i,
    {
        let c = x[i];
        let d = y[i];
        if c < d {
            r = Sign::Less;
            break;
        }
        if d < c {
            r = Sign::Greater;
            break;
        }
        i += 1;
    }
    if r == Sign::Equal {
        if i < y.len() {
            assert(precedes_at(a@, b@, i as int));
            r = Sign::Less;
        } else if i < x.len() {
            assert(precedes_at(b@, a@, i as int));
            r = Sign::Greater;
        } else {
            assert(a@ =~= b@);
        }
    }
    proof {
        lemma_precedes_irreflexive(a@);
        if precedes(a@, b@) && precedes(b@, a@) {
            lemma_precedes_transitive(a@, b@, a@);
        }
    }
    r
}

/// Whether `s` ends with `suffix`.
pub fn ends_with(s: &str, suffix: &str) -> (r: bool)
    ensures
        r == has_suffix(s@, suffix@),
{
    let x = chars_of(s);
    let y = chars_of(suffix);
    if y.len() > x.len() {
        return false;
    }
    let base: usize = x.len() - y.len();
    let mut i: usize = 0;
    while i < y.len()
        invariant
            x@ == s@,
            y@ == suffix@,
            y.len() <= x.len(),
            base == x.len() - y.len(),
            i <= y.len(),
            forall|j: int| 0 <= j < i ==> x[base + j] == y[j],
        decreases y.len() - i,
    {
        if x[base + i] != y[i] {
            assert(s@.subrange(s@.len() - suffix@.len(), s@.len() as int)[i as int] == x[base + i]);
            return false;
        }
        i += 1;
    }
    assert(s@.subrange(s@.len() - suffix@.len(), s@.len() as int) =~= suffix@);
    true
}

/// Takes `suffix` off the end of `s`: the rest where `s` ends with it, `None`
/// where it does not.
pub fn strip_suffix(s: &str, suffix: &str) -> (r: Option<String>)
    ensures
        has_suffix(s@, suffix@) ==> r is Some && r->0@ == without_last(s@, suffix@.len()),
        !has_suffix(s@, suffix@) ==> r is None,
{
    if ends_with(s, suffix) {
        let n: usize = s.unicode_len();
        let m: usize = suffix.unicode_len();
        let rest = s.substring_char(0, n - m);
        Some(rest.to_owned())
    } else {
        None
    }
}

/// The text of `a` followed by the text of `b`.
pub fn catenate(a: &str, b: &str) -> (r: String)
    ensures
        r@ == a@ + b@,
{
    let mut r = a.to_owned();
    r.append(b);
    r
}

} // verus!
