//! The order in which stored timestamps are compared: character by
//! character, as text.

use vstd::prelude::*;
use vstd::string::*;

verus! {

/// Whether text `a` comes strictly before text `b` in lexicographic order
/// (a proper prefix comes first).
pub open spec fn text_before(a: Seq<char>, b: Seq<char>) -> bool
    decreases a.len(),
{
    if a.len() == 0 {
        b.len() > 0
    } else if b.len() == 0 {
        false
    } else if a[0] != b[0] {
        a[0] < b[0]
    } else {
        text_before(a.drop_first(), b.drop_first())
    }
}

/// Whether optional stamp `a` comes strictly before `b`; an absent stamp
/// comes before every present one.
pub open spec fn stamp_before(a: Option<String>, b: Option<String>) -> bool {
    match (a, b) {
        (None, Some(_)) => true,
        (Some(x), Some(y)) => text_before(x@, y@),
        _ => false,
    }
}

/// No text comes before itself.
pub proof fn lemma_text_before_irreflexive(a: Seq<char>)
    ensures
        !text_before(a, a),
    decreases a.len(),
{
    if a.len() > 0 {
        lemma_text_before_irreflexive(a.drop_first());
    }
}

/// Text order is transitive.
pub proof fn lemma_text_before_transitive(a: Seq<char>, b: Seq<char>, c: Seq<char>)
    requires
        text_before(a, b),
        text_before(b, c),
    ensures
        text_before(a, c),
    decreases a.len(),
{
    if a.len() > 0 && a[0] == b[0] && b[0] == c[0] {
        lemma_text_before_transitive(a.drop_first(), b.drop_first(), c.drop_first());
    }
}

/// No stamp comes before itself.
pub proof fn lemma_stamp_before_irreflexive(a: Option<String>)
    ensures
        !stamp_before(a, a),
{
    if a is Some {
        lemma_text_before_irreflexive(a->Some_0@);
    }
}

/// Stamp order is transitive.
pub proof fn lemma_stamp_before_transitive(a: Option<String>, b: Option<String>, c: Option<String>)
    requires
        stamp_before(a, b),
        stamp_before(b, c),
    ensures
        stamp_before(a, c),
{
    if a is Some {
        lemma_text_before_transitive(a->Some_0@, b->Some_0@, c->Some_0@);
    }
}

/// Whether `a` comes strictly before `b` in text order.
pub fn text_before_exec(a: &str, b: &str) -> (r: bool)
    ensures
        r == text_before(a@, b@),
{
    let la = a.unicode_len();
    let lb = b.unicode_len();
    let mut i: usize = 0;
    assert(a@.skip(0) =~= a@ && b@.skip(0) =~= b@);
    while i < la && i < lb
        invariant
            i <= la,
            i <= lb,
            la == a@.len(),
            lb == b@.len(),
            text_before(a@, b@) == text_before(a@.skip(i as int), b@.skip(i as int)),
        decreases la - i,
    {
        let ca = a.get_char(i);
        let cb = b.get_char(i);
        if ca != cb {
            return ca < cb;
        }
        proof {
            assert(a@.skip(i as int).drop_first() =~= a@.skip(i as int + 1));
            assert(b@.skip(i as int).drop_first() =~= b@.skip(i as int + 1));
        }
        i = i + 1;
    }
    i < lb
}

/// Whether optional stamp `a` comes strictly before `b`.
pub fn stamp_before_exec(a: &Option<String>, b: &Option<String>) -> (r: bool)
    ensures
        r == stamp_before(*a, *b),
{
    match (a, b) {
        (None, Some(_)) => true,
        (Some(x), Some(y)) => text_before_exec(x.as_str(), y.as_str()),
        _ => false,
    }
}

} // verus!
