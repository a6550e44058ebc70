//! One sequence standing inside another, from a given position on.

use vstd::prelude::*;

verus! {

/// Whether `t` stands in `s` from position `i` on.
pub open spec fn occurs<A>(s: Seq<A>, i: int, t: Seq<A>) -> bool {
    0 <= i && i + t.len() <= s.len() && s.subrange(i, i + t.len()) == t
}

/// Where a sequence stands, each of its items stands.
pub proof fn lemma_occurs_item<A>(s: Seq<A>, i: int, t: Seq<A>, k: int)
    requires
        occurs(s, i, t),
        0 <= k < t.len(),
    ensures
        s[i + k] == t[k],
{
    assert(s.subrange(i, i + t.len())[k] == s[i + k]);
}

/// Where two sequences stand one behind the other, both stand.
pub proof fn lemma_occurs_parts<A>(s: Seq<A>, i: int, a: Seq<A>, b: Seq<A>)
    requires
        occurs(s, i, a + b),
    ensures
        occurs(s, i, a),
        occurs(s, i + a.len(), b),
{
    let t = a + b;
    assert(s.subrange(i, i + a.len()) =~= s.subrange(i, i + t.len()).subrange(0, a.len() as int));
    assert(t.subrange(0, a.len() as int) =~= a);
    assert(s.subrange(i + a.len(), i + a.len() + b.len()) =~= s.subrange(
        i,
        i + t.len(),
    ).subrange(a.len() as int, t.len() as int));
    assert(t.subrange(a.len() as int, t.len() as int) =~= b);
}

/// Where two sequences stand one behind the other, the two together
/// stand.
pub proof fn lemma_occurs_join<A>(s: Seq<A>, i: int, a: Seq<A>, b: Seq<A>)
    requires
        occurs(s, i, a),
        occurs(s, i + a.len(), b),
    ensures
        occurs(s, i, a + b),
{
    assert forall|k: int| 0 <= k < a.len() + b.len() implies s[i + k] == (a + b)[k] by {
        if k < a.len() {
            lemma_occurs_item(s, i, a, k);
        } else {
            lemma_occurs_item(s, i + a.len(), b, k - a.len());
        }
    }
    assert(s.subrange(i, i + (a + b).len()) =~= a + b);
}

/// One item stands where it is.
pub proof fn lemma_occurs_one<A>(s: Seq<A>, i: int)
    requires
        0 <= i < s.len(),
    ensures
        occurs(s, i, seq![s[i]]),
{
    assert(s.subrange(i, i + 1) =~= seq![s[i]]);
}

} // verus!
