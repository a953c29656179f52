use vstd::prelude::*;

use crate::text::chars_of;

verus! {

/// Whether `a[i..]` comes before `b[i..]` in the order of strings: by the first character
/// that differs, a proper prefix first.
pub open spec fn name_lt_from(a: Seq<char>, b: Seq<char>, i: int) -> bool
    decreases a.len() - i,
{
    if i >= a.len() {
        i < b.len()
    } else if i >= b.len() {
        false
    } else if a[i] != b[i] {
        a[i] < b[i]
    } else {
        name_lt_from(a, b, i + 1)
    }
}

/// Whether `a` comes strictly before `b` in the order of strings.
pub open spec fn name_lt(a: Seq<char>, b: Seq<char>) -> bool {
    name_lt_from(a, b, 0)
}

/// Whether `a` comes strictly before `b` in the order of strings.
pub fn name_less(a: &str, b: &str) -> (r: bool)
    ensures
        r == name_lt(a@, b@),
{
    let ca = chars_of(a);
    let cb = chars_of(b);
    let mut i: usize = 0;
    while i < ca.len() && i < cb.len()
        invariant
            i <= ca.len(),
            i <= cb.len(),
            ca@ == a@,
            cb@ == b@,
            name_lt_from(a@, b@, 0) == name_lt_from(a@, b@, i as int),
        decreases ca.len() - i,
    {
        if ca[i] != cb[i] {
            return ca[i] < cb[i];
        }
        i = i + 1;
    }
    i < cb.len() && i == ca.len()
}

/// No string comes strictly before itself.
pub proof fn lemma_name_lt_irreflexive(a: Seq<char>)
    ensures
        !name_lt(a, a),
{
    lemma_name_lt_from_irreflexive(a, 0);
}

proof fn lemma_name_lt_from_irreflexive(a: Seq<char>, i: int)
    requires
        0 <= i,
    ensures
        !name_lt_from(a, a, i),
    decreases a.len() - i,
{
    if i < a.len() {
        lemma_name_lt_from_irreflexive(a, i + 1);
    }
}

/// The order of strings is transitive.
pub proof fn lemma_name_lt_transitive(a: Seq<char>, b: Seq<char>, c: Seq<char>)
    requires
        name_lt(a, b),
        name_lt(b, c),
    ensures
        name_lt(a, c),
{
    lemma_name_lt_from_transitive(a, b, c, 0);
}

proof fn lemma_name_lt_from_transitive(a: Seq<char>, b: Seq<char>, c: Seq<char>, i: int)
    requires
        0 <= i,
        name_lt_from(a, b, i),
        name_lt_from(b, c, i),
    ensures
        name_lt_from(a, c, i),
    decreases a.len() - i,
{
    if i < a.len() && i < b.len() && i < c.len() && a[i] == b[i] && b[i] == c[i] {
        lemma_name_lt_from_transitive(a, b, c, i + 1);
    }
}

/// Of two different strings, one comes strictly before the other.
pub proof fn lemma_name_lt_total(a: Seq<char>, b: Seq<char>)
    ensures
        a == b || name_lt(a, b) || name_lt(b, a),
{
    lemma_name_lt_from_total(a, b, 0);
    if !name_lt(a, b) && !name_lt(b, a) {
        assert(a =~= b);
    }
}

proof fn lemma_name_lt_from_total(a: Seq<char>, b: Seq<char>, i: int)
    requires
        0 <= i <= a.len(),
        i <= b.len(),
    ensures
        !name_lt_from(a, b, i) && !name_lt_from(b, a, i) ==> a.len() == b.len() && forall|j: int|
            i <= j < a.len() ==> a[j] == b[j],
    decreases a.len() - i,
{
    if i < a.len() && i < b.len() && a[i] == b[i] {
        lemma_name_lt_from_total(a, b, i + 1);
        if !name_lt_from(a, b, i) && !name_lt_from(b, a, i) {
            assert forall|j: int| i <= j < a.len() implies a[j] == b[j] by {
                if j > i {
                    assert(i + 1 <= j < a.len());
                }
            }
        }
    }
}

} // verus!
