use vstd::prelude::*;

verus! {

/// A sequence without repeats whose items all occur in `u` is no longer than `u`.
pub proof fn lemma_no_dup_subset_len<A>(s: Seq<A>, u: Seq<A>)
    requires
        s.no_duplicates(),
        forall|i: int| 0 <= i < s.len() ==> u.contains(#[trigger] s[i]),
    ensures
        s.len() <= u.len(),
{
    s.unique_seq_to_set();
    u.lemma_cardinality_of_set();
    assert(s.to_set().subset_of(u.to_set())) by {
        assert forall|x: A| s.to_set().contains(x) implies u.to_set().contains(x) by {
            let i = choose|i: int| 0 <= i < s.len() && s[i] == x;
            assert(u.contains(s[i]));
        }
    }
    vstd::set_lib::lemma_len_subset(s.to_set(), u.to_set());
}

/// The indices below `n`, in order.
pub open spec fn index_range(n: nat) -> Seq<usize> {
    Seq::new(n, |i: int| i as usize)
}

/// A sequence of distinct indices below `n` has at most `n` items.
pub proof fn lemma_distinct_indices_bounded(s: Seq<usize>, n: nat)
    requires
        n <= usize::MAX + 1,
        s.no_duplicates(),
        forall|i: int| 0 <= i < s.len() ==> #[trigger] s[i] < n,
    ensures
        s.len() <= n,
{
    let u = index_range(n);
    assert forall|i: int| 0 <= i < s.len() implies u.contains(#[trigger] s[i]) by {
        let k = s[i] as int;
        assert(u[k] == s[i]);
    }
    lemma_no_dup_subset_len(s, u);
}

} // verus!
