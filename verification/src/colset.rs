//! Executable set algebra on column-identifier sets.
//!
//! Attribute sets and free-variable sets are `HashSet<usize>` values whose
//! view is a mathematical `Set<usize>`. The functions here are the few set
//! operations the plan analysis needs, each stated over that view.
use std::collections::HashSet;
use vstd::prelude::*;
use vstd::std_specs::hash::spec_hash_keys_iter;
use vstd::std_specs::iter::IteratorSpec;

verus! {

broadcast use vstd::std_specs::hash::group_hash_axioms;

/// The members found among the first `n` entries of `s`.
pub open spec fn prefix_set(s: Seq<&usize>, n: int) -> Set<usize> {
    Set::new(|k: usize| exists|j: int| 0 <= j < n && j < s.len() && *s[j] == k)
}

/// Taking every entry of `s` gives the set of its elements.
pub proof fn lemma_prefix_set_full(s: Seq<&usize>)
    ensures
        prefix_set(s, s.len() as int) == s.unref().to_set(),
{
    let u = s.unref();
    assert forall|k: usize| prefix_set(s, s.len() as int).contains(k) <==> u.to_set().contains(
        k,
    ) by {
        if prefix_set(s, s.len() as int).contains(k) {
            let j = choose|j: int| 0 <= j < s.len() && j < s.len() && *s[j] == k;
            assert(u[j] == k);
            assert(u.contains(k));
        }
        if u.contains(k) {
            let j = choose|j: int| 0 <= j < u.len() && u[j] == k;
            assert(*s[j] == k);
        }
    }
    assert(prefix_set(s, s.len() as int) =~= u.to_set());
}

/// The view of a hash set is a finite set.
pub proof fn lemma_view_finite(s: &HashSet<usize>)
    ensures
        s@.finite(),
{
    vstd::seq_lib::seq_to_set_is_finite(spec_hash_keys_iter(s).remaining().unref());
}

/// Adds every member of `src` to `dst`.
pub fn union_into(dst: &mut HashSet<usize>, src: &HashSet<usize>)
    ensures
        final(dst)@ == old(dst)@.union(src@),
{
    let ghost start = dst@;
    proof {
        lemma_prefix_set_full(spec_hash_keys_iter(src).remaining());
        assert(prefix_set(spec_hash_keys_iter(src).remaining(), 0) =~= Set::empty());
        assert(start.union(Set::empty()) =~= start);
    }
    for x in it: src.iter()
        invariant
            prefix_set(it.seq(), it.seq().len() as int) == src@,
            dst@ == start.union(prefix_set(it.seq(), it.index())),
    {
        dst.insert(*x);
        proof {
            assert(prefix_set(it.seq(), it.index() + 1) =~= prefix_set(it.seq(), it.index()).insert(
                *x,
            ));
            assert(dst@ =~= start.union(prefix_set(it.seq(), it.index() + 1)));
        }
    }
}

/// A fresh set with the same members as `src`.
pub fn copy_of(src: &HashSet<usize>) -> (out: HashSet<usize>)
    ensures
        out@ == src@,
{
    let mut out: HashSet<usize> = HashSet::new();
    union_into(&mut out, src);
    assert(Set::<usize>::empty().union(src@) =~= src@);
    out
}

/// The members of `a` that are not members of `b`.
pub fn difference(a: &HashSet<usize>, b: &HashSet<usize>) -> (out: HashSet<usize>)
    ensures
        out@ == a@.difference(b@),
{
    let mut out: HashSet<usize> = HashSet::new();
    proof {
        lemma_prefix_set_full(spec_hash_keys_iter(a).remaining());
        assert(prefix_set(spec_hash_keys_iter(a).remaining(), 0) =~= Set::empty());
        assert(Set::<usize>::empty().difference(b@) =~= Set::empty());
    }
    for x in it: a.iter()
        invariant
            prefix_set(it.seq(), it.seq().len() as int) == a@,
            out@ == prefix_set(it.seq(), it.index()).difference(b@),
    {
        if !b.contains(x) {
            out.insert(*x);
        }
        proof {
            assert(prefix_set(it.seq(), it.index() + 1) =~= prefix_set(it.seq(), it.index()).insert(
                *x,
            ));
            assert(out@ =~= prefix_set(it.seq(), it.index() + 1).difference(b@));
        }
    }
    out
}

/// Whether every member of `a` is a member of `b`.
pub fn is_subset(a: &HashSet<usize>, b: &HashSet<usize>) -> (r: bool)
    ensures
        r == a@.subset_of(b@),
{
    let mut r = true;
    proof {
        lemma_prefix_set_full(spec_hash_keys_iter(a).remaining());
        assert(prefix_set(spec_hash_keys_iter(a).remaining(), 0) =~= Set::empty());
    }
    for x in it: a.iter()
        invariant
            prefix_set(it.seq(), it.seq().len() as int) == a@,
            r == prefix_set(it.seq(), it.index()).subset_of(b@),
    {
        proof {
            assert(prefix_set(it.seq(), it.index() + 1) =~= prefix_set(it.seq(), it.index()).insert(
                *x,
            ));
        }
        if !b.contains(x) {
            r = false;
        }
    }
    r
}

/// The set of the entries of `v`.
pub fn from_vec(v: &Vec<usize>) -> (out: HashSet<usize>)
    ensures
        out@ == v@.to_set(),
{
    let mut out: HashSet<usize> = HashSet::new();
    let mut i: usize = 0;
    while i < v.len()
        invariant
            i <= v.len(),
            out@ == v@.take(i as int).to_set(),
        decreases v.len() - i,
    {
        out.insert(v[i]);
        proof {
            assert(v@.take(i + 1) =~= v@.take(i as int).push(v@[i as int]));
            v@.take(i as int).lemma_push_to_set_commute(v@[i as int]);
        }
        i += 1;
    }
    assert(v@.take(v.len() as int) =~= v@);
    out
}

/// The only member of a one-element set, or `None` for a set of any other size.
pub fn sole_member(s: &HashSet<usize>) -> (out: Option<usize>)
    ensures
        out is Some <==> s@.len() == 1,
        out matches Some(c) ==> s@ == set![c],
{
    proof {
        lemma_view_finite(s);
    }
    if s.len() != 1 {
        return None;
    }
    let mut found: Option<usize> = None;
    proof {
        lemma_prefix_set_full(spec_hash_keys_iter(s).remaining());
    }
    for x in it: s.iter()
        invariant
            prefix_set(it.seq(), it.seq().len() as int) == s@,
            s@.len() == 1,
            s@.finite(),
            it.seq().len() == 1,
            it.index() == 0 ==> found is None,
            it.index() == 1 ==> found == Some(*it.seq()[0]),
    {
        found = Some(*x);
    }
    proof {
        let c = found->0;
        assert(s@.contains(c));
        s@.lemma_singleton_size();
        Set::lemma_is_singleton(s@);
        assert(s@ =~= set![c]);
    }
    found
}

} // verus!
