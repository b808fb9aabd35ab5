//! Building blocks of the rendering: decimal numbers, runs of spaces and
//! lists of column identifiers, and the ascending order of a column set.
use crate::colset::{lemma_prefix_set_full, prefix_set};
use std::collections::HashSet;
use vstd::prelude::*;
use vstd::std_specs::hash::spec_hash_keys_iter;
use vstd::std_specs::iter::IteratorSpec;
use vstd::string::StringExecFns;

verus! {

broadcast use vstd::std_specs::hash::group_hash_axioms;

/// The character of the decimal digit `d`.
pub open spec fn digit(d: nat) -> char {
    if d == 0 {
        '0'
    } else if d == 1 {
        '1'
    } else if d == 2 {
        '2'
    } else if d == 3 {
        '3'
    } else if d == 4 {
        '4'
    } else if d == 5 {
        '5'
    } else if d == 6 {
        '6'
    } else if d == 7 {
        '7'
    } else if d == 8 {
        '8'
    } else {
        '9'
    }
}

/// The decimal numeral of `n`, without leading zeros.
pub open spec fn decimal(n: nat) -> Seq<char>
    decreases n,
{
    if n < 10 {
        seq![digit(n)]
    } else {
        decimal(n / 10).push(digit(n % 10))
    }
}

/// The decimal numeral of `v`, with a minus sign where `v` is negative.
pub open spec fn signed_decimal(v: int) -> Seq<char> {
    if v < 0 {
        seq!['-'] + decimal((-v) as nat)
    } else {
        decimal(v as nat)
    }
}

/// A run of `n` spaces.
pub open spec fn spaces(n: nat) -> Seq<char> {
    Seq::new(n, |i: int| ' ')
}

/// The numerals of `ids`, separated by a comma and a space.
pub open spec fn id_list(ids: Seq<usize>) -> Seq<char>
    decreases ids.len(),
{
    if ids.len() == 0 {
        Seq::empty()
    } else if ids.len() == 1 {
        decimal(ids[0] as nat)
    } else {
        id_list(ids.drop_last()) + seq![',', ' '] + decimal(ids.last() as nat)
    }
}

/// Whether each entry of `q` is less than the next.
pub open spec fn increasing(q: Seq<usize>) -> bool {
    forall|i: int, j: int| 0 <= i < j < q.len() ==> q[i] < q[j]
}

/// The members of `s` in ascending order.
pub open spec fn ascending(s: Set<usize>) -> Seq<usize> {
    choose|q: Seq<usize>| increasing(q) && q.to_set() == s
}

/// Two ascending lists with the same members are the same list.
pub proof fn lemma_increasing_unique(a: Seq<usize>, b: Seq<usize>)
    requires
        increasing(a),
        increasing(b),
        a.to_set() == b.to_set(),
    ensures
        a == b,
    decreases a.len(),
{
    if a.len() == 0 {
        if b.len() > 0 {
            assert(b.to_set().contains(b[0]));
            assert(a.contains(b[0]));
        }
        assert(a =~= b);
    } else {
        let x = a.last();
        assert(a.to_set().contains(x));
        assert(b.contains(x));
        let k = choose|k: int| 0 <= k < b.len() && b[k] == x;
        if k < b.len() - 1 {
            let y = b.last();
            assert(b.to_set().contains(y));
            assert(a.contains(y));
            let m = choose|m: int| 0 <= m < a.len() && a[m] == y;
            assert(false);
        }
        let a1 = a.drop_last();
        let b1 = b.drop_last();
        assert forall|c: usize| a1.to_set().contains(c) <==> b1.to_set().contains(c) by {
            if a1.contains(c) {
                let i = choose|i: int| 0 <= i < a1.len() && a1[i] == c;
                assert(a[i] == c);
                assert(a.to_set().contains(c));
                assert(b.contains(c));
                let j = choose|j: int| 0 <= j < b.len() && b[j] == c;
                assert(j < b.len() - 1);
                assert(b1[j] == c);
            }
            if b1.contains(c) {
                let i = choose|i: int| 0 <= i < b1.len() && b1[i] == c;
                assert(b[i] == c);
                assert(b.to_set().contains(c));
                assert(a.contains(c));
                let j = choose|j: int| 0 <= j < a.len() && a[j] == c;
                assert(j < a.len() - 1);
                assert(a1[j] == c);
            }
        }
        assert(a1.to_set() =~= b1.to_set());
        lemma_increasing_unique(a1, b1);
        assert(a =~= a1.push(x));
        assert(b =~= b1.push(x));
    }
}

/// The text of one decimal digit.
fn digit_text(d: u64) -> (s: &'static str)
    requires
        d < 10,
    ensures
        s@ == seq![digit(d as nat)],
{
    proof {
        reveal_strlit("0");
        reveal_strlit("1");
        reveal_strlit("2");
        reveal_strlit("3");
        reveal_strlit("4");
        reveal_strlit("5");
        reveal_strlit("6");
        reveal_strlit("7");
        reveal_strlit("8");
        reveal_strlit("9");
    }
    let s = if d == 0 {
        "0"
    } else if d == 1 {
        "1"
    } else if d == 2 {
        "2"
    } else if d == 3 {
        "3"
    } else if d == 4 {
        "4"
    } else if d == 5 {
        "5"
    } else if d == 6 {
        "6"
    } else if d == 7 {
        "7"
    } else if d == 8 {
        "8"
    } else {
        "9"
    };
    assert(s@ =~= seq![digit(d as nat)]);
    s
}

/// Appends the decimal numeral of `n` to `out`.
pub fn push_decimal(out: &mut String, n: u64)
    ensures
        final(out)@ == old(out)@ + decimal(n as nat),
    decreases n,
{
    if n >= 10 {
        push_decimal(out, n / 10);
    }
    out.append(digit_text(n % 10));
    assert(out@ =~= old(out)@ + decimal(n as nat));
}

/// Appends the decimal numeral of the identifier `id` to `out`.
pub fn push_id(out: &mut String, id: usize)
    ensures
        final(out)@ == old(out)@ + decimal(id as nat),
{
    push_decimal(out, id as u64);
}

/// Appends the decimal numeral of `v` to `out`, with its sign.
pub fn push_signed(out: &mut String, v: i64)
    ensures
        final(out)@ == old(out)@ + signed_decimal(v as int),
{
    if v < 0 {
        let magnitude: u64 = (-(v + 1)) as u64 + 1;
        out.append("-");
        proof {
            reveal_strlit("-");
            assert("-"@ =~= seq!['-']);
        }
        push_decimal(out, magnitude);
        assert(out@ =~= old(out)@ + signed_decimal(v as int));
    } else {
        push_decimal(out, v as u64);
    }
}

/// Appends `n` spaces to `out`.
pub fn push_spaces(out: &mut String, n: usize)
    ensures
        final(out)@ == old(out)@ + spaces(n as nat),
{
    let mut i: usize = 0;
    proof {
        assert(out@ =~= old(out)@ + spaces(0));
    }
    while i < n
        invariant
            i <= n,
            out@ == old(out)@ + spaces(i as nat),
        decreases n - i,
    {
        out.append(" ");
        proof {
            reveal_strlit(" ");
            assert(" "@ =~= seq![' ']);
            assert(out@ =~= old(out)@ + spaces((i + 1) as nat));
        }
        i += 1;
    }
}

/// Appends the numerals of `ids` to `out`, separated by a comma and a space.
pub fn push_id_list(out: &mut String, ids: &Vec<usize>)
    ensures
        final(out)@ == old(out)@ + id_list(ids@),
{
    let mut i: usize = 0;
    proof {
        assert(out@ =~= old(out)@ + id_list(ids@.take(0)));
    }
    while i < ids.len()
        invariant
            i <= ids.len(),
            out@ == old(out)@ + id_list(ids@.take(i as int)),
        decreases ids.len() - i,
    {
        if i > 0 {
            out.append(", ");
        }
        push_id(out, ids[i]);
        proof {
            reveal_strlit(", ");
            assert(", "@ =~= seq![',', ' ']);
            let t = ids@.take(i + 1);
            assert(t.drop_last() =~= ids@.take(i as int));
            assert(t.last() == ids@[i as int]);
            if i == 0 {
                assert(id_list(ids@.take(0)) =~= Seq::<char>::empty());
                assert(out@ =~= old(out)@ + id_list(t));
            } else {
                assert(out@ =~= old(out)@ + id_list(t));
            }
        }
        i += 1;
    }
    proof {
        assert(ids@.take(ids.len() as int) =~= ids@);
    }
}

/// Puts `x` at its place in the ascending list `v`, unless it is there.
fn insert_ascending(v: &mut Vec<usize>, x: usize)
    requires
        increasing(old(v)@),
    ensures
        increasing(final(v)@),
        final(v)@.to_set() == old(v)@.to_set().insert(x),
{
    let mut i: usize = 0;
    while i < v.len() && v[i] < x
        invariant
            i <= v.len(),
            v@ == old(v)@,
            increasing(v@),
            forall|j: int| 0 <= j < i ==> v@[j] < x,
        decreases v.len() - i,
    {
        i += 1;
    }
    if i < v.len() && v[i] == x {
        proof {
            assert(v@.to_set().contains(x));
            assert(v@.to_set() =~= old(v)@.to_set().insert(x));
        }
        return ;
    }
    let ghost before = v@;
    v.insert(i, x);
    proof {
        let after = v@;
        assert(after == before.insert(i as int, x));
        assert forall|a: int, b: int| 0 <= a < b < after.len() implies after[a] < after[b] by {
            if a < i && b < i {
                assert(after[a] == before[a] && after[b] == before[b]);
            } else if a < i && b == i {
                assert(after[a] == before[a]);
            } else if a < i && b > i {
                assert(after[a] == before[a] && after[b] == before[b - 1]);
            } else if a == i {
                assert(after[b] == before[b - 1]);
                assert(before[i as int] <= before[b - 1]);
            } else {
                assert(after[a] == before[a - 1] && after[b] == before[b - 1]);
            }
        }
        assert forall|c: usize| after.to_set().contains(c) <==> before.to_set().insert(x).contains(
            c,
        ) by {
            if after.contains(c) {
                let k = choose|k: int| 0 <= k < after.len() && after[k] == c;
                if k < i {
                    assert(before[k] == c);
                } else if k > i {
                    assert(before[k - 1] == c);
                }
            }
            if before.contains(c) {
                let k = choose|k: int| 0 <= k < before.len() && before[k] == c;
                if k < i {
                    assert(after[k] == c);
                } else {
                    assert(after[k + 1] == c);
                }
            }
            if c == x {
                assert(after[i as int] == c);
            }
        }
        assert(after.to_set() =~= before.to_set().insert(x));
    }
}

/// The members of `s` in ascending order.
pub fn sorted_members(s: &HashSet<usize>) -> (v: Vec<usize>)
    ensures
        v@ == ascending(s@),
        increasing(v@),
        v@.to_set() == s@,
{
    let mut v: Vec<usize> = Vec::new();
    proof {
        lemma_prefix_set_full(spec_hash_keys_iter(s).remaining());
        assert(prefix_set(spec_hash_keys_iter(s).remaining(), 0) =~= Set::empty());
        assert(v@.to_set() =~= Set::empty());
    }
    for x in it: s.iter()
        invariant
            prefix_set(it.seq(), it.seq().len() as int) == s@,
            increasing(v@),
            v@.to_set() == prefix_set(it.seq(), it.index()),
    {
        insert_ascending(&mut v, *x);
        proof {
            assert(prefix_set(it.seq(), it.index() + 1) =~= prefix_set(it.seq(), it.index()).insert(
                *x,
            ));
        }
    }
    proof {
        lemma_increasing_unique(v@, ascending(s@));
    }
    v
}

} // verus!
