//! Sequences of strings kept in strictly increasing order: the ordered,
//! duplicate-free form of a set of strings.
use vstd::prelude::*;

use crate::text::{
    chars_equal, chars_of, lemma_lex_asymmetric, lemma_lex_irreflexive, lemma_lex_total,
    lemma_lex_transitive, lex_less, lex_lt,
};

verus! {

/// Each string sorts strictly before the next ones, so none occurs twice.
pub open spec fn strictly_sorted(s: Seq<Seq<char>>) -> bool {
    forall|i: int, j: int| 0 <= i < j < s.len() ==> #[trigger] lex_lt(s[i], s[j])
}

/// The members of a finite set of strings, in increasing order.
pub open spec fn sorted_list(set: Set<Seq<char>>) -> Seq<Seq<char>> {
    choose|q: Seq<Seq<char>>| strictly_sorted(q) && q.to_set() == set
}

/// The views of a sequence of strings.
pub open spec fn strs(v: Seq<String>) -> Seq<Seq<char>> {
    v.map_values(|s: String| s@)
}

proof fn lemma_first_not_in_rest(a: Seq<Seq<char>>)
    requires
        strictly_sorted(a),
        a.len() > 0,
    ensures
        !a.drop_first().contains(a[0]),
        strictly_sorted(a.drop_first()),
        a.drop_first().to_set() == a.to_set().remove(a[0]),
{
    let r = a.drop_first();
    if r.contains(a[0]) {
        let k = choose|k: int| 0 <= k < r.len() && r[k] == a[0];
        assert(lex_lt(a[0], a[k + 1]));
        lemma_lex_irreflexive(a[0]);
    }
    assert forall|i: int, j: int| 0 <= i < j < r.len() implies #[trigger] lex_lt(r[i], r[j]) by {
        assert(lex_lt(a[i + 1], a[j + 1]));
    }
    assert forall|x: Seq<char>| r.to_set().contains(x) <==> a.to_set().remove(a[0]).contains(x) by {
        if r.contains(x) {
            let k = choose|k: int| 0 <= k < r.len() && r[k] == x;
            assert(a[k + 1] == x);
        }
        if a.contains(x) && x != a[0] {
            let k = choose|k: int| 0 <= k < a.len() && a[k] == x;
            assert(k != 0);
            assert(r[k - 1] == x);
        }
    }
    assert(r.to_set() =~= a.to_set().remove(a[0]));
}

/// Two strictly increasing sequences with the same members are equal.
pub proof fn lemma_sorted_unique(a: Seq<Seq<char>>, b: Seq<Seq<char>>)
    requires
        strictly_sorted(a),
        strictly_sorted(b),
        a.to_set() == b.to_set(),
    ensures
        a == b,
    decreases a.len(),
{
    if a.len() == 0 {
        if b.len() > 0 {
            assert(b.to_set().contains(b[0]));
            assert(!a.contains(b[0]));
        }
        assert(a =~= b);
    } else {
        assert(a.to_set().contains(a[0]));
        assert(b.contains(a[0]));
        let j = choose|j: int| 0 <= j < b.len() && b[j] == a[0];
        assert(b.to_set().contains(b[0]));
        assert(a.contains(b[0]));
        let i = choose|i: int| 0 <= i < a.len() && a[i] == b[0];
        if a[0] != b[0] {
            assert(i != 0 && j != 0);
            assert(lex_lt(a[0], a[i]));
            assert(lex_lt(b[0], b[j]));
            lemma_lex_asymmetric(a[0], b[0]);
        }
        lemma_first_not_in_rest(a);
        lemma_first_not_in_rest(b);
        lemma_sorted_unique(a.drop_first(), b.drop_first());
        assert(a =~= seq![a[0]] + a.drop_first());
        assert(b =~= seq![b[0]] + b.drop_first());
    }
}

/// A strictly increasing sequence is the sorted list of its members.
pub proof fn lemma_sorted_list_of(q: Seq<Seq<char>>)
    requires
        strictly_sorted(q),
    ensures
        sorted_list(q.to_set()) == q,
{
    let s = q.to_set();
    assert(exists|r: Seq<Seq<char>>| strictly_sorted(r) && r.to_set() == s);
    let r = sorted_list(s);
    lemma_sorted_unique(r, q);
}

/// Adds `x` to a strictly increasing vector of strings unless it is
/// already there, keeping the order.
pub fn insert_sorted(v: &mut Vec<String>, x: String)
    requires
        strictly_sorted(strs(old(v)@)),
    ensures
        strictly_sorted(strs(final(v)@)),
        strs(final(v)@).to_set() == strs(old(v)@).to_set().insert(x@),
{
    let ghost old_s = strs(v@);
    let xc = chars_of(x.as_str());
    let mut i: usize = 0;
    while i < v.len()
        invariant
            v@ == old(v)@,
            old_s == strs(v@),
            strictly_sorted(old_s),
            xc@ == x@,
            i <= v.len(),
            forall|k: int| 0 <= k < i ==> lex_lt(#[trigger] old_s[k], x@),
        ensures
            v@ == old(v)@,
            i <= v.len(),
            forall|k: int| 0 <= k < i ==> lex_lt(#[trigger] old_s[k], x@),
            i < v.len() ==> lex_lt(x@, old_s[i as int]),
        decreases v.len() - i,
    {
        let c = chars_of(v[i].as_str());
        assert(c@ == old_s[i as int]);
        if chars_equal(&c, &xc) {
            proof {
                assert(old_s.contains(x@));
                assert(old_s.to_set().insert(x@) =~= old_s.to_set());
            }
            return;
        }
        if lex_less(&xc, &c) {
            break;
        }
        proof {
            lemma_lex_total(c@, xc@);
        }
        i = i + 1;
    }
    proof {
        assert forall|k: int| i <= k < old_s.len() implies lex_lt(x@, #[trigger] old_s[k]) by {
            if k > i {
                assert(lex_lt(old_s[i as int], old_s[k]));
                lemma_lex_transitive(x@, old_s[i as int], old_s[k]);
            }
        }
    }
    v.insert(i, x);
    proof {
        let n = strs(v@);
        assert(n =~= old_s.insert(i as int, x@));
        assert forall|a: int, b: int| 0 <= a < b < n.len() implies #[trigger] lex_lt(n[a], n[b]) by {
            if b < i {
                assert(n[a] == old_s[a] && n[b] == old_s[b]);
            } else if b == i {
                assert(n[a] == old_s[a]);
            } else if a == i {
                assert(n[b] == old_s[b - 1]);
            } else if a < i {
                assert(n[a] == old_s[a] && n[b] == old_s[b - 1]);
                assert(lex_lt(old_s[a], x@));
                assert(lex_lt(x@, old_s[b - 1]));
                lemma_lex_transitive(old_s[a], x@, old_s[b - 1]);
            } else {
                assert(n[a] == old_s[a - 1] && n[b] == old_s[b - 1]);
            }
        }
        assert forall|y: Seq<char>| n.to_set().contains(y) <==> old_s.to_set().insert(x@).contains(
            y,
        ) by {
            if n.contains(y) {
                let k = choose|k: int| 0 <= k < n.len() && n[k] == y;
                if k < i {
                    assert(old_s[k] == y);
                } else if k > i {
                    assert(old_s[k - 1] == y);
                }
            }
            if old_s.contains(y) {
                let k = choose|k: int| 0 <= k < old_s.len() && old_s[k] == y;
                if k < i {
                    assert(n[k] == y);
                } else {
                    assert(n[k + 1] == y);
                }
            }
            if y == x@ {
                assert(n[i as int] == y);
            }
        }
        assert(n.to_set() =~= old_s.to_set().insert(x@));
    }
}

} // verus!
