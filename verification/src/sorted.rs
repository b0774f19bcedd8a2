//! Sorted sets of strings: the sorted, duplicate-free lists that the router
//! builds its address lists as.

use vstd::prelude::*;
use crate::text::chars_of;

verus! {

/// `a` comes before `b` in lexicographic order of their characters, which
/// for UTF-8 strings is the byte order that `String`'s `Ord` uses.
pub open spec fn lex_lt(a: Seq<char>, b: Seq<char>) -> bool
    decreases a.len(),
{
    if a.len() == 0 {
        b.len() > 0
    } else if b.len() == 0 {
        false
    } else if a[0] != b[0] {
        (a[0] as u32) < (b[0] as u32)
    } else {
        lex_lt(a.drop_first(), b.drop_first())
    }
}

/// The characters of each string of `v`.
pub open spec fn strs(v: Seq<String>) -> Seq<Seq<char>> {
    v.map_values(|s: String| s@)
}

/// Every element of `q` comes strictly before every later one.
pub open spec fn strictly_sorted(q: Seq<Seq<char>>) -> bool {
    forall|i: int, j: int| 0 <= i < j < q.len() ==> lex_lt(#[trigger] q[i], #[trigger] q[j])
}

/// The elements of the finite set `s` in increasing order, each once.
pub open spec fn sorted_of(s: Set<Seq<char>>) -> Seq<Seq<char>> {
    choose|q: Seq<Seq<char>>| strictly_sorted(q) && q.to_set() == s
}

pub proof fn lemma_lex_irrefl(a: Seq<char>)
    ensures
        !lex_lt(a, a),
    decreases a.len(),
{
    if a.len() > 0 {
        lemma_lex_irrefl(a.drop_first());
    }
}

pub proof fn lemma_lex_asym(a: Seq<char>, b: Seq<char>)
    requires
        lex_lt(a, b),
    ensures
        !lex_lt(b, a),
    decreases a.len(),
{
    if a.len() > 0 && b.len() > 0 && a[0] == b[0] {
        lemma_lex_asym(a.drop_first(), b.drop_first());
    }
}

pub proof fn lemma_lex_total(a: Seq<char>, b: Seq<char>)
    requires
        a != b,
    ensures
        lex_lt(a, b) || lex_lt(b, a),
    decreases a.len(),
{
    if a.len() == 0 {
        assert(b.len() > 0) by {
            if b.len() == 0 {
                assert(a =~= b);
            }
        }
    } else if b.len() == 0 {
    } else if a[0] != b[0] {
        if (a[0] as u32) == (b[0] as u32) {
            vstd::utf8::char_u32_cast(a[0], a[0] as u32);
            vstd::utf8::char_u32_cast(b[0], b[0] as u32);
        }
    } else {
        if a.drop_first() == b.drop_first() {
            assert(a =~= seq![a[0]] + a.drop_first());
            assert(b =~= seq![b[0]] + b.drop_first());
        }
        lemma_lex_total(a.drop_first(), b.drop_first());
    }
}

pub proof fn lemma_lex_trans(a: Seq<char>, b: Seq<char>, c: Seq<char>)
    requires
        lex_lt(a, b),
        lex_lt(b, c),
    ensures
        lex_lt(a, c),
    decreases a.len(),
{
    if a.len() > 0 && b.len() > 0 && c.len() > 0 && a[0] == b[0] && b[0] == c[0] {
        lemma_lex_trans(a.drop_first(), b.drop_first(), c.drop_first());
    }
}

/// Two strictly sorted sequences with the same elements are equal.
pub proof fn lemma_sorted_unique(a: Seq<Seq<char>>, b: Seq<Seq<char>>)
    requires
        strictly_sorted(a),
        strictly_sorted(b),
        a.to_set() == b.to_set(),
    ensures
        a == b,
    decreases a.len(),
{
    if a.len() == 0 {
        if b.len() > 0 {
            assert(b.to_set().contains(b[0]));
        }
        assert(a =~= b);
    } else {
        assert(a.to_set().contains(a[0]));
        assert(b.len() > 0);
        assert(b.to_set().contains(b[0]));
        let j = choose|j: int| 0 <= j < b.len() && b[j] == a[0];
        let i = choose|i: int| 0 <= i < a.len() && a[i] == b[0];
        if j > 0 {
            assert(lex_lt(b[0], b[j]));
            if i > 0 {
                assert(lex_lt(a[0], a[i]));
                lemma_lex_asym(a[0], b[0]);
            } else {
                lemma_lex_irrefl(a[0]);
            }
        }
        assert(a[0] == b[0]);
        let a1 = a.drop_first();
        let b1 = b.drop_first();
        assert forall|x: Seq<char>| a1.to_set().contains(x) <==> b1.to_set().contains(x) by {
            if a1.to_set().contains(x) {
                let k = choose|k: int| 0 <= k < a1.len() && a1[k] == x;
                assert(a[k + 1] == x);
                assert(lex_lt(a[0], x));
                lemma_lex_irrefl(x);
                assert(a.to_set().contains(x));
                let m = choose|m: int| 0 <= m < b.len() && b[m] == x;
                assert(m != 0);
                assert(b1[m - 1] == x);
            }
            if b1.to_set().contains(x) {
                let k = choose|k: int| 0 <= k < b1.len() && b1[k] == x;
                assert(b[k + 1] == x);
                assert(lex_lt(b[0], x));
                lemma_lex_irrefl(x);
                assert(b.to_set().contains(x));
                let m = choose|m: int| 0 <= m < a.len() && a[m] == x;
                assert(m != 0);
                assert(a1[m - 1] == x);
            }
        }
        assert(a1.to_set() =~= b1.to_set());
        lemma_sorted_unique(a1, b1);
        assert(a =~= seq![a[0]] + a1);
        assert(b =~= seq![b[0]] + b1);
    }
}

/// A strictly sorted sequence is the sorted listing of its own elements.
pub proof fn lemma_is_sorted_of(q: Seq<Seq<char>>)
    requires
        strictly_sorted(q),
    ensures
        q == sorted_of(q.to_set()),
{
    let p = sorted_of(q.to_set());
    assert(strictly_sorted(p) && p.to_set() == q.to_set());
    lemma_sorted_unique(p, q);
}

/// Whether `a` comes before `b` (see [`lex_lt`]).
pub fn lex_less(a: &Vec<char>, b: &Vec<char>) -> (r: bool)
    ensures
        r == lex_lt(a@, b@),
{
    let mut i: usize = 0;
    assert(a@.skip(0) =~= a@);
    assert(b@.skip(0) =~= b@);
    while i < a.len() && i < b.len() && a[i] == b[i]
        invariant
            i <= a@.len(),
            i <= b@.len(),
            lex_lt(a@, b@) == lex_lt(a@.skip(i as int), b@.skip(i as int)),
        decreases a@.len() - i,
    {
        assert(a@.skip(i as int).drop_first() =~= a@.skip(i + 1));
        assert(b@.skip(i as int).drop_first() =~= b@.skip(i + 1));
        assert(a@.skip(i as int)[0] == a@[i as int]);
        assert(b@.skip(i as int)[0] == b@[i as int]);
        i = i + 1;
    }
    if i < a.len() && i < b.len() {
        assert(a@.skip(i as int)[0] == a@[i as int]);
        assert(b@.skip(i as int)[0] == b@[i as int]);
        (a[i] as u32) < (b[i] as u32)
    } else {
        i == a.len() && i < b.len()
    }
}

/// Adds `s` to the sorted set `out`, unless it is already there.
pub fn insert_sorted(out: &mut Vec<String>, s: String)
    requires
        strictly_sorted(strs(old(out)@)),
    ensures
        strictly_sorted(strs(final(out)@)),
        strs(final(out)@).to_set() == strs(old(out)@).to_set().insert(s@),
{
    let sc = chars_of(s.as_str());
    let mut p: usize = 0;
    let n = out.len();
    loop
        invariant
            n == out@.len(),
            p <= n,
            sc@ == s@,
            strictly_sorted(strs(out@)),
            forall|j: int| 0 <= j < p ==> lex_lt(#[trigger] strs(out@)[j], s@),
        ensures
            p <= n,
            forall|j: int| 0 <= j < p ==> lex_lt(#[trigger] strs(out@)[j], s@),
            p < n ==> !lex_lt(strs(out@)[p as int], s@),
        decreases n - p,
    {
        if p == n {
            break;
        }
        let oc = chars_of(out[p].as_str());
        if !lex_less(&oc, &sc) {
            break;
        }
        p = p + 1;
    }
    let ghost old_strs = strs(out@);
    if p < n {
        let oc = chars_of(out[p].as_str());
        if crate::text::str_eq(out[p].as_str(), s.as_str()) {
            assert(old_strs[p as int] == s@);
            assert(old_strs.to_set().insert(s@) =~= old_strs.to_set());
            return;
        }
        proof {
            lemma_lex_total(old_strs[p as int], s@);
        }
    }
    out.insert(p, s);
    let ghost new_strs = strs(out@);
    assert(new_strs =~= old_strs.insert(p as int, sc@));
    assert forall|i: int, j: int| 0 <= i < j < new_strs.len() implies lex_lt(
        #[trigger] new_strs[i],
        #[trigger] new_strs[j],
    ) by {
        if j < p {
        } else if j == p {
        } else if i < p {
            assert(lex_lt(old_strs[i], s@));
            assert(lex_lt(s@, old_strs[p as int]));
            if i < p && j - 1 > p {
                assert(lex_lt(old_strs[p as int], old_strs[j - 1]));
                lemma_lex_trans(s@, old_strs[p as int], old_strs[j - 1]);
            }
            lemma_lex_trans(old_strs[i], s@, old_strs[j - 1]);
        } else if i == p {
            if j - 1 > p {
                assert(lex_lt(old_strs[p as int], old_strs[j - 1]));
                lemma_lex_trans(s@, old_strs[p as int], old_strs[j - 1]);
            }
        } else {
            assert(new_strs[i] == old_strs[i - 1]);
            assert(new_strs[j] == old_strs[j - 1]);
        }
    }
    assert forall|x: Seq<char>| new_strs.to_set().contains(x) <==> old_strs.to_set().insert(
        s@,
    ).contains(x) by {
        if new_strs.to_set().contains(x) {
            let k = choose|k: int| 0 <= k < new_strs.len() && new_strs[k] == x;
            if k < p {
                assert(old_strs[k] == x);
            } else if k > p {
                assert(old_strs[k - 1] == x);
            }
        }
        if old_strs.to_set().contains(x) {
            let k = choose|k: int| 0 <= k < old_strs.len() && old_strs[k] == x;
            if k < p {
                assert(new_strs[k] == x);
            } else {
                assert(new_strs[k + 1] == x);
            }
        }
        if x == s@ {
            assert(new_strs[p as int] == x);
        }
    }
    assert(new_strs.to_set() =~= old_strs.to_set().insert(s@));
}

/// How many leading elements of `q` come before `x`.
spec fn count_before(q: Seq<Seq<char>>, x: Seq<char>) -> nat
    decreases q.len(),
{
    if q.len() == 0 {
        0
    } else if lex_lt(q[0], x) {
        1 + count_before(q.drop_first(), x)
    } else {
        0
    }
}

proof fn lemma_count_before(q: Seq<Seq<char>>, x: Seq<char>)
    ensures
        count_before(q, x) <= q.len(),
        forall|j: int| 0 <= j < count_before(q, x) ==> lex_lt(#[trigger] q[j], x),
        count_before(q, x) < q.len() ==> !lex_lt(q[count_before(q, x) as int], x),
    decreases q.len(),
{
    if q.len() > 0 && lex_lt(q[0], x) {
        lemma_count_before(q.drop_first(), x);
        assert forall|j: int| 0 <= j < count_before(q, x) implies lex_lt(#[trigger] q[j], x) by {
            if j > 0 {
                assert(q[j] == q.drop_first()[j - 1]);
            }
        }
        if count_before(q, x) < q.len() {
            assert(q[count_before(q, x) as int] == q.drop_first()[count_before(q.drop_first(), x) as int]);
        }
    }
}

/// Every finite set of strings has a sorted listing: [`sorted_of`] lists
/// its elements in increasing order, each once.
pub proof fn lemma_sorted_of_finite(s: Set<Seq<char>>)
    requires
        s.finite(),
    ensures
        strictly_sorted(sorted_of(s)),
        sorted_of(s).to_set() == s,
    decreases s.len(),
{
    if s.len() == 0 {
        let e = Seq::<Seq<char>>::empty();
        assert(s =~= Set::<Seq<char>>::empty());
        assert(e.to_set() =~= s);
        assert(strictly_sorted(e) && e.to_set() == s);
    } else {
        let x = s.choose();
        let rest = s.remove(x);
        lemma_sorted_of_finite(rest);
        let q = sorted_of(rest);
        lemma_count_before(q, x);
        let k = count_before(q, x) as int;
        let q2 = q.take(k).push(x) + q.skip(k);
        assert(q2.len() == q.len() + 1);
        assert forall|i: int| 0 <= i < q2.len() implies #[trigger] q2[i] == (if i < k {
            q[i]
        } else if i == k {
            x
        } else {
            q[i - 1]
        }) by {}
        assert(!q.to_set().contains(x));
        if k < q.len() {
            assert(q.to_set().contains(q[k]));
            lemma_lex_total(q[k], x);
        }
        assert forall|i: int, j: int| 0 <= i < j < q2.len() implies lex_lt(#[trigger] q2[i], #[trigger] q2[j]) by {
            if j < k {
            } else if j == k {
            } else if i < k {
                assert(lex_lt(q[i], q[j - 1]));
            } else if i == k {
                if j - 1 > k {
                    assert(lex_lt(q[k], q[j - 1]));
                    lemma_lex_trans(x, q[k], q[j - 1]);
                }
            } else {
                assert(lex_lt(q[i - 1], q[j - 1]));
            }
        }
        assert forall|y: Seq<char>| q2.to_set().contains(y) <==> s.contains(y) by {
            if q2.to_set().contains(y) {
                let i = choose|i: int| 0 <= i < q2.len() && q2[i] == y;
                if i < k {
                    assert(q.to_set().contains(q[i]));
                } else if i > k {
                    assert(q.to_set().contains(q[i - 1]));
                }
            }
            if s.contains(y) {
                if y == x {
                    assert(q2[k] == y);
                } else {
                    assert(rest.contains(y));
                    assert(q.to_set().contains(y));
                    let i = choose|i: int| 0 <= i < q.len() && q[i] == y;
                    if i < k {
                        assert(q2[i] == y);
                    } else {
                        assert(q2[i + 1] == y);
                    }
                }
            }
        }
        assert(q2.to_set() =~= s);
        assert(strictly_sorted(q2) && q2.to_set() == s);
    }
}

} // verus!
