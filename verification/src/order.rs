//! Ordering file names as paths in one directory order them.
//!
//! Two paths in the same directory compare by their last component, byte by
//! byte; for UTF-8 text that is the order of the characters' code points.
use vstd::prelude::*;
use crate::text::chars_of;

verus! {

/// Code-point lexicographic order: `a` sorts no later than `b`.
pub open spec fn lex_le(a: Seq<char>, b: Seq<char>) -> bool
    decreases a.len(),
{
    if a.len() == 0 {
        true
    } else if b.len() == 0 {
        false
    } else if (a[0] as u32) < (b[0] as u32) {
        true
    } else if (a[0] as u32) > (b[0] as u32) {
        false
    } else {
        lex_le(a.drop_first(), b.drop_first())
    }
}

/// Every earlier element sorts no later than every later one.
pub open spec fn sorted(s: Seq<Seq<char>>) -> bool {
    forall|i: int, j: int| 0 <= i < j < s.len() ==> lex_le(#[trigger] s[i], #[trigger] s[j])
}

pub open spec fn views(v: Seq<String>) -> Seq<Seq<char>> {
    v.map_values(|s: String| s@)
}

pub proof fn lemma_lex_total(a: Seq<char>, b: Seq<char>)
    ensures
        lex_le(a, b) || lex_le(b, a),
    decreases a.len(),
{
    if a.len() > 0 && b.len() > 0 && a[0] as u32 == b[0] as u32 {
        lemma_lex_total(a.drop_first(), b.drop_first());
    }
}

pub proof fn lemma_lex_trans(a: Seq<char>, b: Seq<char>, c: Seq<char>)
    requires
        lex_le(a, b),
        lex_le(b, c),
    ensures
        lex_le(a, c),
    decreases a.len(),
{
    if a.len() > 0 && b.len() > 0 && c.len() > 0 {
        if a[0] as u32 == b[0] as u32 && b[0] as u32 == c[0] as u32 {
            lemma_lex_trans(a.drop_first(), b.drop_first(), c.drop_first());
        }
    }
}

/// Whether `a` sorts strictly before `b`.
fn lex_less(a: &Vec<char>, b: &Vec<char>) -> (r: bool)
    ensures
        r == !lex_le(b@, a@),
{
    let n = a.len();
    let m = b.len();
    let mut i: usize = 0;
    assert(a@.skip(0) =~= a@);
    assert(b@.skip(0) =~= b@);
    while i < n && i < m
        invariant
            n == a@.len(),
            m == b@.len(),
            0 <= i <= n,
            i <= m,
            forall|k: int| 0 <= k < i ==> a@[k] as u32 == b@[k] as u32,
            lex_le(b@, a@) == lex_le(b@.skip(i as int), a@.skip(i as int)),
        decreases n - i,
    {
        let x = a[i] as u32;
        let y = b[i] as u32;
        assert(b@.skip(i as int)[0] == b@[i as int]);
        assert(a@.skip(i as int)[0] == a@[i as int]);
        if x < y {
            return true;
        }
        if x > y {
            return false;
        }
        assert(b@.skip(i as int).drop_first() =~= b@.skip(i + 1));
        assert(a@.skip(i as int).drop_first() =~= a@.skip(i + 1));
        i = i + 1;
    }
    // One ran out: a proper prefix sorts first.
    if i == m {
        assert(b@.skip(i as int).len() == 0);
    } else {
        assert(a@.skip(i as int).len() == 0);
        assert(b@.skip(i as int).len() > 0);
    }
    n < m
}

proof fn lemma_insert_multiset(s: Seq<Seq<char>>, p: int, x: Seq<char>)
    requires
        0 <= p <= s.len(),
    ensures
        s.insert(p, x).to_multiset() =~= s.to_multiset().insert(x),
{
    broadcast use vstd::seq_lib::group_to_multiset_ensures;

    let t = s.insert(p, x);
    assert(t.remove(p) =~= s);
    assert(t[p] == x);
    assert(t.to_multiset().count(x) > 0) by {
        assert(t.contains(x));
    }
}

/// The names sorted by `lex_le`: the same names, each as often, earliest first.
pub fn sort_names(names: Vec<String>) -> (r: Vec<String>)
    ensures
        sorted(views(r@)),
        views(r@).to_multiset() == views(names@).to_multiset(),
{
    broadcast use vstd::seq_lib::group_to_multiset_ensures;

    let n = names.len();
    let mut out: Vec<String> = Vec::new();
    let mut i: usize = 0;
    assert(views(names@).take(0) =~= Seq::<Seq<char>>::empty());
    assert(views(out@) =~= Seq::<Seq<char>>::empty());
    while i < n
        invariant
            n == names@.len(),
            0 <= i <= n,
            sorted(views(out@)),
            views(out@).to_multiset() == views(names@).take(i as int).to_multiset(),
        decreases n - i,
    {
        let name = names[i].clone();
        let key = chars_of(name.as_str());
        let m = out.len();
        let mut p: usize = 0;
        // The first position whose name sorts strictly after this one.
        while p < m
            invariant
                m == out@.len(),
                0 <= p <= m,
                key@ == name@,
                forall|k: int| 0 <= k < p ==> lex_le(#[trigger] views(out@)[k], name@),
            ensures
                0 <= p <= m,
                forall|k: int| 0 <= k < p ==> lex_le(#[trigger] views(out@)[k], name@),
                p < m ==> !lex_le(views(out@)[p as int], name@),
            decreases m - p,
        {
            let other = chars_of(out[p].as_str());
            assert(views(out@)[p as int] == out@[p as int]@);
            if lex_less(&key, &other) {
                break;
            }
            p = p + 1;
        }
        let ghost before = views(out@);
        proof {
            // Everything from `p` on sorts after the new name.
            if p < m {
                assert forall|k: int| p <= k < m implies lex_le(name@, #[trigger] before[k]) by {
                    assert(!lex_le(before[p as int], name@));
                    lemma_lex_total(before[p as int], name@);
                    if k > p {
                        assert(lex_le(before[p as int], before[k]));
                        lemma_lex_trans(name@, before[p as int], before[k]);
                    }
                }
            }
        }
        out.insert(p, name);
        proof {
            let after = views(out@);
            assert(after =~= before.insert(p as int, names@[i as int]@));
            assert forall|a: int, b: int| 0 <= a < b < after.len() implies lex_le(
                #[trigger] after[a],
                #[trigger] after[b],
            ) by {
                if b < p {
                    assert(lex_le(before[a], before[b]));
                } else if b == p {
                    assert(lex_le(before[a], name@));
                } else if a < p {
                    assert(lex_le(before[a], name@));
                    assert(lex_le(name@, before[b - 1]));
                    lemma_lex_trans(before[a], name@, before[b - 1]);
                } else if a == p {
                    assert(lex_le(name@, before[b - 1]));
                } else {
                    assert(lex_le(before[a - 1], before[b - 1]));
                }
            }
            let x = names@[i as int]@;
            lemma_insert_multiset(before, p as int, x);
            assert(views(names@)[i as int] == x);
            assert(views(names@).take(i + 1) =~= views(names@).take(i as int).push(x));
            vstd::seq_lib::to_multiset_build(views(names@).take(i as int), x);
            assert(views(names@).take(i as int).push(x).to_multiset() =~= views(names@).take(
                i as int,
            ).to_multiset().insert(x));
        }
        i = i + 1;
    }
    assert(views(names@).take(n as int) =~= views(names@));
    out
}

} // verus!
