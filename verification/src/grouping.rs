//! Grouping rows by a text key: the distinct keys in order, the group of
//! each row, and per-group counts and maxima.
use vstd::prelude::*;
use crate::text::{
    to_chars, from_chars, chars_eq, vecs_view, text_lt, text_lt_exec, lemma_text_lt_total,
    lemma_text_lt_transitive, lemma_text_lt_irreflexive,
};

verus! {

pub open spec fn texts(v: Seq<String>) -> Seq<Seq<char>> {
    v.map_values(|s: String| s@)
}

/// Texts in strictly increasing order (so none twice).
pub open spec fn strictly_sorted(v: Seq<Seq<char>>) -> bool {
    forall|i: int, j: int| 0 <= i < j < v.len() ==> text_lt(#[trigger] v[i], #[trigger] v[j])
}

/// How rows fall into groups: the distinct keys in increasing order, and
/// for each row the index of its key.
pub open spec fn is_grouping(keys: Seq<Seq<char>>, groups: Seq<Seq<char>>, group_of: Seq<usize>) -> bool {
    &&& strictly_sorted(groups)
    &&& forall|k: Seq<char>| groups.contains(k) <==> keys.contains(k)
    &&& group_of.len() == keys.len()
    &&& forall|i: int|
        0 <= i < keys.len() ==> (#[trigger] group_of[i]) < groups.len() && groups[group_of[i] as int]
            == keys[i]
}

fn insert_key(set: &mut Vec<Vec<char>>, key: &[char])
    requires
        strictly_sorted(vecs_view(old(set)@)),
    ensures
        strictly_sorted(vecs_view(final(set)@)),
        forall|t: Seq<char>|
            vecs_view(final(set)@).contains(t) <==> (vecs_view(old(set)@).contains(t) || t
                == key@),
{
    let ghost old_v = vecs_view(set@);
    let mut p: usize = 0;
    while p < set.len() && text_lt_exec(set[p].as_slice(), key)
        invariant
            p <= set@.len(),
            vecs_view(set@) == old_v,
            strictly_sorted(old_v),
            forall|i: int| 0 <= i < p ==> text_lt(#[trigger] old_v[i], key@),
        decreases set.len() - p,
    {
        p = p + 1;
    }
    if p < set.len() && chars_eq(set[p].as_slice(), key) {
        proof {
            assert(old_v[p as int] == key@);
            assert forall|t: Seq<char>| vecs_view(set@).contains(t) <==> (old_v.contains(t) || t == key@) by {
                if t == key@ {
                    assert(old_v.contains(t));
                }
            }
        }
        return;
    }
    proof {
        if p < set@.len() {
            lemma_text_lt_total(old_v[p as int], key@);
        }
    }
    let mut k: Vec<char> = Vec::new();
    crate::text::append_chars(&mut k, key);
    let ghost t = key@;
    set.insert(p, k);
    proof {
        let nv = vecs_view(set@);
        assert(nv =~= old_v.take(p as int).push(t) + old_v.skip(p as int));
        assert forall|i: int, j: int| 0 <= i < j < nv.len() implies text_lt(#[trigger] nv[i], #[trigger] nv[j]) by {
            if j < p {
                assert(nv[i] == old_v[i] && nv[j] == old_v[j]);
            } else if j == p {
                assert(nv[i] == old_v[i]);
            } else if i == p {
                assert(nv[j] == old_v[j - 1]);
                if j - 1 > p {
                    lemma_text_lt_transitive(t, old_v[p as int], old_v[j - 1]);
                }
            } else if i < p {
                assert(nv[i] == old_v[i] && nv[j] == old_v[j - 1]);
            } else {
                assert(nv[i] == old_v[i - 1] && nv[j] == old_v[j - 1]);
            }
        }
        assert forall|x: Seq<char>| nv.contains(x) <==> (old_v.contains(x) || x == t) by {
            if nv.contains(x) {
                let k = choose|k: int| 0 <= k < nv.len() && nv[k] == x;
                if k < p {
                    assert(old_v[k] == x);
                } else if k > p {
                    assert(old_v[k - 1] == x);
                }
            }
            if old_v.contains(x) {
                let k = choose|k: int| 0 <= k < old_v.len() && old_v[k] == x;
                if k < p {
                    assert(nv[k] == x);
                } else {
                    assert(nv[k + 1] == x);
                }
            }
            if x == t {
                assert(nv[p as int] == x);
            }
        }
    }
}

/// The position of a key among strictly sorted keys that hold it.
fn position_of(set: &Vec<Vec<char>>, key: &[char]) -> (r: usize)
    requires
        vecs_view(set@).contains(key@),
    ensures
        r < set@.len(),
        set@[r as int]@ == key@,
{
    let mut p: usize = 0;
    while p < set.len()
        invariant
            p <= set@.len(),
            vecs_view(set@).contains(key@),
            forall|i: int| 0 <= i < p ==> set@[i]@ != key@,
        decreases set.len() - p,
    {
        if chars_eq(set[p].as_slice(), key) {
            return p;
        }
        p = p + 1;
    }
    proof {
        let k = choose|k: int| 0 <= k < vecs_view(set@).len() && vecs_view(set@)[k] == key@;
        assert(set@[k]@ == key@);
    }
    0
}

/// Groups rows by key: the distinct keys in increasing order, and the
/// group of each row.
pub fn group_rows(keys: &Vec<String>) -> (r: (Vec<String>, Vec<usize>))
    ensures
        is_grouping(texts(keys@), texts(r.0@), r.1@),
{
    let ghost kv = texts(keys@);
    let mut set: Vec<Vec<char>> = Vec::new();
    let mut i: usize = 0;
    assert(vecs_view(set@) =~= Seq::<Seq<char>>::empty());
    while i < keys.len()
        invariant
            i <= keys@.len(),
            kv == texts(keys@),
            strictly_sorted(vecs_view(set@)),
            forall|t: Seq<char>| vecs_view(set@).contains(t) <==> kv.take(i as int).contains(t),
        decreases keys.len() - i,
    {
        let c = to_chars(keys[i].as_str());
        insert_key(&mut set, c.as_slice());
        proof {
            let pre = kv.take(i as int);
            let nxt = kv.take(i + 1);
            assert(nxt =~= pre.push(kv[i as int]));
            assert forall|t: Seq<char>| nxt.contains(t) <==> (pre.contains(t) || t == kv[i as int]) by {
                if nxt.contains(t) {
                    let k = choose|k: int| 0 <= k < nxt.len() && nxt[k] == t;
                    if k < i {
                        assert(pre[k] == t);
                    }
                }
                if pre.contains(t) {
                    let k = choose|k: int| 0 <= k < pre.len() && pre[k] == t;
                    assert(nxt[k] == t);
                }
                if t == kv[i as int] {
                    assert(nxt[i as int] == t);
                }
            }
        }
        i = i + 1;
    }
    assert(kv.take(kv.len() as int) =~= kv);
    let mut group_of: Vec<usize> = Vec::new();
    let mut j: usize = 0;
    while j < keys.len()
        invariant
            j <= keys@.len(),
            kv == texts(keys@),
            forall|t: Seq<char>| vecs_view(set@).contains(t) <==> kv.contains(t),
            group_of@.len() == j,
            forall|q: int|
                0 <= q < j ==> (#[trigger] group_of@[q]) < set@.len() && set@[group_of@[q] as int]@
                    == kv[q],
        decreases keys.len() - j,
    {
        let c = to_chars(keys[j].as_str());
        assert(kv.contains(kv[j as int]));
        let p = position_of(&set, c.as_slice());
        group_of.push(p);
        j = j + 1;
    }
    let mut groups: Vec<String> = Vec::new();
    let mut k: usize = 0;
    while k < set.len()
        invariant
            k <= set@.len(),
            texts(groups@) == vecs_view(set@).take(k as int),
        decreases set.len() - k,
    {
        let ghost before = groups@;
        groups.push(from_chars(set[k].as_slice()));
        proof {
            assert(texts(groups@) =~= texts(before).push(set@[k as int]@));
            assert(vecs_view(set@).take(k + 1) =~= vecs_view(set@).take(k as int).push(set@[k as int]@));
        }
        k = k + 1;
    }
    assert(vecs_view(set@).take(set@.len() as int) =~= vecs_view(set@));
    (groups, group_of)
}

/// How many of the first `n` rows are in group `g` and marked.
pub open spec fn marked_in_group(group_of: Seq<usize>, marks: Seq<bool>, g: int, n: int) -> nat
    decreases n,
{
    if n <= 0 {
        0
    } else {
        marked_in_group(group_of, marks, g, n - 1) + if group_of[n - 1] == g && marks[n - 1] {
            1nat
        } else {
            0nat
        }
    }
}

proof fn lemma_marked_bound(group_of: Seq<usize>, marks: Seq<bool>, g: int, n: int)
    requires
        n >= 0,
    ensures
        marked_in_group(group_of, marks, g, n) <= n,
    decreases n,
{
    if n > 0 {
        lemma_marked_bound(group_of, marks, g, n - 1);
    }
}

/// Counts the marked rows of each group.
pub fn count_marks(group_of: &Vec<usize>, marks: &Vec<bool>, group_count: usize) -> (r: Vec<usize>)
    requires
        marks@.len() == group_of@.len(),
        forall|i: int| 0 <= i < group_of@.len() ==> (#[trigger] group_of@[i]) < group_count,
    ensures
        r@.len() == group_count,
        forall|g: int|
            0 <= g < group_count ==> (#[trigger] r@[g]) == marked_in_group(
                group_of@,
                marks@,
                g,
                group_of@.len() as int,
            ),
{
    let mut counts: Vec<usize> = Vec::new();
    let mut g: usize = 0;
    while g < group_count
        invariant
            g <= group_count,
            counts@.len() == g,
            forall|h: int| 0 <= h < g ==> counts@[h] == 0,
        decreases group_count - g,
    {
        counts.push(0);
        g = g + 1;
    }
    let mut i: usize = 0;
    while i < group_of.len()
        invariant
            i <= group_of@.len(),
            marks@.len() == group_of@.len(),
            counts@.len() == group_count,
            forall|q: int| 0 <= q < group_of@.len() ==> (#[trigger] group_of@[q]) < group_count,
            forall|h: int|
                0 <= h < group_count ==> (#[trigger] counts@[h]) == marked_in_group(
                    group_of@,
                    marks@,
                    h,
                    i as int,
                ),
        decreases group_of.len() - i,
    {
        let gi = group_of[i];
        if marks[i] {
            proof {
                lemma_marked_bound(group_of@, marks@, gi as int, i as int);
            }
            let c = counts[gi] + 1;
            counts.set(gi, c);
        }
        i = i + 1;
    }
    counts
}

/// The largest value among the first `n` rows of group `g`.
pub open spec fn group_max(group_of: Seq<usize>, values: Seq<i64>, g: int, n: int) -> Option<i64>
    decreases n,
{
    if n <= 0 {
        None
    } else {
        let m = group_max(group_of, values, g, n - 1);
        if group_of[n - 1] == g {
            match m {
                Some(x) => Some(if x >= values[n - 1] { x } else { values[n - 1] }),
                None => Some(values[n - 1]),
            }
        } else {
            m
        }
    }
}

/// The largest value of each group.
pub fn max_per_group(group_of: &Vec<usize>, values: &Vec<i64>, group_count: usize) -> (r: Vec<
    Option<i64>,
>)
    requires
        values@.len() == group_of@.len(),
        forall|i: int| 0 <= i < group_of@.len() ==> (#[trigger] group_of@[i]) < group_count,
    ensures
        r@.len() == group_count,
        forall|g: int|
            0 <= g < group_count ==> (#[trigger] r@[g]) == group_max(
                group_of@,
                values@,
                g,
                group_of@.len() as int,
            ),
{
    let mut out: Vec<Option<i64>> = Vec::new();
    let mut g: usize = 0;
    while g < group_count
        invariant
            g <= group_count,
            out@.len() == g,
            forall|h: int| 0 <= h < g ==> out@[h] is None,
        decreases group_count - g,
    {
        out.push(None);
        g = g + 1;
    }
    let mut i: usize = 0;
    while i < group_of.len()
        invariant
            i <= group_of@.len(),
            values@.len() == group_of@.len(),
            out@.len() == group_count,
            forall|q: int| 0 <= q < group_of@.len() ==> (#[trigger] group_of@[q]) < group_count,
            forall|h: int|
                0 <= h < group_count ==> (#[trigger] out@[h]) == group_max(
                    group_of@,
                    values@,
                    h,
                    i as int,
                ),
        decreases group_of.len() - i,
    {
        let gi = group_of[i];
        let v = values[i];
        let next = match out[gi] {
            Some(x) => Some(if x >= v { x } else { v }),
            None => Some(v),
        };
        out.set(gi, next);
        i = i + 1;
    }
    out
}

} // verus!
