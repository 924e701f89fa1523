//! Ordering of text-keyed collections.
use vstd::prelude::*;
use crate::text::{Order, compare_text, strictly_sorted, views, lemma_text_lt_irreflexive, lemma_text_lt_total, lemma_text_lt_transitive, sorted, text_le, text_lt};

verus! {

broadcast use vstd::seq_lib::group_to_multiset_ensures;

/// The keys of a keyed sequence.
pub open spec fn keys_of<T>(s: Seq<(String, T)>) -> Seq<Seq<char>> {
    s.map_values(|p: (String, T)| p.0@)
}

pub proof fn lemma_insert_multiset<A>(s: Seq<A>, i: int, a: A)
    requires
        0 <= i <= s.len(),
    ensures
        s.insert(i, a).to_multiset() =~= s.to_multiset().insert(a),
{
    let t = s.insert(i, a);
    assert(t.remove(i) =~= s);
    assert(t[i] == a);
    assert(t.contains(a));
    assert(t.to_multiset().count(a) > 0);
}

/// Stable insertion sort by key: the result holds the same items,
/// ordered by key (ties keep their original order).
pub fn sort_keyed<T>(items: Vec<(String, T)>) -> (r: Vec<(String, T)>)
    ensures
        sorted(keys_of(r@)),
        r@.to_multiset() =~= items@.to_multiset(),
        r@.len() == items@.len(),
{
    let ghost orig = items@;
    let mut r: Vec<(String, T)> = Vec::new();
    let mut rest = items;
    while rest.len() > 0
        invariant
            orig.to_multiset() =~= r@.to_multiset().add(rest@.to_multiset()),
            sorted(keys_of(r@)),
            r@.len() + rest@.len() == orig.len(),
        decreases rest@.len(),
    {
        let ghost before = rest@;
        let item = rest.remove(0);
        proof {
            assert(before.remove(0) =~= rest@);
            assert(before.to_multiset() =~= rest@.to_multiset().insert(item));
        }
        let mut j: usize = 0;
        while j < r.len()
            invariant_except_break
                j <= r.len(),
                forall|k: int| 0 <= k < j ==> text_le(#[trigger] keys_of(r@)[k], item.0@),
            ensures
                j <= r.len(),
                forall|k: int| 0 <= k < j ==> text_le(#[trigger] keys_of(r@)[k], item.0@),
                j < r.len() ==> text_lt(item.0@, keys_of(r@)[j as int]),
            decreases r.len() - j,
        {
            let c = compare_text(r[j].0.as_str(), item.0.as_str());
            if c == Order::Greater {
                break;
            }
            j += 1;
        }
        let pos = j;
        let ghost old_r = r@;
        proof {
            lemma_insert_multiset(old_r, pos as int, item);
        }
        let ghost key = item.0@;
        r.insert(pos, item);
        proof {
            assert(keys_of(r@) =~= keys_of(old_r).insert(pos as int, key));
            assert forall|a: int, b: int| 0 <= a < b < keys_of(r@).len() implies text_le(
                #[trigger] keys_of(r@)[a],
                #[trigger] keys_of(r@)[b],
            ) by {
                let ks = keys_of(old_r);
                if pos < ks.len() {
                    lemma_text_lt_total(ks[pos as int], key);
                }
                if a < pos && b == pos {
                } else if a < pos && b > pos {
                    assert(text_le(ks[a], ks[b - 1]));
                } else if a == pos && b > pos {
                    assert(text_le(ks[pos as int], ks[b - 1]));
                    if text_lt(ks[pos as int], ks[b - 1]) {
                        lemma_text_lt_transitive(key, ks[pos as int], ks[b - 1]);
                    }
                } else if a > pos {
                    assert(text_le(ks[a - 1], ks[b - 1]));
                } else {
                    assert(text_le(ks[a], ks[b]));
                }
            }
        }
    }
    r
}

/// The distinct strings of `v`, in increasing order (a sorted, deduplicated copy).
pub fn sorted_unique(v: &Vec<String>) -> (r: Vec<String>)
    ensures
        strictly_sorted(views(r@)),
        views(r@).to_set() == views(v@).to_set(),
{
    let mut r: Vec<String> = Vec::new();
    let mut i: usize = 0;
    while i < v.len()
        invariant
            i <= v.len(),
            strictly_sorted(views(r@)),
            views(r@).to_set() == views(v@.take(i as int)).to_set(),
        decreases v.len() - i,
    {
        let s = v[i].clone();
        let ghost key = s@;
        let mut j: usize = 0;
        while j < r.len()
            invariant_except_break
                s@ == key,
                j <= r.len(),
                forall|k: int| 0 <= k < j ==> text_lt(#[trigger] views(r@)[k], key),
            ensures
                j <= r.len(),
                forall|k: int| 0 <= k < j ==> text_lt(#[trigger] views(r@)[k], key),
                j < r.len() ==> text_le(key, views(r@)[j as int]),
            decreases r.len() - j,
        {
            assert(views(r@)[j as int] == r@[j as int]@);
            let c = compare_text(r[j].as_str(), s.as_str());
            if c != Order::Less {
                break;
            }
            j += 1;
        }
        let ghost old_r = r@;
        assert(views(v@.take(i + 1)) =~= views(v@.take(i as int)).push(key));
        proof {
            views(v@.take(i as int)).lemma_push_to_set_commute(key);
        }
        if j < r.len() && compare_text(r[j].as_str(), s.as_str()) == Order::Equal {
            assert(views(r@).to_set() =~= views(r@).to_set().insert(key)) by {
                assert(views(r@)[j as int] == r@[j as int]@);
                assert(views(r@)[j as int] == key);
            }
        } else {
            r.insert(j, s);
            proof {
                let ks = views(old_r);
                assert(views(r@) =~= ks.insert(j as int, key));
                if j < ks.len() {
                    assert(text_lt(key, ks[j as int]));
                }
                assert forall|a: int, b: int| 0 <= a < b < views(r@).len() implies text_lt(
                    #[trigger] views(r@)[a],
                    #[trigger] views(r@)[b],
                ) by {
                    if a < j && b == j {
                    } else if a < j && b > j {
                        assert(text_lt(ks[a], ks[b - 1]));
                    } else if a == j && b > j {
                        if b - 1 > j {
                            assert(text_lt(ks[j as int], ks[b - 1]));
                            lemma_text_lt_transitive(key, ks[j as int], ks[b - 1]);
                        }
                    } else if a > j {
                        assert(text_lt(ks[a - 1], ks[b - 1]));
                    } else {
                        assert(text_lt(ks[a], ks[b]));
                    }
                }
                assert(views(r@).to_set() =~= ks.to_set().insert(key)) by {
                    assert forall|x: Seq<char>| views(r@).to_set().contains(x) implies ks.to_set().insert(key).contains(x) by {
                        let k = choose|k: int| 0 <= k < views(r@).len() && views(r@)[k] == x;
                        if k < j {
                            assert(ks[k] == x);
                        } else if k > j {
                            assert(ks[k - 1] == x);
                        }
                    }
                    assert forall|x: Seq<char>| ks.to_set().insert(key).contains(x) implies views(r@).to_set().contains(x) by {
                        if x == key {
                            assert(views(r@)[j as int] == key);
                        } else {
                            let k = choose|k: int| 0 <= k < ks.len() && ks[k] == x;
                            if k < j {
                                assert(views(r@)[k] == x);
                            } else {
                                assert(views(r@)[k + 1] == x);
                            }
                        }
                    }
                }
            }
        }
        i += 1;
    }
    assert(v@.take(v.len() as int) =~= v@);
    r
}

/// The increasing sequence that holds exactly the texts of `s`.
pub open spec fn sorted_set(s: Set<Seq<char>>) -> Seq<Seq<char>> {
    choose|t: Seq<Seq<char>>| strictly_sorted(t) && t.to_set() == s
}

/// Two increasing sequences with the same elements are the same sequence.
pub proof fn lemma_strictly_sorted_unique(a: Seq<Seq<char>>, b: Seq<Seq<char>>)
    requires
        strictly_sorted(a),
        strictly_sorted(b),
        a.to_set() == b.to_set(),
    ensures
        a == b,
    decreases a.len(),
{
    if a.len() == 0 {
        if b.len() > 0 {
            assert(b.to_set().contains(b[0]));
        }
        assert(a =~= b);
    } else {
        assert(a.to_set().contains(a[0]));
        assert(b.len() > 0);
        assert(b.to_set().contains(b[0]));
        let j = choose|j: int| 0 <= j < b.len() && b[j] == a[0];
        let k = choose|k: int| 0 <= k < a.len() && a[k] == b[0];
        if j > 0 {
            assert(text_lt(b[0], b[j]));
            if k == 0 {
                lemma_text_lt_irreflexive(a[0]);
            } else {
                assert(text_lt(a[0], a[k]));
                lemma_text_lt_transitive(a[0], a[k], a[0]);
                lemma_text_lt_irreflexive(a[0]);
            }
        }
        assert(a[0] == b[0]);
        let a1 = a.drop_first();
        let b1 = b.drop_first();
        assert(a1.to_set() =~= b1.to_set()) by {
            assert forall|x: Seq<char>| a1.to_set().contains(x) implies b1.to_set().contains(x) by {
                let i = choose|i: int| 0 <= i < a1.len() && a1[i] == x;
                assert(a.to_set().contains(x));
                let m = choose|m: int| 0 <= m < b.len() && b[m] == x;
                if m == 0 {
                    assert(text_lt(a[0], a[i + 1]));
                    lemma_text_lt_irreflexive(a[0]);
                }
                assert(b1[m - 1] == x);
            }
            assert forall|x: Seq<char>| b1.to_set().contains(x) implies a1.to_set().contains(x) by {
                let i = choose|i: int| 0 <= i < b1.len() && b1[i] == x;
                assert(b.to_set().contains(x));
                let m = choose|m: int| 0 <= m < a.len() && a[m] == x;
                if m == 0 {
                    assert(text_lt(b[0], b[i + 1]));
                    lemma_text_lt_irreflexive(b[0]);
                }
                assert(a1[m - 1] == x);
            }
        }
        lemma_strictly_sorted_unique(a1, b1);
        assert(a =~= seq![a[0]] + a1);
        assert(b =~= seq![b[0]] + b1);
    }
}

/// A strictly sorted sequence is the `sorted_set` of its elements.
pub proof fn lemma_sorted_set_of(t: Seq<Seq<char>>)
    requires
        strictly_sorted(t),
    ensures
        sorted_set(t.to_set()) == t,
{
    let u = sorted_set(t.to_set());
    assert(strictly_sorted(u) && u.to_set() == t.to_set());
    lemma_strictly_sorted_unique(u, t);
}

/// `t` with `x` put in its place, unless `t` holds it already.
spec fn insert_sorted(t: Seq<Seq<char>>, x: Seq<char>) -> Seq<Seq<char>>
    decreases t.len(),
{
    if t.len() == 0 {
        seq![x]
    } else if t[0] == x {
        t
    } else if text_lt(x, t[0]) {
        seq![x] + t
    } else {
        seq![t[0]] + insert_sorted(t.drop_first(), x)
    }
}

/// Putting a text into an increasing sequence keeps it increasing and adds
/// exactly that text.
proof fn lemma_insert_sorted(t: Seq<Seq<char>>, x: Seq<char>)
    requires
        strictly_sorted(t),
    ensures
        strictly_sorted(insert_sorted(t, x)),
        insert_sorted(t, x).to_set() == t.to_set().insert(x),
    decreases t.len(),
{
    let r = insert_sorted(t, x);
    if t.len() == 0 {
        assert(r.to_set() =~= t.to_set().insert(x)) by {
            assert(r[0] == x);
        }
    } else if t[0] == x {
        assert(t.to_set().contains(t[0]));
        assert(r.to_set() =~= t.to_set().insert(x));
    } else if text_lt(x, t[0]) {
        assert forall|i: int, j: int| 0 <= i < j < r.len() implies text_lt(#[trigger] r[i], #[trigger] r[j]) by {
            if i == 0 {
                assert(r[j] == t[j - 1]);
                if j - 1 > 0 {
                    assert(text_lt(t[0], t[j - 1]));
                    lemma_text_lt_transitive(x, t[0], t[j - 1]);
                }
            } else {
                assert(r[i] == t[i - 1] && r[j] == t[j - 1]);
            }
        }
        assert forall|y: Seq<char>| r.to_set().contains(y) <==> t.to_set().insert(x).contains(y) by {
            if r.to_set().contains(y) {
                let k = choose|k: int| 0 <= k < r.len() && r[k] == y;
                if k > 0 {
                    assert(t[k - 1] == y);
                }
            }
            if t.to_set().contains(y) {
                let k = choose|k: int| 0 <= k < t.len() && t[k] == y;
                assert(r[k + 1] == y);
            }
            if y == x {
                assert(r[0] == x);
            }
        }
        assert(r.to_set() =~= t.to_set().insert(x));
    } else {
        let d = t.drop_first();
        let rr = insert_sorted(d, x);
        assert(strictly_sorted(d)) by {
            assert forall|i: int, j: int| 0 <= i < j < d.len() implies text_lt(#[trigger] d[i], #[trigger] d[j]) by {
                assert(d[i] == t[i + 1] && d[j] == t[j + 1]);
            }
        }
        lemma_insert_sorted(d, x);
        lemma_text_lt_total(x, t[0]);
        assert(text_lt(t[0], x));
        assert(r == seq![t[0]] + rr);
        assert forall|i: int, j: int| 0 <= i < j < r.len() implies text_lt(#[trigger] r[i], #[trigger] r[j]) by {
            if i == 0 {
                assert(r[j] == rr[j - 1]);
                assert(rr.to_set().contains(rr[j - 1]));
                if rr[j - 1] != x {
                    assert(d.to_set().contains(rr[j - 1]));
                    let k = choose|k: int| 0 <= k < d.len() && d[k] == rr[j - 1];
                    assert(d[k] == t[k + 1]);
                }
            } else {
                assert(r[i] == rr[i - 1] && r[j] == rr[j - 1]);
            }
        }
        assert forall|y: Seq<char>| r.to_set().contains(y) <==> t.to_set().insert(x).contains(y) by {
            if r.to_set().contains(y) {
                let k = choose|k: int| 0 <= k < r.len() && r[k] == y;
                if k > 0 {
                    assert(rr[k - 1] == y);
                    assert(rr.to_set().contains(y));
                    if y != x {
                        assert(d.to_set().contains(y));
                        let m = choose|m: int| 0 <= m < d.len() && d[m] == y;
                        assert(t[m + 1] == y);
                    }
                } else {
                    assert(t[0] == y);
                }
            }
            if t.to_set().contains(y) {
                let k = choose|k: int| 0 <= k < t.len() && t[k] == y;
                if k == 0 {
                    assert(r[0] == y);
                } else {
                    assert(d[k - 1] == y);
                    assert(d.to_set().contains(y));
                    assert(rr.to_set().contains(y));
                    let m = choose|m: int| 0 <= m < rr.len() && rr[m] == y;
                    assert(r[m + 1] == y);
                }
            }
            if y == x {
                assert(rr.to_set().contains(x));
                let m = choose|m: int| 0 <= m < rr.len() && rr[m] == x;
                assert(r[m + 1] == x);
            }
        }
        assert(r.to_set() =~= t.to_set().insert(x));
    }
}

/// The texts of `s`, sorted by insertion.
spec fn sort_witness(s: Seq<Seq<char>>) -> Seq<Seq<char>>
    decreases s.len(),
{
    if s.len() == 0 {
        Seq::empty()
    } else {
        insert_sorted(sort_witness(s.drop_last()), s.last())
    }
}

/// Sorting by insertion gives an increasing sequence of the same texts.
proof fn lemma_sort_witness(s: Seq<Seq<char>>)
    ensures
        strictly_sorted(sort_witness(s)),
        sort_witness(s).to_set() == s.to_set(),
    decreases s.len(),
{
    if s.len() == 0 {
        assert(sort_witness(s).to_set() =~= s.to_set());
    } else {
        let d = s.drop_last();
        lemma_sort_witness(d);
        lemma_insert_sorted(sort_witness(d), s.last());
        assert(s =~= d.push(s.last()));
        d.lemma_push_to_set_commute(s.last());
    }
}

/// The texts of any sequence have an increasing arrangement.
pub proof fn lemma_sorted_set_exists(s: Seq<Seq<char>>)
    ensures
        strictly_sorted(sorted_set(s.to_set())),
        sorted_set(s.to_set()).to_set() == s.to_set(),
{
    lemma_sort_witness(s);
    let w = sort_witness(s);
    assert(strictly_sorted(w) && w.to_set() == s.to_set());
}

/// Rearranging a sequence rearranges its image under any function.
pub proof fn lemma_map_multiset<A, B>(s1: Seq<A>, s2: Seq<A>, f: spec_fn(A) -> B)
    requires
        s1.to_multiset() == s2.to_multiset(),
    ensures
        s1.map_values(f).to_multiset() == s2.map_values(f).to_multiset(),
    decreases s1.len(),
{
    if s1.len() == 0 {
        assert(s1.to_multiset().len() == s1.len());
        assert(s2.to_multiset().len() == s2.len());
        assert(s2.len() == 0);
        assert(s1.map_values(f) =~= s2.map_values(f));
    } else {
        let a = s1.last();
        assert(s1.contains(a)) by {
            assert(s1[s1.len() - 1] == a);
        }
        assert(s2.to_multiset().count(a) > 0);
        assert(s2.contains(a));
        let j = choose|j: int| 0 <= j < s2.len() && s2[j] == a;
        let s1p = s1.drop_last();
        let s2p = s2.remove(j);
        assert(s1.remove(s1.len() - 1) =~= s1p);
        assert(s1p.to_multiset() =~= s1.to_multiset().remove(a));
        assert(s2p.to_multiset() =~= s2.to_multiset().remove(a));
        lemma_map_multiset(s1p, s2p, f);
        assert(s1.map_values(f) =~= s1p.map_values(f).push(f(a)));
        let m2 = s2.map_values(f);
        assert(m2.remove(j) =~= s2p.map_values(f));
        assert(m2[j] == f(a));
        assert(m2.remove(j).to_multiset() =~= m2.to_multiset().remove(f(a)));
        assert(m2.contains(f(a)));
        assert(m2.to_multiset().count(f(a)) > 0);
        assert(m2.to_multiset() =~= m2.to_multiset().remove(f(a)).insert(f(a)));
    }
}

/// The strings in increasing order, repeats kept.
pub fn sort_strings(v: Vec<String>) -> (r: Vec<String>)
    ensures
        sorted(views(r@)),
        views(r@).to_multiset() == views(v@).to_multiset(),
{
    let ghost orig = v@;
    let mut items: Vec<(String, ())> = Vec::new();
    let mut rest = v;
    while rest.len() > 0
        invariant
            keys_of(items@) + views(rest@) == views(orig),
        decreases rest@.len(),
    {
        let ghost before = rest@;
        let s = rest.remove(0);
        let ghost k = keys_of(items@);
        items.push((s, ()));
        assert(before.remove(0) =~= rest@);
        assert(views(before) =~= seq![before[0]@] + views(rest@));
        assert(keys_of(items@) =~= k.push(before[0]@));
    }
    assert(keys_of(items@) =~= views(orig));
    let ghost unsorted = items@;
    let sorted_items = sort_keyed(items);
    let ghost si = sorted_items@;
    proof {
        let f = |p: (String, ())| p.0@;
        lemma_map_multiset(si, unsorted, f);
        assert(keys_of(si) =~= si.map_values(f));
        assert(keys_of(unsorted) =~= unsorted.map_values(f));
    }
    let mut out: Vec<String> = Vec::new();
    let mut i: usize = 0;
    while i < sorted_items.len()
        invariant
            i <= sorted_items@.len(),
            si == sorted_items@,
            views(out@) == keys_of(si).take(i as int),
        decreases sorted_items.len() - i,
    {
        let ghost before = views(out@);
        out.push(sorted_items[i].0.clone());
        assert(views(out@) =~= before.push(si[i as int].0@));
        assert(keys_of(si).take(i + 1) =~= before.push(si[i as int].0@));
        i += 1;
    }
    assert(keys_of(si).take(sorted_items.len() as int) =~= keys_of(si));
    out
}

} // verus!
