use vstd::prelude::*;
use vstd::string::*;
use crate::schema::{Attr, attrs_view};

verus! {

/// `a` sorts before `b`: at the first position where their characters
/// differ, `a` has the smaller code point, or `a` is a proper prefix of `b`.
/// This is the order of `String`'s `Ord`.
pub open spec fn str_lt(a: Seq<char>, b: Seq<char>) -> bool
    decreases a.len(),
{
    if a.len() == 0 {
        b.len() > 0
    } else if b.len() == 0 {
        false
    } else if a[0] != b[0] {
        (a[0] as int) < (b[0] as int)
    } else {
        str_lt(a.drop_first(), b.drop_first())
    }
}

pub proof fn lemma_lt_irreflexive(a: Seq<char>)
    ensures
        !str_lt(a, a),
    decreases a.len(),
{
    if a.len() > 0 {
        lemma_lt_irreflexive(a.drop_first());
    }
}

pub proof fn lemma_lt_transitive(a: Seq<char>, b: Seq<char>, c: Seq<char>)
    requires
        str_lt(a, b),
        str_lt(b, c),
    ensures
        str_lt(a, c),
    decreases a.len(),
{
    if a.len() > 0 && b.len() > 0 && c.len() > 0 && a[0] == b[0] && b[0] == c[0] {
        lemma_lt_transitive(a.drop_first(), b.drop_first(), c.drop_first());
    }
}

/// Two different sequences are ordered one way or the other.
pub proof fn lemma_lt_total(a: Seq<char>, b: Seq<char>)
    requires
        a != b,
    ensures
        str_lt(a, b) || str_lt(b, a),
    decreases a.len(),
{
    if a.len() == 0 {
        assert(b.len() > 0) by {
            if b.len() == 0 {
                assert(a =~= b);
            }
        }
    } else if b.len() > 0 && a[0] == b[0] {
        if a.drop_first() == b.drop_first() {
            assert(a.drop_first().len() == a.len() - 1);
            assert(b.drop_first().len() == b.len() - 1);
            assert(a =~= b) by {
                assert forall|i: int| 0 <= i < a.len() implies a[i] == b[i] by {
                    if i > 0 {
                        assert(a[i] == a.drop_first()[i - 1]);
                        assert(b[i] == b.drop_first()[i - 1]);
                    }
                }
            }
        }
        lemma_lt_total(a.drop_first(), b.drop_first());
    } else if b.len() > 0 {
        assert((a[0] as int) != (b[0] as int));
    }
}

/// Whether `a` sorts before `b`.
pub fn str_less(a: &String, b: &String) -> (r: bool)
    ensures
        r == str_lt(a@, b@),
{
    let la = a.as_str().unicode_len();
    let lb = b.as_str().unicode_len();
    let mut i: usize = 0;
    assert(a@.skip(0) =~= a@);
    assert(b@.skip(0) =~= b@);
    while i < la && i < lb
        invariant
            la == a@.len(),
            lb == b@.len(),
            i <= la,
            i <= lb,
            str_lt(a@, b@) == str_lt(a@.skip(i as int), b@.skip(i as int)),
        decreases la - i,
    {
        let ca = a.as_str().get_char(i);
        let cb = b.as_str().get_char(i);
        proof {
            assert(a@.skip(i as int)[0] == ca);
            assert(b@.skip(i as int)[0] == cb);
            assert(a@.skip(i as int).drop_first() =~= a@.skip(i + 1));
            assert(b@.skip(i as int).drop_first() =~= b@.skip(i + 1));
        }
        if ca != cb {
            return (ca as u32) < (cb as u32);
        }
        i = i + 1;
    }
    i < lb && i == la
}

/// Key/value pairs of a map of attributes.
pub type Pairs = Seq<(Seq<char>, Seq<char>)>;

/// Keys strictly ascending, hence each key held once.
pub open spec fn attrs_valid(a: Pairs) -> bool {
    forall|i: int, j: int| 0 <= i < j < a.len() ==> str_lt(#[trigger] a[i].0, #[trigger] a[j].0)
}

/// Position `i` of `a` holds key `k`.
pub open spec fn key_at(a: Pairs, k: Seq<char>, i: int) -> bool {
    0 <= i < a.len() && a[i].0 == k
}

/// `p` is the place of `k` among the keys of `a`: every key before it sorts
/// before `k`, and every key from it on sorts after.
pub open spec fn slot(a: Pairs, k: Seq<char>, p: int) -> bool {
    &&& 0 <= p <= a.len()
    &&& forall|j: int| 0 <= j < p ==> str_lt(#[trigger] a[j].0, k)
    &&& forall|j: int| p <= j < a.len() ==> str_lt(k, #[trigger] a[j].0)
}

/// `a` with `k` set to `v`: the entry of `k` replaced where there is one,
/// else a new entry in its sorted place.
pub open spec fn attrs_insert(a: Pairs, k: Seq<char>, v: Seq<char>) -> Pairs {
    if exists|i: int| key_at(a, k, i) {
        a.update(choose|i: int| key_at(a, k, i), (k, v))
    } else {
        a.insert(choose|p: int| slot(a, k, p), (k, v))
    }
}

/// The map that setting each pair of `a` in turn builds from none: later
/// pairs override earlier ones with the same key.
pub open spec fn attrs_fold(a: Pairs) -> Pairs
    decreases a.len(),
{
    if a.len() == 0 {
        Seq::empty()
    } else {
        attrs_insert(attrs_fold(a.drop_last()), a.last().0, a.last().1)
    }
}

pub proof fn lemma_key_at_unique(a: Pairs, k: Seq<char>, i: int, j: int)
    requires
        attrs_valid(a),
        key_at(a, k, i),
        key_at(a, k, j),
    ensures
        i == j,
{
    lemma_lt_irreflexive(k);
}

pub proof fn lemma_slot_unique(a: Pairs, k: Seq<char>, p: int, q: int)
    requires
        slot(a, k, p),
        slot(a, k, q),
    ensures
        p == q,
{
    lemma_lt_irreflexive(k);
    if p < q {
        lemma_lt_transitive(k, a[p].0, k);
    } else if q < p {
        lemma_lt_transitive(k, a[q].0, k);
    }
}

/// Inserting at the place of a new key keeps the keys ascending.
pub proof fn lemma_insert_valid(a: Pairs, k: Seq<char>, v: Seq<char>, p: int)
    requires
        attrs_valid(a),
        slot(a, k, p),
    ensures
        attrs_valid(a.insert(p, (k, v))),
{
    let b = a.insert(p, (k, v));
    assert forall|i: int, j: int| 0 <= i < j < b.len() implies str_lt(#[trigger] b[i].0, #[trigger] b[j].0) by {
        if j < p {
        } else if j == p {
        } else if i < p {
            lemma_lt_transitive(a[i].0, k, a[j - 1].0);
        } else if i == p {
        } else {
        }
    }
}

/// A valid sequence is its own map.
pub proof fn lemma_fold_valid(a: Pairs)
    requires
        attrs_valid(a),
    ensures
        attrs_fold(a) == a,
    decreases a.len(),
{
    if a.len() > 0 {
        let d = a.drop_last();
        let n = d.len() as int;
        let k = a.last().0;
        assert(attrs_valid(d));
        lemma_fold_valid(d);
        lemma_lt_irreflexive(k);
        assert(slot(d, k, n));
        if exists|i: int| key_at(d, k, i) {
            let i = choose|i: int| key_at(d, k, i);
            assert(str_lt(a[i].0, a[n].0));
        }
        let p = choose|p: int| slot(d, k, p);
        lemma_slot_unique(d, k, p, n);
        assert(d.insert(n, (k, a.last().1)) =~= a);
    }
}

/// Two valid sequences that hold the same entries are the same sequence:
/// attributes equal as maps are held, and so encoded, identically.
pub proof fn lemma_same_map_same_seq(a: Pairs, b: Pairs)
    requires
        attrs_valid(a),
        attrs_valid(b),
        forall|e: (Seq<char>, Seq<char>)| a.contains(e) <==> b.contains(e),
    ensures
        a == b,
    decreases a.len(),
{
    if a.len() == 0 {
        if b.len() > 0 {
            assert(b.contains(b[0]));
        }
        assert(a =~= b);
    } else {
        assert(a.contains(a[0]));
        let j = choose|j: int| 0 <= j < b.len() && b[j] == a[0];
        assert(b.contains(b[0]));
        let i = choose|i: int| 0 <= i < a.len() && a[i] == b[0];
        lemma_lt_irreflexive(a[0].0);
        if j > 0 {
            assert(str_lt(b[0].0, b[j].0));
            if i > 0 {
                assert(str_lt(a[0].0, a[i].0));
                lemma_lt_transitive(a[0].0, b[0].0, a[0].0);
            }
        }
        assert(j == 0);
        let a1 = a.drop_first();
        let b1 = b.drop_first();
        assert forall|e: (Seq<char>, Seq<char>)| a1.contains(e) <==> b1.contains(e) by {
            if a1.contains(e) {
                let x = choose|x: int| 0 <= x < a1.len() && a1[x] == e;
                assert(a.contains(a[x + 1]));
                assert(str_lt(a[0].0, a[x + 1].0));
                let y = choose|y: int| 0 <= y < b.len() && b[y] == e;
                if y == 0 {
                    lemma_lt_irreflexive(e.0);
                }
                assert(b1[y - 1] == e);
            }
            if b1.contains(e) {
                let x = choose|x: int| 0 <= x < b1.len() && b1[x] == e;
                assert(b.contains(b[x + 1]));
                assert(str_lt(b[0].0, b[x + 1].0));
                let y = choose|y: int| 0 <= y < a.len() && a[y] == e;
                if y == 0 {
                    lemma_lt_irreflexive(e.0);
                }
                assert(a1[y - 1] == e);
            }
        }
        assert(attrs_valid(a1));
        assert(attrs_valid(b1));
        lemma_same_map_same_seq(a1, b1);
        assert(a =~= seq![a[0]] + a1);
        assert(b =~= seq![b[0]] + b1);
    }
}

/// Sets `key` to `value` in the map `v`, keeping its keys ascending.
pub fn insert_attr(v: &mut Vec<Attr>, key: String, value: String)
    requires
        attrs_valid(attrs_view(old(v)@)),
    ensures
        attrs_view(final(v)@) == attrs_insert(attrs_view(old(v)@), key@, value@),
        attrs_valid(attrs_view(final(v)@)),
{
    let ghost a = attrs_view(v@);
    let ghost k = key@;
    let mut i: usize = 0;
    while i < v.len()
        invariant
            i <= v.len(),
            attrs_view(v@) == a,
            a == attrs_view(old(v)@),
            k == key@,
            attrs_valid(a),
            forall|j: int| 0 <= j < i ==> str_lt(#[trigger] a[j].0, k),
        ensures
            i <= v.len(),
            attrs_view(v@) == a,
            forall|j: int| 0 <= j < i ==> str_lt(#[trigger] a[j].0, k),
            i < v.len() ==> str_lt(k, a[i as int].0),
        decreases v.len() - i,
    {
        if v[i].key == key {
            proof {
                assert(key_at(a, k, i as int));
                let c = choose|c: int| key_at(a, k, c);
                lemma_key_at_unique(a, k, i as int, c);
            }
            v.set(i, Attr { key, value });
            proof {
                assert(attrs_view(v@) =~= a.update(i as int, (k, value@)));
                assert forall|x: int, y: int| 0 <= x < y < v@.len() implies str_lt(
                    #[trigger] attrs_view(v@)[x].0,
                    #[trigger] attrs_view(v@)[y].0,
                ) by {
                    assert(str_lt(a[x].0, a[y].0));
                }
            }
            return;
        }
        if str_less(&key, &v[i].key) {
            assert(a[i as int].0 == v@[i as int].key@);
            break;
        }
        proof {
            assert(a[i as int].0 == v@[i as int].key@);
            lemma_lt_total(a[i as int].0, k);
        }
        i = i + 1;
    }
    proof {
        lemma_lt_irreflexive(k);
        assert forall|j: int| i <= j < a.len() implies str_lt(k, #[trigger] a[j].0) by {
            assert(str_lt(k, a[i as int].0));
            if j > i {
                lemma_lt_transitive(k, a[i as int].0, a[j].0);
            }
        }
        assert(slot(a, k, i as int));
        assert(!exists|x: int| key_at(a, k, x));
        let p = choose|p: int| slot(a, k, p);
        lemma_slot_unique(a, k, p, i as int);
        lemma_insert_valid(a, k, value@, i as int);
    }
    let ghost vv = value@;
    v.insert(i, Attr { key, value });
    proof {
        assert(attrs_view(v@) =~= a.insert(i as int, (k, vv)));
    }
}

/// The map of the pairs of `v`, a later pair overriding an earlier one with
/// the same key; keys ascending.
pub fn normalize_attrs(v: &Vec<Attr>) -> (r: Vec<Attr>)
    ensures
        attrs_view(r@) == attrs_fold(attrs_view(v@)),
        attrs_valid(attrs_view(r@)),
{
    let mut out: Vec<Attr> = Vec::new();
    let mut i: usize = 0;
    while i < v.len()
        invariant
            i <= v.len(),
            attrs_view(out@) == attrs_fold(attrs_view(v@).subrange(0, i as int)),
            attrs_valid(attrs_view(out@)),
        decreases v.len() - i,
    {
        proof {
            let s = attrs_view(v@).subrange(0, i + 1);
            assert(s.drop_last() =~= attrs_view(v@).subrange(0, i as int));
        }
        insert_attr(&mut out, v[i].key.clone(), v[i].value.clone());
        i = i + 1;
    }
    assert(attrs_view(v@).subrange(0, v@.len() as int) =~= attrs_view(v@));
    out
}

} // verus!
