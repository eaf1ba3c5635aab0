use vstd::prelude::*;
use crate::text::{str_lt, str_less, same_text, lemma_str_lt_order};

verus! {

/// A value identified by a string key; collections of such values hold at
/// most one value per key, in key order.
pub trait Keyed {
    spec fn key(&self) -> Seq<char>;

    fn key_str(&self) -> (r: &str)
        ensures
            r@ == self.key(),
    ;
}

impl Keyed for String {
    open spec fn key(&self) -> Seq<char> {
        self@
    }

    fn key_str(&self) -> (r: &str) {
        self.as_str()
    }
}

/// Strictly increasing keys: the values are in key order and no key repeats.
pub open spec fn sorted_by_key<T: Keyed>(s: Seq<T>) -> bool {
    forall|i: int, j: int| 0 <= i < j < s.len() ==> str_lt(#[trigger] s[i].key(), #[trigger] s[j].key())
}

/// The keys of a sequence, as a set.
pub open spec fn keys_of<T: Keyed>(s: Seq<T>) -> Set<Seq<char>> {
    Set::new(|k: Seq<char>| exists|i: int| 0 <= i < s.len() && #[trigger] s[i].key() == k)
}

/// The set of strings held by a sequence of `String`s.
pub open spec fn name_set(s: Seq<String>) -> Set<Seq<char>> {
    keys_of(s)
}

/// What a keyed insertion leaves: `x`, and every old value with another key.
pub open spec fn inserted_into<T: Keyed>(old: Seq<T>, new: Seq<T>, x: T) -> bool {
    &&& sorted_by_key(new)
    &&& forall|y: T|
        #![trigger new.contains(y)]
        #![trigger old.contains(y)]
        new.contains(y) <==> (y == x || (old.contains(y) && y.key() != x.key()))
}

/// Two key-sorted sequences with the same values are the same sequence.
pub proof fn lemma_sorted_unique<T: Keyed>(a: Seq<T>, b: Seq<T>)
    requires
        sorted_by_key(a),
        sorted_by_key(b),
        forall|y: T| a.contains(y) <==> b.contains(y),
    ensures
        a == b,
    decreases a.len(),
{
    if a.len() == 0 {
        if b.len() > 0 {
            assert(b.contains(b[0]));
        }
        assert(a =~= b);
    } else if b.len() == 0 {
        assert(a.contains(a[0]));
    } else {
        // the first values agree: each is the least of the common values
        assert(a.contains(a[0]));
        assert(b.contains(b[0]));
        let ia = choose|i: int| 0 <= i < a.len() && a[i] == b[0];
        let ib = choose|i: int| 0 <= i < b.len() && b[i] == a[0];
        if ia > 0 {
            assert(str_lt(a[0].key(), a[ia].key()));
            if ib > 0 {
                assert(str_lt(b[0].key(), b[ib].key()));
                lemma_str_lt_order(a[0].key(), b[0].key(), a[0].key());
            } else {
                lemma_str_lt_order(a[0].key(), a[0].key(), a[0].key());
            }
        } else if ib > 0 {
            assert(str_lt(b[0].key(), b[ib].key()));
            lemma_str_lt_order(b[0].key(), b[0].key(), b[0].key());
        }
        assert(a[0] == b[0]);
        let ta = a.skip(1);
        let tb = b.skip(1);
        assert forall|y: T| ta.contains(y) <==> tb.contains(y) by {
            if ta.contains(y) {
                let k = choose|k: int| 0 <= k < ta.len() && ta[k] == y;
                assert(a[k + 1] == y);
                assert(str_lt(a[0].key(), y.key()));
                lemma_str_lt_order(y.key(), y.key(), y.key());
                assert(b.contains(y));
                let m = choose|m: int| 0 <= m < b.len() && b[m] == y;
                assert(m != 0);
                assert(tb[m - 1] == y);
            }
            if tb.contains(y) {
                let k = choose|k: int| 0 <= k < tb.len() && tb[k] == y;
                assert(b[k + 1] == y);
                assert(str_lt(b[0].key(), y.key()));
                lemma_str_lt_order(y.key(), y.key(), y.key());
                assert(a.contains(y));
                let m = choose|m: int| 0 <= m < a.len() && a[m] == y;
                assert(m != 0);
                assert(ta[m - 1] == y);
            }
        }
        lemma_sorted_unique(ta, tb);
        assert(a =~= seq![a[0]] + ta);
        assert(b =~= seq![b[0]] + tb);
    }
}

pub proof fn lemma_keys_finite<T: Keyed>(s: Seq<T>)
    ensures
        keys_of(s).finite(),
{
    let m = s.map_values(|x: T| x.key());
    assert(keys_of(s) =~= m.to_set()) by {
        assert forall|k: Seq<char>| keys_of(s).contains(k) implies m.to_set().contains(k) by {
            let i = choose|i: int| 0 <= i < s.len() && #[trigger] s[i].key() == k;
            assert(m[i] == k);
        }
        assert forall|k: Seq<char>| m.to_set().contains(k) implies keys_of(s).contains(k) by {
            let i = choose|i: int| 0 <= i < m.len() && m[i] == k;
            assert(s[i].key() == k);
        }
    }
    vstd::seq_lib::seq_to_set_is_finite(m);
}

pub proof fn lemma_keys_concat<T: Keyed>(a: Seq<T>, b: Seq<T>)
    ensures
        keys_of(a + b) == keys_of(a) + keys_of(b),
{
    assert forall|k: Seq<char>| keys_of(a + b).contains(k) implies (keys_of(a) + keys_of(b)).contains(k) by {
        let i = choose|i: int| 0 <= i < (a + b).len() && #[trigger] (a + b)[i].key() == k;
        if i < a.len() {
            assert(a[i].key() == k);
        } else {
            assert(b[i - a.len()].key() == k);
        }
    }
    assert forall|k: Seq<char>| (keys_of(a) + keys_of(b)).contains(k) implies keys_of(a + b).contains(k) by {
        if keys_of(a).contains(k) {
            let i = choose|i: int| 0 <= i < a.len() && #[trigger] a[i].key() == k;
            assert((a + b)[i].key() == k);
        } else {
            let i = choose|i: int| 0 <= i < b.len() && #[trigger] b[i].key() == k;
            assert((a + b)[i + a.len()].key() == k);
        }
    }
    assert(keys_of(a + b) =~= keys_of(a) + keys_of(b));
}

/// Appends copies of the strings of `src`.
pub fn push_all(out: &mut Vec<String>, src: &Vec<String>)
    ensures
        final(out)@ == old(out)@ + src@,
        name_set(final(out)@) == name_set(old(out)@) + name_set(src@),
{
    let mut i: usize = 0;
    while i < src.len()
        invariant
            i <= src.len(),
            out@ == old(out)@ + src@.take(i as int),
        decreases src.len() - i,
    {
        out.push(src[i].clone());
        assert(src@.take(i + 1) =~= src@.take(i as int).push(src@[i as int]));
        i = i + 1;
    }
    assert(src@.take(i as int) =~= src@);
    proof {
        lemma_keys_concat(old(out)@, src@);
    }
}

/// Whether the keys of `v` strictly increase.
pub fn is_sorted<T: Keyed>(v: &Vec<T>) -> (r: bool)
    ensures
        r == sorted_by_key(v@),
{
    if v.len() == 0 {
        return true;
    }
    let mut j: usize = 1;
    while j < v.len()
        invariant
            1 <= j <= v.len(),
            forall|p: int, q: int| 0 <= p < q < j ==> str_lt(#[trigger] v@[p].key(), #[trigger] v@[q].key()),
        decreases v.len() - j,
    {
        if !str_less(v[j - 1].key_str(), v[j].key_str()) {
            return false;
        }
        proof {
            assert forall|p: int, q: int| 0 <= p < q < j + 1 implies str_lt(#[trigger] v@[p].key(), #[trigger] v@[q].key()) by {
                if q == j && p < j - 1 {
                    lemma_str_lt_order(v@[p].key(), v@[j - 1].key(), v@[q].key());
                }
            }
        }
        j = j + 1;
    }
    true
}

/// The position of the value with key `k`, if there is one.
pub fn find_key<T: Keyed>(v: &Vec<T>, k: &str) -> (r: Option<usize>)
    requires
        sorted_by_key(v@),
    ensures
        r is None <==> !keys_of(v@).contains(k@),
        r is Some ==> r->0 < v@.len() && v@[r->0 as int].key() == k@,
{
    let mut i: usize = 0;
    while i < v.len()
        invariant
            i <= v.len(),
            forall|j: int| 0 <= j < i ==> #[trigger] v@[j].key() != k@,
        decreases v.len() - i,
    {
        if same_text(v[i].key_str(), k) {
            return Some(i);
        }
        i = i + 1;
    }
    None
}

/// Inserts `x`, replacing the value that has the same key.
pub fn insert_keyed<T: Keyed>(v: &mut Vec<T>, x: T)
    requires
        sorted_by_key(old(v)@),
    ensures
        inserted_into(old(v)@, final(v)@, x),
        keys_of(final(v)@) == keys_of(old(v)@).insert(x.key()),
{
    let ghost o = v@;
    let mut i: usize = 0;
    while i < v.len() && str_less(v[i].key_str(), x.key_str())
        invariant
            v@ == o,
            sorted_by_key(o),
            i <= v.len(),
            forall|j: int| 0 <= j < i ==> str_lt(#[trigger] o[j].key(), x.key()),
        decreases v.len() - i,
    {
        i = i + 1;
    }
    if i < v.len() && same_text(v[i].key_str(), x.key_str()) {
        v.set(i, x);
        proof {
            assert forall|y: T| v@.contains(y) <==> (y == x || (o.contains(y) && y.key() != x.key())) by {
                if o.contains(y) && y.key() != x.key() {
                    let m = choose|m: int| 0 <= m < o.len() && o[m] == y;
                    assert(m != i);
                    assert(v@[m] == y);
                }
                if y == x {
                    assert(v@[i as int] == x);
                }
                if v@.contains(y) && y != x {
                    let m = choose|m: int| 0 <= m < v@.len() && v@[m] == y;
                    assert(m != i);
                    assert(o[m] == y);
                    if m < i {
                        assert(str_lt(o[m].key(), o[i as int].key()));
                    } else {
                        assert(str_lt(o[i as int].key(), o[m].key()));
                    }
                    lemma_str_lt_order(o[m].key(), o[i as int].key(), o[m].key());
                    lemma_str_lt_order(o[i as int].key(), o[m].key(), o[i as int].key());
                }
            }
            assert forall|p: int, q: int| 0 <= p < q < v@.len() implies str_lt(#[trigger] v@[p].key(), #[trigger] v@[q].key()) by {
                assert(str_lt(o[p].key(), o[q].key()));
            }
            assert(keys_of(v@) =~= keys_of(o).insert(x.key())) by {
                assert forall|k: Seq<char>| keys_of(o).insert(x.key()).contains(k) implies keys_of(v@).contains(k) by {
                    if k != x.key() {
                        let m = choose|m: int| 0 <= m < o.len() && #[trigger] o[m].key() == k;
                        assert(v@[m].key() == k);
                    } else {
                        assert(v@[i as int].key() == k);
                    }
                }
                assert forall|k: Seq<char>| keys_of(v@).contains(k) implies keys_of(o).insert(x.key()).contains(k) by {
                    let m = choose|m: int| 0 <= m < v@.len() && #[trigger] v@[m].key() == k;
                    if m != i {
                        assert(o[m].key() == k);
                    }
                }
            }
        }
    } else {
        proof {
            if i < v.len() {
                lemma_str_lt_order(o[i as int].key(), x.key(), o[i as int].key());
                assert(str_lt(x.key(), o[i as int].key()));
            }
        }
        v.insert(i, x);
        proof {
            assert forall|p: int, q: int| 0 <= p < q < v@.len() implies str_lt(#[trigger] v@[p].key(), #[trigger] v@[q].key()) by {
                if q < i {
                    assert(str_lt(o[p].key(), o[q].key()));
                } else if q == i {
                } else if p < i {
                    assert(str_lt(o[p].key(), x.key()));
                    assert(str_lt(x.key(), o[i as int].key()));
                    if q - 1 > i {
                        assert(str_lt(o[i as int].key(), o[q - 1].key()));
                        lemma_str_lt_order(x.key(), o[i as int].key(), o[q - 1].key());
                    }
                    lemma_str_lt_order(o[p].key(), x.key(), o[q - 1].key());
                } else if p == i {
                    if q - 1 > i {
                        assert(str_lt(o[i as int].key(), o[q - 1].key()));
                        lemma_str_lt_order(x.key(), o[i as int].key(), o[q - 1].key());
                    }
                } else {
                    assert(str_lt(o[p - 1].key(), o[q - 1].key()));
                }
            }
            assert forall|y: T| v@.contains(y) <==> (y == x || (o.contains(y) && y.key() != x.key())) by {
                if o.contains(y) {
                    let m = choose|m: int| 0 <= m < o.len() && o[m] == y;
                    if m < i {
                        assert(v@[m] == y);
                        lemma_str_lt_order(y.key(), y.key(), y.key());
                    } else {
                        assert(v@[m + 1] == y);
                        if m > i {
                            assert(str_lt(o[i as int].key(), o[m].key()));
                            lemma_str_lt_order(x.key(), o[i as int].key(), o[m].key());
                        }
                        lemma_str_lt_order(x.key(), x.key(), x.key());
                    }
                }
                if y == x {
                    assert(v@[i as int] == x);
                }
                if v@.contains(y) && y != x {
                    let m = choose|m: int| 0 <= m < v@.len() && v@[m] == y;
                    if m < i {
                        assert(o[m] == y);
                    } else {
                        assert(m != i);
                        assert(o[m - 1] == y);
                    }
                }
            }
            assert(keys_of(v@) =~= keys_of(o).insert(x.key())) by {
                assert forall|k: Seq<char>| keys_of(o).insert(x.key()).contains(k) implies keys_of(v@).contains(k) by {
                    if k != x.key() {
                        let m = choose|m: int| 0 <= m < o.len() && #[trigger] o[m].key() == k;
                        if m < i {
                            assert(v@[m].key() == k);
                        } else {
                            assert(v@[m + 1].key() == k);
                        }
                    } else {
                        assert(v@[i as int].key() == k);
                    }
                }
                assert forall|k: Seq<char>| keys_of(v@).contains(k) implies keys_of(o).insert(x.key()).contains(k) by {
                    let m = choose|m: int| 0 <= m < v@.len() && #[trigger] v@[m].key() == k;
                    if m < i {
                        assert(o[m].key() == k);
                    } else if m > i {
                        assert(o[m - 1].key() == k);
                    }
                }
            }
        }
    }
}

} // verus!
