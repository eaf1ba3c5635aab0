use vstd::prelude::*;

verus! {

/// Lexicographic order on character sequences, compared from position `i` on,
/// assuming the two sequences agree before `i`.
pub open spec fn lt_from(a: Seq<char>, b: Seq<char>, i: int) -> bool
    decreases a.len() - i,
{
    if i >= a.len() {
        i < b.len()
    } else if i >= b.len() {
        false
    } else if a[i] != b[i] {
        (a[i] as int) < (b[i] as int)
    } else {
        lt_from(a, b, i + 1)
    }
}

/// Strict lexicographic order on strings: the order of `String`'s `Ord`.
pub open spec fn str_lt(a: Seq<char>, b: Seq<char>) -> bool {
    lt_from(a, b, 0)
}

/// The characters of `s`, in order.
pub fn chars_of(s: &str) -> (r: Vec<char>)
    ensures
        r@ == s@,
{
    let mut r: Vec<char> = Vec::new();
    for c in it: s.chars()
        invariant
            r@ == it.seq().take(it.index() as int),
    {
        r.push(c);
    }
    r
}


/// Whether `a` comes strictly before `b` in lexicographic order.
pub fn str_less(a: &str, b: &str) -> (r: bool)
    ensures
        r == str_lt(a@, b@),
{
    let x = chars_of(a);
    let y = chars_of(b);
    let mut i: usize = 0;
    while i < x.len() && i < y.len() && x[i] == y[i]
        invariant
            x@ == a@,
            y@ == b@,
            i <= x.len(),
            i <= y.len(),
            lt_from(a@, b@, 0) == lt_from(a@, b@, i as int),
        decreases x.len() - i,
    {
        i = i + 1;
    }
    if i >= x.len() {
        i < y.len()
    } else if i >= y.len() {
        false
    } else {
        x[i] < y[i]
    }
}

/// Strictly increasing in lexicographic order.
pub open spec fn names_in_order(q: Seq<Seq<char>>) -> bool {
    forall|i: int, j: int| 0 <= i < j < q.len() ==> str_lt(#[trigger] q[i], #[trigger] q[j])
}

/// The names of a set, in lexicographic order.
pub open spec fn sorted_seq(s: Set<Seq<char>>) -> Seq<Seq<char>> {
    choose|q: Seq<Seq<char>>| names_in_order(q) && q.to_set() == s
}

/// Two ordered sequences of the same names are the same sequence.
pub proof fn lemma_names_in_order_unique(a: Seq<Seq<char>>, b: Seq<Seq<char>>)
    requires
        names_in_order(a),
        names_in_order(b),
        a.to_set() == b.to_set(),
    ensures
        a == b,
    decreases a.len(),
{
    if a.len() == 0 {
        if b.len() > 0 {
            assert(b.to_set().contains(b[0]));
        }
        assert(a =~= b);
    } else if b.len() == 0 {
        assert(a.to_set().contains(a[0]));
    } else {
        assert(a.to_set().contains(a[0]));
        assert(b.to_set().contains(b[0]));
        let ia = choose|i: int| 0 <= i < a.len() && a[i] == b[0];
        let ib = choose|i: int| 0 <= i < b.len() && b[i] == a[0];
        if ia > 0 {
            assert(str_lt(a[0], a[ia]));
            if ib > 0 {
                assert(str_lt(b[0], b[ib]));
                lemma_str_lt_order(a[0], b[0], a[0]);
            } else {
                lemma_str_lt_order(a[0], a[0], a[0]);
            }
        } else if ib > 0 {
            assert(str_lt(b[0], b[ib]));
            lemma_str_lt_order(b[0], b[0], b[0]);
        }
        let ta = a.skip(1);
        let tb = b.skip(1);
        assert forall|y: Seq<char>| ta.to_set().contains(y) <==> tb.to_set().contains(y) by {
            if ta.to_set().contains(y) {
                let k = choose|k: int| 0 <= k < ta.len() && ta[k] == y;
                assert(a[k + 1] == y);
                assert(str_lt(a[0], y));
                lemma_str_lt_order(y, y, y);
                assert(a.to_set().contains(y));
                let m = choose|m: int| 0 <= m < b.len() && b[m] == y;
                assert(m != 0);
                assert(tb[m - 1] == y);
            }
            if tb.to_set().contains(y) {
                let k = choose|k: int| 0 <= k < tb.len() && tb[k] == y;
                assert(b[k + 1] == y);
                assert(str_lt(b[0], y));
                lemma_str_lt_order(y, y, y);
                assert(b.to_set().contains(y));
                let m = choose|m: int| 0 <= m < a.len() && a[m] == y;
                assert(m != 0);
                assert(ta[m - 1] == y);
            }
        }
        assert(ta.to_set() =~= tb.to_set());
        lemma_names_in_order_unique(ta, tb);
        assert(a =~= seq![a[0]] + ta);
        assert(b =~= seq![b[0]] + tb);
    }
}

/// An ordered sequence of the names of `s` is `sorted_seq(s)`.
pub proof fn lemma_sorted_seq_is(q: Seq<Seq<char>>, s: Set<Seq<char>>)
    requires
        names_in_order(q),
        q.to_set() == s,
    ensures
        sorted_seq(s) == q,
{
    let r = sorted_seq(s);
    assert(names_in_order(r) && r.to_set() == s);
    lemma_names_in_order_unique(r, q);
}

/// Whether the two strings hold the same characters.
pub fn same_text(a: &str, b: &str) -> (r: bool)
    ensures
        r == (a@ == b@),
{
    proof {
        lemma_str_lt_order(a@, b@, a@);
    }
    !str_less(a, b) && !str_less(b, a)
}

pub proof fn lemma_lt_from_irreflexive(a: Seq<char>, i: int)
    requires
        0 <= i,
    ensures
        !lt_from(a, a, i),
    decreases a.len() - i,
{
    if i < a.len() {
        lemma_lt_from_irreflexive(a, i + 1);
    }
}

pub proof fn lemma_lt_from_transitive(a: Seq<char>, b: Seq<char>, c: Seq<char>, i: int)
    requires
        0 <= i,
        lt_from(a, b, i),
        lt_from(b, c, i),
    ensures
        lt_from(a, c, i),
    decreases a.len() - i,
{
    if i < a.len() && i < b.len() && i < c.len() && a[i] == b[i] && b[i] == c[i] {
        lemma_lt_from_transitive(a, b, c, i + 1);
    }
}

pub proof fn lemma_lt_from_total(a: Seq<char>, b: Seq<char>, i: int)
    requires
        0 <= i <= a.len(),
        i <= b.len(),
        a.subrange(i, a.len() as int) != b.subrange(i, b.len() as int),
    ensures
        lt_from(a, b, i) || lt_from(b, a, i),
    decreases a.len() - i,
{
    if i < a.len() && i < b.len() && a[i] == b[i] {
        if a.subrange(i + 1, a.len() as int) == b.subrange(i + 1, b.len() as int) {
            assert(a.subrange(i, a.len() as int) =~= seq![a[i]] + a.subrange(i + 1, a.len() as int));
            assert(b.subrange(i, b.len() as int) =~= seq![b[i]] + b.subrange(i + 1, b.len() as int));
        }
        lemma_lt_from_total(a, b, i + 1);
    } else if i >= a.len() && i >= b.len() {
        assert(a.subrange(i, a.len() as int) =~= b.subrange(i, b.len() as int));
    } else if i < a.len() && i < b.len() {
        assert((a[i] as int) != (b[i] as int));
    }
}

/// `str_lt` is a strict total order.
pub proof fn lemma_str_lt_order(a: Seq<char>, b: Seq<char>, c: Seq<char>)
    ensures
        !str_lt(a, a),
        str_lt(a, b) && str_lt(b, c) ==> str_lt(a, c),
        a != b ==> str_lt(a, b) || str_lt(b, a),
{
    lemma_lt_from_irreflexive(a, 0);
    if str_lt(a, b) && str_lt(b, c) {
        lemma_lt_from_transitive(a, b, c, 0);
    }
    if a != b {
        assert(a.subrange(0, a.len() as int) =~= a);
        assert(b.subrange(0, b.len() as int) =~= b);
        lemma_lt_from_total(a, b, 0);
    }
}


/// The first position at or after `i` where `s` holds `c`.
pub open spec fn first_from(s: Seq<char>, c: char, i: int) -> Option<int>
    decreases s.len() - i,
{
    if i < 0 || i >= s.len() {
        None
    } else if s[i] == c {
        Some(i)
    } else {
        first_from(s, c, i + 1)
    }
}

/// The last position before `j` where `s` holds `c`.
pub open spec fn last_before(s: Seq<char>, c: char, j: int) -> Option<int>
    decreases j,
{
    if j <= 0 || j > s.len() {
        None
    } else if s[j - 1] == c {
        Some(j - 1)
    } else {
        last_before(s, c, j - 1)
    }
}

/// `t` with everything strictly between its first `{` and its last `}` removed;
/// `t` itself when it has no such pair.
pub open spec fn body_cleared(t: Seq<char>) -> Seq<char> {
    match (first_from(t, '{', 0), last_before(t, '}', t.len() as int)) {
        (Some(l), Some(r)) => if l < r {
            t.take(l + 1) + t.skip(r)
        } else {
            t
        },
        _ => t,
    }
}

/// Whether `n` occurs in `h` as a contiguous piece.
pub open spec fn occurs_in(h: Seq<char>, n: Seq<char>) -> bool {
    exists|i: int| 0 <= i && i + n.len() <= h.len() && #[trigger] h.subrange(i, i + n.len()) == n
}

/// What follows the last `:` of a path; the whole path when it has none.
pub open spec fn last_segment(p: Seq<char>) -> Seq<char> {
    match last_before(p, ':', p.len() as int) {
        Some(k) => p.skip(k + 1),
        None => p,
    }
}

pub fn find_first(s: &Vec<char>, c: char) -> (r: Option<usize>)
    ensures
        r is None <==> first_from(s@, c, 0) is None,
        r is Some ==> first_from(s@, c, 0) == Some(r->0 as int) && r->0 < s@.len(),
{
    let mut i: usize = 0;
    while i < s.len()
        invariant
            i <= s.len(),
            first_from(s@, c, 0) == first_from(s@, c, i as int),
        decreases s.len() - i,
    {
        if s[i] == c {
            return Some(i);
        }
        i = i + 1;
    }
    None
}

pub fn find_last(s: &Vec<char>, c: char) -> (r: Option<usize>)
    ensures
        r is None <==> last_before(s@, c, s@.len() as int) is None,
        r is Some ==> last_before(s@, c, s@.len() as int) == Some(r->0 as int) && r->0 < s@.len(),
{
    let mut j: usize = s.len();
    while j > 0
        invariant
            j <= s.len(),
            last_before(s@, c, s@.len() as int) == last_before(s@, c, j as int),
        decreases j,
    {
        if s[j - 1] == c {
            return Some(j - 1);
        }
        j = j - 1;
    }
    None
}

/// Cuts a text between its first `{` and its last `}`, keeping both braces.
/// This works on characters only: a brace in an attribute or in a type cuts
/// there too, so rendering builds stubs from the parsed function instead.
pub fn clear_codes(codes: &mut String)
    ensures
        final(codes)@ == body_cleared(old(codes)@),
{
    let cs = chars_of(codes.as_str());
    let left = find_first(&cs, '{');
    let right = find_last(&cs, '}');
    match (left, right) {
        (Some(l), Some(r)) => {
            if l < r {
                let head = codes.as_str().substring_char(0, l + 1);
                let tail = codes.as_str().substring_char(r, cs.len());
                let mut out = head.to_owned();
                out.append(tail);
                assert(out@ =~= body_cleared(old(codes)@));
                *codes = out;
            }
        },
        _ => {},
    }
}

/// Whether `needle` occurs in `hay`.
pub fn contains_text(hay: &str, needle: &str) -> (r: bool)
    ensures
        r == occurs_in(hay@, needle@),
{
    let h = chars_of(hay);
    let n = chars_of(needle);
    if n.len() > h.len() {
        return false;
    }
    let mut i: usize = 0;
    while i <= h.len() - n.len()
        invariant
            h@ == hay@,
            n@ == needle@,
            n.len() <= h.len(),
            i <= h.len() - n.len() + 1,
            forall|k: int| 0 <= k < i ==> #[trigger] h@.subrange(k, k + n.len()) != n@,
        decreases h.len() - i,
    {
        let mut j: usize = 0;
        while j < n.len() && h[i + j] == n[j]
            invariant
                i + n.len() <= h.len(),
                j <= n.len(),
                forall|q: int| 0 <= q < j ==> h@[i + q] == n@[q],
            decreases n.len() - j,
        {
            j = j + 1;
        }
        if j == n.len() {
            assert(h@.subrange(i as int, i + n.len()) =~= n@);
            return true;
        }
        assert(h@.subrange(i as int, i + n.len())[j as int] != n@[j as int]);
        i = i + 1;
    }
    false
}

/// The last segment of a path such as `a::b::T`.
pub fn path_last_segment(p: &str) -> (r: String)
    ensures
        r@ == last_segment(p@),
{
    let cs = chars_of(p);
    match find_last(&cs, ':') {
        Some(k) => {
            assert(k < cs.len());
            p.substring_char(k + 1, cs.len()).to_owned()
        },
        None => p.to_owned(),
    }
}

} // verus!
