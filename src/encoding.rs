use vstd::prelude::*;
use crate::text::chars_of;

verus! {

/// Letters and digits of ASCII stand for themselves in a file name.
pub open spec fn plain_char(c: char) -> bool {
    (97 <= c as int <= 122) || (65 <= c as int <= 90) || (48 <= c as int <= 57)
}

/// The lower-case hexadecimal digit for `d` in `0..16`.
pub open spec fn hex_digit(d: int) -> char {
    if d < 10 {
        (48 + d) as char
    } else {
        (87 + d) as char
    }
}

/// A plain character as itself; any other as `_` and six hexadecimal digits
/// of its code point.
pub open spec fn encode_char(c: char) -> Seq<char> {
    if plain_char(c) {
        seq![c]
    } else {
        let v = c as int;
        seq![
            '_',
            hex_digit((v / 0x100000) % 16),
            hex_digit((v / 0x10000) % 16),
            hex_digit((v / 0x1000) % 16),
            hex_digit((v / 0x100) % 16),
            hex_digit((v / 0x10) % 16),
            hex_digit(v % 16),
        ]
    }
}

/// The file name under which the context of a qualified name is written.
pub open spec fn encoded(s: Seq<char>) -> Seq<char>
    decreases s.len(),
{
    if s.len() == 0 {
        Seq::empty()
    } else {
        encoded(s.drop_last()) + encode_char(s.last())
    }
}

proof fn lemma_digits_determine(x: u32, y: u32)
    requires
        x < 0x1000000,
        y < 0x1000000,
        (x / 0x100000) % 16 == (y / 0x100000) % 16,
        (x / 0x10000) % 16 == (y / 0x10000) % 16,
        (x / 0x1000) % 16 == (y / 0x1000) % 16,
        (x / 0x100) % 16 == (y / 0x100) % 16,
        (x / 0x10) % 16 == (y / 0x10) % 16,
        x % 16 == y % 16,
    ensures
        x == y,
{
    assert(x == y) by (bit_vector)
        requires
            x < 0x1000000,
            y < 0x1000000,
            (x / 0x100000) % 16 == (y / 0x100000) % 16,
            (x / 0x10000) % 16 == (y / 0x10000) % 16,
            (x / 0x1000) % 16 == (y / 0x1000) % 16,
            (x / 0x100) % 16 == (y / 0x100) % 16,
            (x / 0x10) % 16 == (y / 0x10) % 16,
            x % 16 == y % 16,
    ;
}

proof fn lemma_hex_digit_injective(a: int, b: int)
    requires
        0 <= a < 16,
        0 <= b < 16,
        hex_digit(a) == hex_digit(b),
    ensures
        a == b,
{
    assert((hex_digit(a) as int) == (if a < 10 { 48 + a } else { 87 + a }));
    assert((hex_digit(b) as int) == (if b < 10 { 48 + b } else { 87 + b }));
}

proof fn lemma_encoded_concat(a: Seq<char>, b: Seq<char>)
    ensures
        encoded(a + b) == encoded(a) + encoded(b),
    decreases b.len(),
{
    if b.len() == 0 {
        assert(a + b =~= a);
        assert(encoded(a) + encoded(b) =~= encoded(a));
    } else {
        assert((a + b).drop_last() =~= a + b.drop_last());
        assert((a + b).last() == b.last());
        lemma_encoded_concat(a, b.drop_last());
        assert(encoded(a) + encoded(b) =~= encoded(a) + encoded(b.drop_last()) + encode_char(b.last()));
    }
}

proof fn lemma_encoded_front(s: Seq<char>)
    requires
        s.len() > 0,
    ensures
        encoded(s) == encode_char(s[0]) + encoded(s.skip(1)),
{
    let h = seq![s[0]];
    lemma_encoded_concat(h, s.skip(1));
    assert(h + s.skip(1) =~= s);
    assert(h.drop_last() =~= Seq::<char>::empty());
    assert(h.last() == s[0]);
    let e = encode_char(s[0]);
    assert(encoded(h) == encoded(h.drop_last()) + e);
    assert(encoded(Seq::<char>::empty()) == Seq::<char>::empty());
    assert(Seq::<char>::empty() + e =~= e);
}

proof fn lemma_encode_char_injective(c1: char, c2: char, r1: Seq<char>, r2: Seq<char>)
    requires
        encode_char(c1) + r1 == encode_char(c2) + r2,
    ensures
        c1 == c2,
        r1 == r2,
{
    let e1 = encode_char(c1);
    let e2 = encode_char(c2);
    assert((e1 + r1)[0] == e1[0]);
    assert((e2 + r2)[0] == e2[0]);
    assert(!plain_char('_'));
    if plain_char(c1) {
        assert(e1[0] == c1);
        assert(plain_char(c2)) by {
            if !plain_char(c2) {
                assert(e2[0] == '_');
            }
        }
        assert(c1 == c2);
    } else {
        assert(!plain_char(c2)) by {
            if plain_char(c2) {
                assert(e2[0] == c2);
            }
        }
        let v1 = c1 as int;
        let v2 = c2 as int;
        assert forall|k: int| 1 <= k < 7 implies e1[k] == e2[k] by {
            assert((e1 + r1)[k] == e1[k]);
            assert((e2 + r2)[k] == e2[k]);
        }
        assert(e1[1] == hex_digit((v1 / 0x100000) % 16));
        lemma_hex_digit_injective((v1 / 0x100000) % 16, (v2 / 0x100000) % 16);
        lemma_hex_digit_injective((v1 / 0x10000) % 16, (v2 / 0x10000) % 16);
        lemma_hex_digit_injective((v1 / 0x1000) % 16, (v2 / 0x1000) % 16);
        lemma_hex_digit_injective((v1 / 0x100) % 16, (v2 / 0x100) % 16);
        lemma_hex_digit_injective((v1 / 0x10) % 16, (v2 / 0x10) % 16);
        lemma_hex_digit_injective(v1 % 16, v2 % 16);
        let x = c1 as u32;
        let y = c2 as u32;
        lemma_digits_determine(x, y);
        assert(c1 == c2);
    }
    assert((e1 + r1).skip(e1.len() as int) =~= r1);
    assert((e2 + r2).skip(e2.len() as int) =~= r2);
}

/// Different qualified names get different file names.
pub proof fn law_encoded_injective(a: Seq<char>, b: Seq<char>)
    requires
        encoded(a) == encoded(b),
    ensures
        a == b,
    decreases a.len(),
{
    if a.len() == 0 {
        if b.len() > 0 {
            lemma_encoded_front(b);
            assert(encoded(b).len() > 0);
        }
        assert(a =~= b);
    } else {
        lemma_encoded_front(a);
        if b.len() == 0 {
            assert(encoded(a).len() > 0);
        } else {
            lemma_encoded_front(b);
            lemma_encode_char_injective(a[0], b[0], encoded(a.skip(1)), encoded(b.skip(1)));
            law_encoded_injective(a.skip(1), b.skip(1));
            assert(a =~= seq![a[0]] + a.skip(1));
            assert(b =~= seq![b[0]] + b.skip(1));
        }
    }
}

/// Relies on `String::push`: appends one character.
#[verifier::external_body]
fn push_char(s: &mut String, c: char)
    ensures
        final(s)@ == old(s)@.push(c),
{
    s.push(c);
}

fn hex_char(d: u32) -> (r: char)
    requires
        d < 16,
    ensures
        r == hex_digit(d as int),
{
    if d < 10 {
        ((48 + d) as u8) as char
    } else {
        ((87 + d) as u8) as char
    }
}

fn push_encoded(r: &mut String, c: char)
    ensures
        final(r)@ == old(r)@ + encode_char(c),
{
    let v = c as u32;
    if (97 <= v && v <= 122) || (65 <= v && v <= 90) || (48 <= v && v <= 57) {
        push_char(r, c);
    } else {
        push_char(r, '_');
        push_char(r, hex_char((v / 0x100000) % 16));
        push_char(r, hex_char((v / 0x10000) % 16));
        push_char(r, hex_char((v / 0x1000) % 16));
        push_char(r, hex_char((v / 0x100) % 16));
        push_char(r, hex_char((v / 0x10) % 16));
        push_char(r, hex_char(v % 16));
    }
    assert(final(r)@ =~= old(r)@ + encode_char(c));
}

/// A file name for the qualified name `name`: letters and digits are kept,
/// every other character is written as `_` and six hexadecimal digits, so
/// that different names get different files.
pub fn encoded_name(name: &str) -> (r: String)
    ensures
        r@ == encoded(name@),
{
    let cs = chars_of(name);
    let mut r = String::new();
    let mut j: usize = 0;
    while j < cs.len()
        invariant
            j <= cs.len(),
            cs@ == name@,
            r@ == encoded(cs@.take(j as int)),
        decreases cs.len() - j,
    {
        proof {
            assert(cs@.take(j + 1).drop_last() =~= cs@.take(j as int));
        }
        push_encoded(&mut r, cs[j]);
        j = j + 1;
    }
    assert(cs@.take(j as int) =~= cs@);
    r
}

} // verus!
