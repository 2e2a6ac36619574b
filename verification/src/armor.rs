//! Escaping of the signed value into the cookie-value alphabet.
//!
//! A cookie value may hold only the printable ASCII characters other than
//! space, the double quote, comma, semicolon and backslash. The signed
//! value carries the JSON payload verbatim, so it must be escaped before
//! it becomes the cookie value. The canonical form is fixed here, bit
//! exactly, and the reader accepts exactly this form: every character in
//! the alphabet except the `%` marker stands for itself, every other
//! character is written as `%` followed by six lowercase hexadecimal
//! digits of its code point.

use vstd::prelude::*;
use vstd::string::StrSliceExecFns;
use crate::encode::hex_char;
use crate::parse::{hex_val, lemma_hex_digit_inj};
use crate::wire::hex_digit;

verus! {

/// Relies on `char::from_u32`: the character with the given code point,
/// for every valid code point (not a surrogate, at most 0x10FFFF), and
/// nothing for the rest.
pub assume_specification[ char::from_u32 ](n: u32) -> (r: Option<char>)
    ensures
        r matches Some(c) ==> c as u32 == n,
        (n < 0xD800 || (0xE000 <= n && n <= 0x10FFFF)) <==> r is Some,
;

/// The characters a cookie value may hold: printable ASCII except space,
/// the double quote, comma, semicolon and backslash.
pub open spec fn cookie_octet(c: char) -> bool {
    &&& 0x21 <= c as u32 <= 0x7e
    &&& c != '"'
    &&& c != ','
    &&& c != ';'
    &&& c != '\\'
}

/// The characters the armoring keeps verbatim: every cookie-value
/// character except the escape marker itself.
pub open spec fn plain_char(c: char) -> bool {
    cookie_octet(c) && c != '%'
}

/// How one character of the signed value stands in the cookie value.
pub open spec fn armor_char(c: char) -> Seq<char> {
    if plain_char(c) {
        seq![c]
    } else {
        let v = c as u32 as int;
        seq!['%', hex_digit(v / 0x100000 % 16), hex_digit(v / 0x10000 % 16), hex_digit(
            v / 0x1000 % 16,
        ), hex_digit(v / 0x100 % 16), hex_digit(v / 0x10 % 16), hex_digit(v % 16)]
    }
}

/// How the whole signed value stands in the cookie value.
pub open spec fn armor(s: Seq<char>) -> Seq<char>
    decreases s.len(),
{
    if s.len() == 0 {
        Seq::empty()
    } else {
        armor_char(s[0]) + armor(s.drop_first())
    }
}

/// Whether the armor of the remainder `t2` fills `v` from `p` to its end.
pub open spec fn armor_matches(v: Seq<char>, p: int, t2: Seq<char>) -> bool {
    &&& 0 <= p <= v.len()
    &&& v.subrange(p, v.len() as int) == armor(t2)
}

/// Armoring distributes over concatenation.
pub proof fn lemma_armor_concat(a: Seq<char>, b: Seq<char>)
    ensures
        armor(a + b) == armor(a) + armor(b),
    decreases a.len(),
{
    if a.len() == 0 {
        assert(a + b =~= b);
        assert(armor(a) + armor(b) =~= armor(b));
    } else {
        assert((a + b).drop_first() =~= a.drop_first() + b);
        lemma_armor_concat(a.drop_first(), b);
        assert(armor(a + b) =~= armor(a) + armor(b));
    }
}

/// Armoring one more character appends its armor.
pub proof fn lemma_armor_take_snoc(s: Seq<char>, i: int)
    requires
        0 <= i < s.len(),
    ensures
        armor(s.take(i + 1)) == armor(s.take(i)) + armor_char(s[i]),
{
    assert(s.take(i + 1) =~= s.take(i) + seq![s[i]]);
    lemma_armor_concat(s.take(i), seq![s[i]]);
    let s1 = seq![s[i]];
    assert(s1.drop_first() =~= Seq::<char>::empty());
    assert(armor(s1.drop_first()) =~= Seq::<char>::empty());
    assert(armor(s1) =~= armor_char(s[i]) + armor(s1.drop_first()));
    assert(armor(s1) =~= armor_char(s[i]));
}

/// Every character the armoring emits is a cookie-value character: the
/// plain ones by definition, the marker and the hexadecimal digits by
/// inspection.
pub proof fn lemma_armor_cookie_octets(s: Seq<char>)
    ensures
        forall|i: int| 0 <= i < armor(s).len() ==> #[trigger] cookie_octet(armor(s)[i]),
    decreases s.len(),
{
    if s.len() > 0 {
        lemma_armor_cookie_octets(s.drop_first());
        assert forall|i: int| 0 <= i < armor(s).len() implies #[trigger] cookie_octet(
            armor(s)[i],
        ) by {
            let e = armor_char(s[0]);
            assert(armor(s) == e + armor(s.drop_first()));
            if i < e.len() {
                assert(cookie_octet(e[i]));
            } else {
                assert(armor(s)[i] == armor(s.drop_first())[i - e.len()]);
            }
        }
    }
}

/// The six base-16 digits of a value recombine to it, digit for digit.
proof fn lemma_hex_recombine(d5: int, d4: int, d3: int, d2: int, d1: int, d0: int)
    requires
        0 <= d5 < 16,
        0 <= d4 < 16,
        0 <= d3 < 16,
        0 <= d2 < 16,
        0 <= d1 < 16,
        0 <= d0 < 16,
    ensures
        ({
            let x = d5 * 0x100000 + d4 * 0x10000 + d3 * 0x1000 + d2 * 0x100 + d1 * 0x10 + d0;
            &&& 0 <= x < 0x1000000
            &&& x / 0x100000 % 16 == d5
            &&& x / 0x10000 % 16 == d4
            &&& x / 0x1000 % 16 == d3
            &&& x / 0x100 % 16 == d2
            &&& x / 0x10 % 16 == d1
            &&& x % 16 == d0
        }),
{
    let x = d5 * 0x100000 + d4 * 0x10000 + d3 * 0x1000 + d2 * 0x100 + d1 * 0x10 + d0;
    assert(x / 0x100000 == d5 && x / 0x10000 == d5 * 16 + d4 && x / 0x1000 == d5 * 256 + d4 * 16
        + d3 && x / 0x100 == d5 * 4096 + d4 * 256 + d3 * 16 + d2 && x / 0x10 == d5 * 65536 + d4
        * 4096 + d3 * 256 + d2 * 16 + d1 && x % 16 == d0) by (nonlinear_arith)
        requires
            0 <= d5 < 16,
            0 <= d4 < 16,
            0 <= d3 < 16,
            0 <= d2 < 16,
            0 <= d1 < 16,
            0 <= d0 < 16,
            x == d5 * 0x100000 + d4 * 0x10000 + d3 * 0x1000 + d2 * 0x100 + d1 * 0x10 + d0,
    ;
}

/// A value below 0x1000000 is the weighted sum of its six base-16 digits.
proof fn lemma_hex_decompose(x: int)
    requires
        0 <= x < 0x1000000,
    ensures
        x == x / 0x100000 % 16 * 0x100000 + x / 0x10000 % 16 * 0x10000 + x / 0x1000 % 16 * 0x1000
            + x / 0x100 % 16 * 0x100 + x / 0x10 % 16 * 0x10 + x % 16,
{
    assert(x == x / 0x100000 % 16 * 0x100000 + x / 0x10000 % 16 * 0x10000 + x / 0x1000 % 16
        * 0x1000 + x / 0x100 % 16 * 0x100 + x / 0x10 % 16 * 0x10 + x % 16) by (nonlinear_arith)
        requires
            0 <= x < 0x1000000,
    ;
}

/// Escapes the signed value into the cookie-value alphabet.
pub fn armor_value(s: &str) -> (r: String)
    ensures
        r@ == armor(s@),
{
    let n = s.unicode_len();
    let mut out = String::new();
    let mut i: usize = 0;
    while i < n
        invariant
            n == s@.len(),
            i <= n,
            out@ == armor(s@.take(i as int)),
        decreases n - i,
    {
        let c = s.get_char(i);
        let v = c as u32;
        let plain: bool = 0x21 <= v && v <= 0x7e && c != '"' && c != ',' && c != ';' && c != '\\'
            && c != '%';
        if plain {
            out.push(c);
        } else {
            out.push('%');
            out.push(hex_char((v / 0x100000 % 16) as u8));
            out.push(hex_char((v / 0x10000 % 16) as u8));
            out.push(hex_char((v / 0x1000 % 16) as u8));
            out.push(hex_char((v / 0x100 % 16) as u8));
            out.push(hex_char((v / 0x10 % 16) as u8));
            out.push(hex_char((v % 16) as u8));
        }
        proof {
            lemma_armor_take_snoc(s@, i as int);
        }
        assert(out@ =~= armor(s@.take(i as int + 1)));
        i = i + 1;
    }
    assert(s@.take(n as int) =~= s@);
    out
}

/// Where the armor of `t2` fills `v` from `p` to the end: either the
/// remainder is empty and `p` is the end, or the armor of its first
/// character stands at `p` and the rest fills what follows.
proof fn lemma_armor_head(v: Seq<char>, p: int, t2: Seq<char>)
    requires
        armor_matches(v, p, t2),
    ensures
        t2.len() == 0 ==> p == v.len(),
        t2.len() > 0 ==> {
            &&& v.len() - p >= armor_char(t2[0]).len()
            &&& armor_matches(v, p + armor_char(t2[0]).len(), t2.drop_first())
            &&& forall|k: int|
                0 <= k < armor_char(t2[0]).len() ==> #[trigger] armor_char(t2[0])[k] == v[p + k]
        },
{
    if t2.len() == 0 {
        assert(v.subrange(p, v.len() as int).len() == 0);
    } else {
        let e = armor_char(t2[0]);
        let rest = armor(t2.drop_first());
        assert(armor(t2) == e + rest);
        assert(e.len() >= 1);
        assert(v.subrange(p, v.len() as int).len() == e.len() + rest.len());
        assert forall|k: int| 0 <= k < e.len() implies #[trigger] e[k] == v[p + k] by {
            assert(v.subrange(p, v.len() as int)[k] == v[p + k]);
            assert((e + rest)[k] == e[k]);
        }
        assert(v.subrange(p + e.len(), v.len() as int) =~= rest) by {
            assert forall|k: int|
                0 <= k < rest.len() implies v.subrange(p + e.len(), v.len() as int)[k]
                == rest[k] by {
                assert(v.subrange(p, v.len() as int)[e.len() + k] == v[p + e.len() + k]);
                assert((e + rest)[e.len() + k] == rest[k]);
            }
        }
    }
}

/// Two characters whose armor stands at the same position of `v` are the
/// same character.
proof fn lemma_armor_agree(v: Seq<char>, p: int, a: char, c: char)
    requires
        0 <= p <= v.len(),
        forall|k: int|
            0 <= k < armor_char(a).len() ==> p + k < v.len() && #[trigger] armor_char(a)[k] == v[p
                + k],
        forall|k: int|
            0 <= k < armor_char(c).len() ==> p + k < v.len() && #[trigger] armor_char(c)[k] == v[p
                + k],
    ensures
        a == c,
{
    let ea = armor_char(a);
    let ec = armor_char(c);
    assert(ea[0] == v[p] && ec[0] == v[p]);
    if plain_char(a) != plain_char(c) {
        // one plain, one escaped: a plain character is never the marker
        assert(false);
    }
    if plain_char(a) {
        assert(a == v[p] && c == v[p]);
    } else {
        let av = a as u32 as int;
        let cv = c as u32 as int;
        assert forall|k: int| 1 <= k < 7 implies ea[k] == ec[k] by {
            assert(ea[k] == v[p + k] && ec[k] == v[p + k]);
        }
        lemma_hex_digit_inj(av / 0x100000 % 16, cv / 0x100000 % 16);
        lemma_hex_digit_inj(av / 0x10000 % 16, cv / 0x10000 % 16);
        lemma_hex_digit_inj(av / 0x1000 % 16, cv / 0x1000 % 16);
        lemma_hex_digit_inj(av / 0x100 % 16, cv / 0x100 % 16);
        lemma_hex_digit_inj(av / 0x10 % 16, cv / 0x10 % 16);
        lemma_hex_digit_inj(av % 16, cv % 16);
        lemma_hex_decompose(av);
        lemma_hex_decompose(cv);
        assert(av == cv);
        assert(a as u32 == c as u32);
    }
}

/// One consuming step of [`dearmor_value`] preserves its completeness
/// invariant: a character whose armor stands next in `v` moves from the
/// remainder to the accumulator.
proof fn lemma_armor_step(v: Seq<char>, p: int, acc: Seq<char>, c: char)
    requires
        0 <= p <= v.len(),
        v.subrange(0, p) == armor(acc),
        forall|k: int|
            0 <= k < armor_char(c).len() ==> p + k < v.len() && #[trigger] armor_char(c)[k] == v[p
                + k],
        forall|t: Seq<char>|
            v == armor(t) ==> exists|t2: Seq<char>|
                {
                    &&& t == acc + t2
                    &&& #[trigger] armor_matches(v, p, t2)
                },
    ensures
        p + armor_char(c).len() <= v.len(),
        v.subrange(0, p + armor_char(c).len()) == armor(acc.push(c)),
        forall|t: Seq<char>|
            v == armor(t) ==> exists|t2: Seq<char>|
                {
                    &&& t == acc.push(c) + t2
                    &&& #[trigger] armor_matches(v, p + armor_char(c).len(), t2)
                },
{
    let e = armor_char(c);
    assert(e.len() >= 1);
    assert(armor_char(c)[e.len() - 1] == v[p + (e.len() - 1)]);
    assert(p + e.len() <= v.len());
    lemma_armor_concat(acc, seq![c]);
    let s1 = seq![c];
    assert(s1.drop_first() =~= Seq::<char>::empty());
    assert(armor(s1.drop_first()) =~= Seq::<char>::empty());
    assert(armor(s1) =~= e);
    assert(acc + s1 =~= acc.push(c));
    assert(v.subrange(0, p + e.len()) =~= armor(acc) + e) by {
        assert forall|k: int|
            0 <= k < p + e.len() implies v.subrange(0, p + e.len())[k] == (armor(acc) + e)[k] by {
            if k < p {
                assert(v.subrange(0, p)[k] == v[k]);
            } else {
                assert(e[k - p] == v[k]);
            }
        }
    }
    assert(armor(acc.push(c)) =~= armor(acc) + e);
    assert forall|t: Seq<char>| v == armor(t) implies exists|t2: Seq<char>|
        {
            &&& t == acc.push(c) + t2
            &&& #[trigger] armor_matches(v, p + e.len(), t2)
        } by {
        let t2 = choose|t2: Seq<char>| t == acc + t2 && #[trigger] armor_matches(v, p, t2);
        lemma_armor_head(v, p, t2);
        if t2.len() == 0 {
            assert(p == v.len());
            assert(armor_char(c)[0] == v[p]);
            assert(false);
        }
        lemma_armor_agree(v, p, t2[0], c);
        let t3 = t2.drop_first();
        assert(t == acc.push(c) + t3) by {
            assert(t2 =~= seq![t2[0]] + t3);
            assert(acc + t2 =~= acc.push(c) + t3);
        }
        assert(armor_matches(v, p + e.len(), t3));
    }
}

/// The code point of any character: a valid scalar value, unchanged by
/// the cast through `u32`.
proof fn lemma_char_code(c: char)
    ensures
        0 <= c as int <= 0x10FFFF,
        (c as int <= 0xD7FF || 0xE000 <= c as int),
        (c as u32 as int == c as int),
{
}

/// Where the escape of a non-plain character `m` stands at `p`: the
/// marker, then the six hexadecimal digits of its code point, which is a
/// valid scalar value recombined from those digits.
proof fn lemma_escape_shape(v: Seq<char>, p: int, m: char)
    requires
        !plain_char(m),
        0 <= p,
        p + 7 <= v.len(),
        v.subrange(p, p + 7) == armor_char(m),
    ensures
        0 <= m as int && m as int <= 0xFFFFFF,
        (m as int <= 0xD7FF || (0xE000 <= m as int && m as int <= 0x10FFFF)),
        (m as u32 as int == m as int),
        v[p] == '%',
        v[p + 1] == hex_digit(m as int / 0x100000 % 16),
        v[p + 2] == hex_digit(m as int / 0x10000 % 16),
        v[p + 3] == hex_digit(m as int / 0x1000 % 16),
        v[p + 4] == hex_digit(m as int / 0x100 % 16),
        v[p + 5] == hex_digit(m as int / 0x10 % 16),
        v[p + 6] == hex_digit(m as int % 16),
        (m as int == m as int / 0x100000 % 16 * 0x100000 + m as int / 0x10000 % 16 * 0x10000 + m
            as int / 0x1000 % 16 * 0x1000 + m as int / 0x100 % 16 * 0x100 + m as int / 0x10 % 16
            * 0x10 + m as int % 16),
{
    assert(m as u32 as int == m as int);
    let mi = m as int;
    lemma_hex_decompose(mi);
    assert forall|k: int| 0 <= k < 7 implies armor_char(m)[k] == v[p + k] by {
        assert(v.subrange(p, p + 7)[k] == v[p + k]);
    }
    assert(v[p] == armor_char(m)[0]);
    assert(v[p + 1] == armor_char(m)[1]);
    assert(v[p + 2] == armor_char(m)[2]);
    assert(v[p + 3] == armor_char(m)[3]);
    assert(v[p + 4] == armor_char(m)[4]);
    assert(v[p + 5] == armor_char(m)[5]);
    assert(v[p + 6] == armor_char(m)[6]);
}

/// Reads one escape standing at `p`: the marker and six lowercase
/// hexadecimal digits denoting a character outside the plain set.
/// Accepts exactly the canonical escapes, each for its one character.
#[verifier::rlimit(100)]
fn dearmor_escape(v: &Vec<char>, p: usize) -> (r: Option<char>)
    requires
        p < v@.len(),
        v@[p as int] == '%',
    ensures
        r matches Some(ch) ==> p + 7 <= v@.len() && !plain_char(ch) && v@.subrange(
            p as int,
            p + 7 as int,
        ) == armor_char(ch),
        forall|m: char|
            (!plain_char(m) && p + 7 <= v@.len() && v@.subrange(p as int, p + 7 as int)
                == armor_char(m)) ==> (r matches Some(ch) && ch == m),
{
    let n = v.len();
    if n - p < 7 {
        return None;
    }
    let d5 = hex_val(v[p + 1]);
    let d4 = hex_val(v[p + 2]);
    let d3 = hex_val(v[p + 3]);
    let d2 = hex_val(v[p + 4]);
    let d1 = hex_val(v[p + 5]);
    let d0 = hex_val(v[p + 6]);
    let digits: Option<(u8, u8, u8, u8, u8, u8)> = match (d5, d4, d3, d2, d1, d0) {
        (Some(a5), Some(a4), Some(a3), Some(a2), Some(a1), Some(a0)) => Some(
            (a5, a4, a3, a2, a1, a0),
        ),
        _ => None,
    };
    let decoded: Option<char> = match digits {
        Some((a5, a4, a3, a2, a1, a0)) => {
            let code: u32 = a5 as u32 * 0x100000 + a4 as u32 * 0x10000 + a3 as u32 * 0x1000
                + a2 as u32 * 0x100 + a1 as u32 * 0x10 + a0 as u32;
            char::from_u32(code)
        },
        None => None,
    };
    let accepted: Option<char> = match decoded {
        Some(ch) => {
            let chv = ch as u32;
            let ch_plain: bool = 0x21 <= chv && chv <= 0x7e && ch != '"' && ch != ',' && ch != ';'
                && ch != '\\' && ch != '%';
            if ch_plain {
                None
            } else {
                Some(ch)
            }
        },
        None => None,
    };
    proof {
        // what was read is the canonical escape of the accepted character
        if accepted is Some {
            let ch = accepted->0;
            let chv = ch as u32 as int;
            let tup = digits->0;
            lemma_hex_recombine(
                tup.0 as int,
                tup.1 as int,
                tup.2 as int,
                tup.3 as int,
                tup.4 as int,
                tup.5 as int,
            );
            assert(armor_char(ch) =~= seq!['%', hex_digit(chv / 0x100000 % 16), hex_digit(
                chv / 0x10000 % 16,
            ), hex_digit(chv / 0x1000 % 16), hex_digit(chv / 0x100 % 16), hex_digit(
                chv / 0x10 % 16,
            ), hex_digit(chv % 16)]);
            assert(v@.subrange(p as int, p + 7 as int) =~= armor_char(ch)) by {
                assert forall|k: int|
                    0 <= k < 7 implies v@.subrange(p as int, p + 7 as int)[k] == armor_char(
                    ch,
                )[k] by {
                    assert(v@.subrange(p as int, p + 7 as int)[k] == v@[p + k]);
                }
            }
        }
        // and the canonical escape of any character here is accepted
        assert forall|m: char|
            (!plain_char(m) && p + 7 <= v@.len() && v@.subrange(p as int, p + 7 as int)
                == armor_char(m)) implies (accepted matches Some(ch) && ch == m) by {
            lemma_escape_shape(v@, p as int, m);
            let mi = m as int;
            assert(d5 matches Some(u) && u as int == mi / 0x100000 % 16);
            assert(d4 matches Some(u) && u as int == mi / 0x10000 % 16);
            assert(d3 matches Some(u) && u as int == mi / 0x1000 % 16);
            assert(d2 matches Some(u) && u as int == mi / 0x100 % 16);
            assert(d1 matches Some(u) && u as int == mi / 0x10 % 16);
            assert(d0 matches Some(u) && u as int == mi % 16);
            assert(decoded matches Some(u) && u as u32 == m as u32);
            lemma_char_code(decoded->0);
            assert(decoded matches Some(u) && u as int == m as int);
            assert(decoded matches Some(u) && u == m);
        }
    }
    accepted
}

/// Reads a cookie value back to the signed value it armors. Returns a
/// value exactly when the input is the armor of one; that value is then
/// unique.
#[verifier::loop_isolation(false)]
#[verifier::rlimit(60)]
pub fn dearmor_value(s: &str) -> (r: Option<String>)
    ensures
        r matches Some(t) ==> s@ == armor(t@),
        forall|t: Seq<char>| s@ == armor(t) ==> (r matches Some(u) && u@ == t),
{
    let v = crate::strutil::str_chars(s);
    let n = v.len();
    let mut out = String::new();
    let mut p: usize = 0;
    proof {
        assert(s@.subrange(0, 0) =~= Seq::<char>::empty());
        assert(armor(out@) =~= Seq::<char>::empty());
        assert forall|t: Seq<char>| s@ == armor(t) implies exists|t2: Seq<char>|
            {
                &&& t == out@ + t2
                &&& #[trigger] armor_matches(s@, 0, t2)
            } by {
            assert(s@.subrange(0, s@.len() as int) =~= s@);
            assert(armor_matches(s@, 0, t));
            assert(t == out@ + t) by {
                assert(out@ + t =~= t);
            }
        }
    }
    loop
        invariant
            p <= n,
            n == s@.len(),
            v@ == s@,
            s@.subrange(0, p as int) == armor(out@),
            forall|t: Seq<char>|
                s@ == armor(t) ==> exists|t2: Seq<char>|
                    {
                        &&& t == out@ + t2
                        &&& #[trigger] armor_matches(s@, p as int, t2)
                    },
        decreases n - p,
    {
        if p == n {
            proof {
                assert(s@.subrange(0, n as int) =~= s@);
                assert forall|t: Seq<char>| s@ == armor(t) implies t == out@ by {
                    let t2 = choose|t2: Seq<char>|
                        t == out@ + t2 && #[trigger] armor_matches(s@, p as int, t2);
                    lemma_armor_head(s@, p as int, t2);
                    if t2.len() > 0 {
                        assert(s@.len() - p >= armor_char(t2[0]).len());
                        assert(armor_char(t2[0]).len() >= 1);
                        assert(false);
                    }
                    assert(t =~= out@);
                }
            }
            return Some(out);
        }
        let c = v[p];
        let cv = c as u32;
        let plain: bool = 0x21 <= cv && cv <= 0x7e && c != '"' && c != ',' && c != ';' && c != '\\'
            && c != '%';
        if plain {
            proof {
                lemma_armor_step(s@, p as int, out@, c);
            }
            out.push(c);
            p = p + 1;
        } else if c == '%' {
            match dearmor_escape(&v, p) {
                Some(ch) => {
                    proof {
                        assert forall|k: int|
                            0 <= k < armor_char(ch).len() implies p + k < n
                            && #[trigger] armor_char(ch)[k] == s@[p + k] by {
                            assert(v@.subrange(p as int, p + 7 as int)[k] == v@[p + k]);
                        }
                        lemma_armor_step(s@, p as int, out@, ch);
                    }
                    out.push(ch);
                    p = p + 7;
                },
                None => {
                    proof {
                        assert forall|t: Seq<char>| s@ != armor(t) by {
                            if s@ == armor(t) {
                                let t2 = choose|t2: Seq<char>|
                                    t == out@ + t2 && #[trigger] armor_matches(s@, p as int, t2);
                                lemma_armor_head(s@, p as int, t2);
                                assert(t2.len() > 0);
                                assert(armor_char(t2[0])[0] == s@[p as int]);
                                assert(!plain_char(t2[0]));
                                assert(armor_char(t2[0]).len() == 7);
                                assert(v@.subrange(p as int, p + 7 as int) =~= armor_char(
                                    t2[0],
                                )) by {
                                    assert forall|k: int|
                                        0 <= k < 7 implies v@.subrange(p as int, p + 7 as int)[k]
                                        == armor_char(t2[0])[k] by {
                                        assert(v@.subrange(p as int, p + 7 as int)[k] == v@[p
                                            + k]);
                                        assert(armor_char(t2[0])[k] == s@[p + k]);
                                    }
                                }
                                assert(false);
                            }
                        }
                    }
                    return None;
                },
            }
        } else {
            proof {
                assert forall|t: Seq<char>| s@ != armor(t) by {
                    if s@ == armor(t) {
                        let t2 = choose|t2: Seq<char>|
                            t == out@ + t2 && #[trigger] armor_matches(s@, p as int, t2);
                        lemma_armor_head(s@, p as int, t2);
                        assert(t2.len() > 0);
                        assert(armor_char(t2[0])[0] == s@[p as int]);
                    }
                }
            }
            return None;
        }
    }
}



} // verus!
