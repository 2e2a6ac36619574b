//! The decoder: accepts exactly the strings the encoder produces.
//!
//! Each parsing function carries two obligations: what it accepts is the
//! wire encoding of what it returns, and anything that is a wire encoding is
//! accepted, with that very result. Together these make the wire format
//! canonical: decoding is the exact inverse of encoding, and everything
//! outside the encoder's image is rejected.

use vstd::prelude::*;
use crate::level::Level;
use crate::message::{FlashMessage, FlashSpec};
use crate::wire::{escape_char, escape_text, hex_digit, json_of, msg_json, msgs_body, rest_body};

verus! {

/// The value of a lowercase hexadecimal digit character, if it is one.
pub(crate) fn hex_val(c: char) -> (r: Option<u8>)
    ensures
        r matches Some(d) ==> d < 16 && c == hex_digit(d as int),
        forall|d: int| 0 <= d < 16 && c == hex_digit(d) ==> (r matches Some(u) && u as int == d),
{
    match c {
        '0' => Some(0),
        '1' => Some(1),
        '2' => Some(2),
        '3' => Some(3),
        '4' => Some(4),
        '5' => Some(5),
        '6' => Some(6),
        '7' => Some(7),
        '8' => Some(8),
        '9' => Some(9),
        'a' => Some(10),
        'b' => Some(11),
        'c' => Some(12),
        'd' => Some(13),
        'e' => Some(14),
        'f' => Some(15),
        _ => None,
    }
}

/// Whether the escaped form of some text followed by a closing quote stands
/// in `v` from `start` to `j`.
pub open spec fn text_matches(v: Seq<char>, start: int, j: int, t: Seq<char>) -> bool {
    &&& start <= j <= v.len()
    &&& v.subrange(start, j) == escape_text(t) + seq!['"']
}

/// Reads the escaped text that ends at the next closing quote, consuming
/// the quote. Returns the unescaped text exactly when the input from
/// `start` is the escaped form of some text followed by `"`; that text and
/// the position after the quote are then unique.
#[verifier::loop_isolation(false)]
pub fn parse_text(v: &Vec<char>, start: usize) -> (r: Option<(String, usize)>)
    requires
        start <= v@.len(),
    ensures
        r matches Some(u) ==> start < u.1 <= v@.len() && text_matches(
            v@,
            start as int,
            u.1 as int,
            u.0@,
        ),
        forall|t: Seq<char>, j: int|
            text_matches(v@, start as int, j, t) ==> (r matches Some(u) && u.1 == j && u.0@ == t),
{
    let n = v.len();
    let mut acc: String = String::new();
    let mut p: usize = start;
    loop
        invariant
            start <= p <= n,
            v@.subrange(start as int, p as int) == escape_text(acc@),
            forall|t: Seq<char>, j: int|
                text_matches(v@, start as int, j, t) ==> exists|t2: Seq<char>|
                    {
                        &&& t == acc@ + t2
                        &&& p <= j
                        &&& #[trigger] text_matches(v@, p as int, j, t2)
                    },
        decreases n - p,
    {
        if p == n {
            proof {
                assert forall|t: Seq<char>, j: int|
                    !text_matches(v@, start as int, j, t) by {
                    if text_matches(v@, start as int, j, t) {
                        let t2 = choose|t2: Seq<char>|
                            t == acc@ + t2 && p <= j && text_matches(v@, p as int, j, t2);
                        assert(v@.subrange(p as int, j).len() == j - p);
                        assert((escape_text(t2) + seq!['"']).len() >= 1);
                    }
                }
            }
            return None;
        }
        let c = v[p];
        if c == '"' {
            proof {
                assert(v@.subrange(start as int, p + 1 as int) =~= v@.subrange(
                    start as int,
                    p as int,
                ) + seq![v@[p as int]]);
                assert(v@.subrange(start as int, p + 1 as int) =~= escape_text(acc@) + seq!['"']);
                assert(text_matches(v@, start as int, p + 1, acc@));
                assert forall|t: Seq<char>, j: int|
                    text_matches(v@, start as int, j, t) implies (j == p + 1 && t == acc@) by {
                    let t2 = choose|t2: Seq<char>|
                        t == acc@ + t2 && p <= j && text_matches(v@, p as int, j, t2);
                    lemma_text_head(v@, p as int, j, t2);
                    if t2.len() == 0 {
                        assert(t =~= acc@);
                    }
                }
            }
            return Some((acc, p + 1));
        } else if c == '\\' {
            if p + 1 == n {
                proof {
                    assert forall|t: Seq<char>, j: int|
                        !text_matches(v@, start as int, j, t) by {
                        if text_matches(v@, start as int, j, t) {
                            let t2 = choose|t2: Seq<char>|
                                t == acc@ + t2 && p <= j && text_matches(v@, p as int, j, t2);
                            lemma_head_is_escaped(v@, p as int, j, t2);
                            assert(j - p >= escape_char(t2[0]).len() + 1);
                            assert(escape_char(t2[0]).len() >= 2);
                        }
                    }
                }
                return None;
            }
            let c2 = v[p + 1];
            if c2 == '"' {
                proof {
                    lemma_step_escaped(v@, start as int, p as int, acc@, '"', seq!['\\', '"']);
                }
                acc.push('"');
                p = p + 2;
            } else if c2 == '\\' {
                proof {
                    lemma_step_escaped(v@, start as int, p as int, acc@, '\\', seq!['\\', '\\']);
                }
                acc.push('\\');
                p = p + 2;
            } else if c2 == 'u' {
                if n - p < 6 {
                    proof {
                        assert forall|t: Seq<char>, j: int|
                            !text_matches(v@, start as int, j, t) by {
                            if text_matches(v@, start as int, j, t) {
                                let t2 = choose|t2: Seq<char>|
                                    t == acc@ + t2 && p <= j && text_matches(v@, p as int, j, t2);
                                lemma_head_is_escaped(v@, p as int, j, t2);
                                assert(escape_char(t2[0])[1] == v@[p + 1]);
                                assert(t2[0] != '"' && t2[0] != '\\');
                                assert(escape_char(t2[0]).len() == 6);
                                assert(j - p >= 7);
                            }
                        }
                    }
                    return None;
                }
                let h4 = v[p + 2];
                let h5 = v[p + 3];
                let hi = v[p + 4];
                let lo = v[p + 5];
                let hv = hex_val(hi);
                let lv = hex_val(lo);
                let ok: bool = h4 == '0' && h5 == '0' && match (hv, lv) {
                    (Some(h), Some(_l)) => h < 2,
                    _ => false,
                };
                if !ok {
                    proof {
                        assert forall|t: Seq<char>, j: int|
                            !text_matches(v@, start as int, j, t) by {
                            if text_matches(v@, start as int, j, t) {
                                let t2 = choose|t2: Seq<char>|
                                    t == acc@ + t2 && p <= j && text_matches(v@, p as int, j, t2);
                                lemma_head_is_escaped(v@, p as int, j, t2);
                                assert(t2[0] != '"' && t2[0] != '\\');
                                let cv = t2[0] as u32 as int;
                                assert(escape_char(t2[0]) =~= seq!['\\', 'u', '0', '0', hex_digit(
                                    cv / 16,
                                ), hex_digit(cv % 16)]);
                                assert(v@[p + 2] == '0');
                                assert(v@[p + 3] == '0');
                                assert(v@[p + 4] == hex_digit(cv / 16));
                                assert(v@[p + 5] == hex_digit(cv % 16));
                                assert(0 <= cv / 16 < 2);
                                assert(0 <= cv % 16 < 16);
                                assert(hv matches Some(h) && h as int == cv / 16);
                                assert(lv matches Some(l) && l as int == cv % 16);
                                assert(false);
                            }
                        }
                    }
                    return None;
                }
                let h: u8 = match hv {
                    Some(h) => h,
                    None => 0,
                };
                let l: u8 = match lv {
                    Some(l) => l,
                    None => 0,
                };
                let code: u8 = h * 16 + l;
                let ch = code as char;
                proof {
                    assert(ch as u32 == code as u32);
                    assert((ch as u32) < 32);
                    assert(escape_char(ch) =~= seq!['\\', 'u', '0', '0', hex_digit(h as int),
                        hex_digit(l as int)]);
                    lemma_step_escaped(v@, start as int, p as int, acc@, ch, escape_char(ch));
                }
                acc.push(ch);
                p = p + 6;
            } else {
                proof {
                    assert forall|t: Seq<char>, j: int|
                        !text_matches(v@, start as int, j, t) by {
                        if text_matches(v@, start as int, j, t) {
                            let t2 = choose|t2: Seq<char>|
                                t == acc@ + t2 && p <= j && text_matches(v@, p as int, j, t2);
                            lemma_head_is_escaped(v@, p as int, j, t2);
                            assert(escape_char(t2[0])[1] == v@[p + 1]);
                        }
                    }
                }
                return None;
            }
        } else {
            let val = c as u32;
            if val < 32 {
                proof {
                    assert forall|t: Seq<char>, j: int|
                        !text_matches(v@, start as int, j, t) by {
                        if text_matches(v@, start as int, j, t) {
                            let t2 = choose|t2: Seq<char>|
                                t == acc@ + t2 && p <= j && text_matches(v@, p as int, j, t2);
                            lemma_head_not_quote(v@, p as int, j, t2);
                            assert(escape_char(t2[0])[0] == v@[p as int]);
                        }
                    }
                }
                return None;
            }
            proof {
                lemma_step_escaped(v@, start as int, p as int, acc@, c, seq![c]);
            }
            acc.push(c);
            p = p + 1;
        }
    }
}

/// Where the escaped remainder `t2` stands in `v` from `p` to `j`: either
/// the remainder is empty and `v[p]` is the closing quote, or the escape of
/// its first character stands at `p` and the rest follows it.
proof fn lemma_text_head(v: Seq<char>, p: int, j: int, t2: Seq<char>)
    requires
        text_matches(v, p, j, t2),
        0 <= p,
    ensures
        t2.len() == 0 ==> j == p + 1 && v[p] == '"',
        t2.len() > 0 ==> {
            &&& escape_char(t2[0])[0] == v[p]
            &&& v[p] != '"'
            &&& j - p >= escape_char(t2[0]).len() + 1
            &&& v.subrange(p + escape_char(t2[0]).len(), j) == escape_text(t2.drop_first())
                + seq!['"']
            &&& forall|k: int|
                0 <= k < escape_char(t2[0]).len() ==> #[trigger] escape_char(t2[0])[k] == v[p + k]
        },
{
    if t2.len() == 0 {
        assert(escape_text(t2) + seq!['"'] =~= seq!['"']);
        assert(v.subrange(p, j).len() == 1);
        assert(v.subrange(p, j)[0] == v[p]);
    } else {
        let e = escape_char(t2[0]);
        let rest = escape_text(t2.drop_first());
        assert(escape_text(t2) == e + rest);
        assert(e.len() >= 1);
        assert(v.subrange(p, j).len() == e.len() + rest.len() + 1);
        assert forall|k: int| 0 <= k < e.len() implies #[trigger] e[k] == v[p + k] by {
            assert(v.subrange(p, j)[k] == v[p + k]);
            assert((escape_text(t2) + seq!['"'])[k] == e[k]);
        }
        assert(escape_char(t2[0])[0] == v[p]);
        assert(v.subrange(p + e.len(), j) =~= escape_text(t2.drop_first()) + seq!['"']) by {
            assert forall|k: int| 0 <= k < j - p - e.len() implies v.subrange(p + e.len(), j)[k]
                == (rest + seq!['"'])[k] by {
                assert(v.subrange(p, j)[e.len() + k] == v[p + e.len() + k]);
                assert((escape_text(t2) + seq!['"'])[e.len() + k] == (rest + seq!['"'])[k]);
            }
        }
    }
}

/// As [`lemma_text_head`], for a non-empty remainder.
proof fn lemma_head_not_quote(v: Seq<char>, p: int, j: int, t2: Seq<char>)
    requires
        text_matches(v, p, j, t2),
        0 <= p < v.len(),
        v[p] != '"',
    ensures
        t2.len() > 0,
        escape_char(t2[0])[0] == v[p],
        j - p >= escape_char(t2[0]).len() + 1,
        v.subrange(p + escape_char(t2[0]).len(), j) == escape_text(t2.drop_first()) + seq!['"'],
        forall|k: int|
            0 <= k < escape_char(t2[0]).len() ==> #[trigger] escape_char(t2[0])[k] == v[p + k],
{
    lemma_text_head(v, p, j, t2);
}

/// As [`lemma_head_not_quote`], where the first character of the remainder
/// is a backslash: the text's first character is escaped.
proof fn lemma_head_is_escaped(v: Seq<char>, p: int, j: int, t2: Seq<char>)
    requires
        text_matches(v, p, j, t2),
        0 <= p < v.len(),
        v[p] == '\\',
    ensures
        t2.len() > 0,
        t2[0] == '"' || t2[0] == '\\' || (t2[0] as u32) < 32,
        escape_char(t2[0]).len() >= 2,
        j - p >= escape_char(t2[0]).len() + 1,
        v.subrange(p + escape_char(t2[0]).len(), j) == escape_text(t2.drop_first()) + seq!['"'],
        forall|k: int|
            0 <= k < escape_char(t2[0]).len() ==> #[trigger] escape_char(t2[0])[k] == v[p + k],
{
    lemma_head_not_quote(v, p, j, t2);
    if !(t2[0] == '"' || t2[0] == '\\' || (t2[0] as u32) < 32) {
        assert(escape_char(t2[0]) =~= seq![t2[0]]);
        assert(false);
    }
}

/// One consuming step of [`parse_text`] preserves its completeness
/// invariant: a character whose escape stands next in `v` moves from the
/// remainder to the accumulator.
proof fn lemma_step_escaped(v: Seq<char>, start: int, p: int, acc: Seq<char>, c: char, e: Seq<char>)
    requires
        0 <= start <= p < v.len(),
        v.subrange(start, p) == escape_text(acc),
        e == escape_char(c),
        forall|k: int| 0 <= k < e.len() ==> p + k < v.len() && #[trigger] e[k] == v[p + k],
        forall|t: Seq<char>, j: int|
            text_matches(v, start, j, t) ==> exists|t2: Seq<char>|
                {
                    &&& t == acc + t2
                    &&& p <= j
                    &&& #[trigger] text_matches(v, p as int, j, t2)
                },
    ensures
        v.subrange(start, p + e.len()) == escape_text(acc.push(c)),
        forall|t: Seq<char>, j: int|
            text_matches(v, start, j, t) ==> exists|t2: Seq<char>|
                {
                    &&& t == acc.push(c) + t2
                    &&& p + e.len() <= j
                    &&& #[trigger] text_matches(v, p + e.len(), j, t2)
                },
{
    crate::wire::lemma_escape_text_concat(acc, seq![c]);
    assert(seq![c].drop_first() =~= Seq::<char>::empty());
    assert(escape_text(seq![c].drop_first()) =~= Seq::<char>::empty());
    assert(escape_text(seq![c]) =~= e);
    assert(acc + seq![c] =~= acc.push(c));
    assert(v.subrange(start, p + e.len()) =~= escape_text(acc) + e);
    assert(escape_text(acc.push(c)) =~= escape_text(acc) + e);
    assert forall|t: Seq<char>, j: int|
        text_matches(v, start, j, t) implies exists|t2: Seq<char>|
        {
            &&& t == acc.push(c) + t2
            &&& p + e.len() <= j
            &&& #[trigger] text_matches(v, p + e.len(), j, t2)
        } by {
        let t2 = choose|t2: Seq<char>|
            t == acc + t2 && p <= j && text_matches(v, p as int, j, t2);
        if v[p] == '\\' {
            lemma_head_is_escaped(v, p, j, t2);
        } else {
            lemma_head_not_quote(v, p, j, t2);
        }
        // The escape of the head of the remainder must coincide with `e`:
        // the escape classes are told apart by their first two characters,
        // and within a class the character is determined.
        lemma_escape_agree(v, p, t2[0], c);
        let t3 = t2.drop_first();
        assert(t == acc.push(c) + t3) by {
            assert(t2 =~= seq![t2[0]] + t3);
            assert(acc + t2 =~= acc.push(c) + t3);
        }
        assert(text_matches(v, p + e.len(), j, t3));
    }
}

/// Two characters whose escapes both stand at the same position of `v`
/// are the same character.
proof fn lemma_escape_agree(v: Seq<char>, p: int, a: char, c: char)
    requires
        0 <= p <= v.len(),
        forall|k: int|
            0 <= k < escape_char(a).len() ==> p + k < v.len() && #[trigger] escape_char(a)[k] == v[p
                + k],
        forall|k: int|
            0 <= k < escape_char(c).len() ==> p + k < v.len() && #[trigger] escape_char(c)[k] == v[p
                + k],
    ensures
        a == c,
{
    let ea = escape_char(a);
    let ec = escape_char(c);
    assert(ea[0] == v[p] && ec[0] == v[p]);
    if (a == '"' || a == '\\' || (a as u32) < 32) != (c == '"' || c == '\\' || (c as u32) < 32) {
        // one escaped, one raw: the raw one is not a backslash, the
        // escaped one starts with one
        assert(false);
    }
    if !(a == '"' || a == '\\' || (a as u32) < 32) {
        // both raw
        assert(ea =~= seq![a] && ec =~= seq![c]);
        assert(a == v[p] && c == v[p]);
    } else {
        // both escaped; the second character tells the class apart
        assert(ea[1] == v[p + 1] && ec[1] == v[p + 1]);
        if a == '"' || a == '\\' {
            assert(c == a);
        } else {
            assert(ea[1] == 'u');
            assert(c != '"' && c != '\\');
            let av = a as u32 as int;
            let cv = c as u32 as int;
            assert(ea =~= seq!['\\', 'u', '0', '0', hex_digit(av / 16), hex_digit(av % 16)]);
            assert(ec =~= seq!['\\', 'u', '0', '0', hex_digit(cv / 16), hex_digit(cv % 16)]);
            assert(ea[4] == v[p + 4] && ec[4] == v[p + 4]);
            assert(ea[5] == v[p + 5] && ec[5] == v[p + 5]);
            lemma_hex_digit_inj(av / 16, cv / 16);
            lemma_hex_digit_inj(av % 16, cv % 16);
            assert(av == cv);
            assert(a as u32 == c as u32);
        }
    }
}

/// Distinct values below 16 have distinct hexadecimal digit characters.
pub(crate) proof fn lemma_hex_digit_inj(a: int, b: int)
    requires
        0 <= a < 16,
        0 <= b < 16,
        hex_digit(a) == hex_digit(b),
    ensures
        a == b,
{
}

/// Two escaped texts closed by quotes, standing at the same position of
/// `v`, are the same text ending at the same place.
proof fn lemma_text_escape_unique(v: Seq<char>, p: int, j1: int, j2: int, t1: Seq<char>, t2: Seq<
    char,
>)
    requires
        text_matches(v, p, j1, t1),
        text_matches(v, p, j2, t2),
        0 <= p,
    ensures
        t1 == t2,
        j1 == j2,
    decreases t1.len(),
{
    lemma_text_head(v, p, j1, t1);
    lemma_text_head(v, p, j2, t2);
    if t1.len() == 0 && t2.len() == 0 {
        assert(t1 =~= t2);
    } else if t1.len() == 0 || t2.len() == 0 {
        assert(false);
    } else {
        let e1 = escape_char(t1[0]);
        let e2 = escape_char(t2[0]);
        assert forall|k: int| 0 <= k < e1.len() implies p + k < v.len() && #[trigger] e1[k] == v[p
            + k] by {
            assert(e1[k] == v[p + k]);
        }
        assert forall|k: int| 0 <= k < e2.len() implies p + k < v.len() && #[trigger] e2[k] == v[p
            + k] by {
            assert(e2[k] == v[p + k]);
        }
        lemma_escape_agree(v, p, t1[0], t2[0]);
        lemma_text_escape_unique(v, p + e1.len(), j1, j2, t1.drop_first(), t2.drop_first());
        assert forall|k: int| 0 <= k < t1.len() implies t1[k] == t2[k] by {
            if k > 0 {
                assert(t1.drop_first()[k - 1] == t1[k]);
                assert(t2.drop_first()[k - 1] == t2[k]);
            }
        }
        assert(t1 =~= t2);
    }
}

/// Two message records standing at the same position of `v` are the same
/// message ending at the same place.
proof fn lemma_message_unique(v: Seq<char>, i: int, j1: int, j2: int, m1: FlashSpec, m2: FlashSpec)
    requires
        message_matches(v, i, j1, m1),
        message_matches(v, i, j2, m2),
        0 <= i,
    ensures
        m1 == m2,
        j1 == j2,
{
    lemma_msg_shape(v, i, j1, m1);
    lemma_msg_shape(v, i, j2, m2);
    let rk1 = crate::level::level_rank(m1.level);
    let rk2 = crate::level::level_rank(m2.level);
    lemma_hex_digit_inj(rk1, rk2);
    crate::level::lemma_level_order();
    lemma_text_escape_unique(v, i + 12, j1 - 1, j2 - 1, m1.text, m2.text);
}

/// The wire record is injective: equal records mean equal messages.
pub proof fn lemma_msg_json_injective(m1: FlashSpec, m2: FlashSpec)
    requires
        msg_json(m1) == msg_json(m2),
    ensures
        m1 == m2,
{
    let w = msg_json(m1);
    assert(w.subrange(0, w.len() as int) =~= w);
    assert(message_matches(w, 0, w.len() as int, m1));
    assert(message_matches(w, 0, w.len() as int, m2));
    lemma_message_unique(w, 0, w.len() as int, w.len() as int, m1, m2);
}

/// Whether the tail encoding of the messages `s` — each record after its
/// separating comma, then the closing bracket — fills `v` from `i` on.
spec fn tail_matches(v: Seq<char>, i: int, s: Seq<FlashSpec>) -> bool {
    &&& 0 <= i <= v.len()
    &&& v.subrange(i, v.len() as int) == rest_body(s) + seq![']']
}

/// Two message tails filling the same suffix of `v` are the same.
proof fn lemma_tail_unique(v: Seq<char>, i: int, s1: Seq<FlashSpec>, s2: Seq<FlashSpec>)
    requires
        tail_matches(v, i, s1),
        tail_matches(v, i, s2),
    ensures
        s1 == s2,
    decreases s1.len(),
{
    let n = v.len() as int;
    if s1.len() == 0 && s2.len() == 0 {
        assert(s1 =~= s2);
    } else if s1.len() == 0 || s2.len() == 0 {
        let s = if s1.len() == 0 { s2 } else { s1 };
        assert(rest_body(s) == seq![','] + msg_json(s[0]) + rest_body(s.drop_first()));
        assert((rest_body(s) + seq![']']).len() >= 2);
        assert(n - i == 1);
        assert(false);
    } else {
        lemma_tail_step(v, i, s1);
        lemma_tail_step(v, i, s2);
        let l1 = msg_json(s1[0]).len() as int;
        let l2 = msg_json(s2[0]).len() as int;
        lemma_message_unique(v, i + 1, i + 1 + l1, i + 1 + l2, s1[0], s2[0]);
        lemma_tail_unique(v, i + 1 + l1, s1.drop_first(), s2.drop_first());
        assert forall|k: int| 0 <= k < s1.len() implies s1[k] == s2[k] by {
            if k > 0 {
                assert(s1.drop_first()[k - 1] == s1[k]);
                assert(s2.drop_first()[k - 1] == s2[k]);
            }
        }
        assert(s1 =~= s2);
    }
}

/// One step of the tail: the first record stands after the comma, the
/// rest of the tail after it.
proof fn lemma_tail_step(v: Seq<char>, i: int, s: Seq<FlashSpec>)
    requires
        tail_matches(v, i, s),
        s.len() > 0,
    ensures
        message_matches(v, i + 1, i + 1 + msg_json(s[0]).len() as int, s[0]),
        tail_matches(v, i + 1 + msg_json(s[0]).len() as int, s.drop_first()),
{
    let n = v.len() as int;
    assert(rest_body(s) == seq![','] + msg_json(s[0]) + rest_body(s.drop_first()));
    assert(v.subrange(i, n) =~= seq![','] + (msg_json(s[0]) + (rest_body(s.drop_first())
        + seq![']'])));
    lemma_split_sub(v, i, n, seq![','], msg_json(s[0]) + (rest_body(s.drop_first())
        + seq![']']));
    lemma_split_sub(v, i + 1, n, msg_json(s[0]), rest_body(s.drop_first()) + seq![']']);
}

/// The wire encoding is injective: equal encodings mean equal message
/// lists, content and order alike. Together with the decoder's contract
/// this makes the encoding of a list the one cookie value it ever decodes
/// from.
pub proof fn lemma_json_of_injective(ms1: Seq<FlashSpec>, ms2: Seq<FlashSpec>)
    requires
        json_of(ms1) == json_of(ms2),
    ensures
        ms1 == ms2,
{
    let w = json_of(ms1);
    let n = w.len() as int;
    assert(w.subrange(0, n) =~= w);
    if ms1.len() == 0 && ms2.len() == 0 {
        assert(ms1 =~= ms2);
    } else if ms1.len() == 0 || ms2.len() == 0 {
        let s = if ms1.len() == 0 { ms2 } else { ms1 };
        assert(json_of(s) == seq!['['] + (msg_json(s[0]) + rest_body(s.drop_first()))
            + seq![']']);
        assert(json_of(s)[1] == msg_json(s[0])[0]);
        assert(msg_json(s[0])[0] == '{');
        let t = if ms1.len() == 0 { ms1 } else { ms2 };
        assert(json_of(t).len() == 2);
        assert(json_of(t)[1] == ']');
        assert(false);
    } else {
        lemma_list_step(w, ms1);
        lemma_list_step(w, ms2);
        let l1 = msg_json(ms1[0]).len() as int;
        let l2 = msg_json(ms2[0]).len() as int;
        lemma_message_unique(w, 1, 1 + l1, 1 + l2, ms1[0], ms2[0]);
        lemma_tail_unique(w, 1 + l1, ms1.drop_first(), ms2.drop_first());
        assert forall|k: int| 0 <= k < ms1.len() implies ms1[k] == ms2[k] by {
            if k > 0 {
                assert(ms1.drop_first()[k - 1] == ms1[k]);
                assert(ms2.drop_first()[k - 1] == ms2[k]);
            }
        }
        assert(ms1 =~= ms2);
    }
}

/// The first record of a non-empty encoding stands after the bracket,
/// the tail after it.
proof fn lemma_list_step(w: Seq<char>, ms: Seq<FlashSpec>)
    requires
        w == json_of(ms),
        ms.len() > 0,
    ensures
        message_matches(w, 1, 1 + msg_json(ms[0]).len() as int, ms[0]),
        tail_matches(w, 1 + msg_json(ms[0]).len() as int, ms.drop_first()),
{
    let n = w.len() as int;
    assert(msgs_body(ms) == msg_json(ms[0]) + rest_body(ms.drop_first()));
    assert(w.subrange(0, n) =~= seq!['['] + (msg_json(ms[0]) + (rest_body(ms.drop_first())
        + seq![']'])));
    lemma_split_sub(w, 0, n, seq!['['], msg_json(ms[0]) + (rest_body(ms.drop_first())
        + seq![']']));
    lemma_split_sub(w, 1, n, msg_json(ms[0]), rest_body(ms.drop_first()) + seq![']']);
}

/// A range of `v` equal to a concatenation splits at the seam.
proof fn lemma_split_sub(v: Seq<char>, a: int, b: int, x: Seq<char>, y: Seq<char>)
    requires
        0 <= a <= b <= v.len(),
        v.subrange(a, b) == x + y,
    ensures
        v.subrange(a, a + x.len()) == x,
        v.subrange(a + x.len(), b) == y,
{
    assert(v.subrange(a, b).len() == x.len() + y.len());
    assert(v.subrange(a, a + x.len()) =~= x) by {
        assert forall|k: int| 0 <= k < x.len() implies v.subrange(a, a + x.len())[k] == x[k] by {
            assert(v.subrange(a, b)[k] == v[a + k]);
            assert((x + y)[k] == x[k]);
        }
    }
    assert(v.subrange(a + x.len(), b) =~= y) by {
        assert forall|k: int| 0 <= k < y.len() implies v.subrange(a + x.len(), b)[k] == y[k] by {
            assert(v.subrange(a, b)[x.len() + k] == v[a + x.len() + k]);
            assert((x + y)[x.len() + k] == y[k]);
        }
    }
}

/// Adjacent ranges of `v` concatenate.
proof fn lemma_join_sub(v: Seq<char>, a: int, c: int, b: int, x: Seq<char>, y: Seq<char>)
    requires
        0 <= a <= c <= b <= v.len(),
        v.subrange(a, c) == x,
        v.subrange(c, b) == y,
    ensures
        v.subrange(a, b) == x + y,
{
    assert(v.subrange(a, b) =~= x + y) by {
        assert forall|k: int| 0 <= k < b - a implies v.subrange(a, b)[k] == (x + y)[k] by {
            if k < c - a {
                assert(v.subrange(a, c)[k] == v[a + k]);
            } else {
                assert(v.subrange(c, b)[k - (c - a)] == v[a + k]);
            }
        }
    }
}

/// Whether the wire record of message `m` stands in `v` from `i` to `j`.
pub open spec fn message_matches(v: Seq<char>, i: int, j: int, m: FlashSpec) -> bool {
    &&& i <= j <= v.len()
    &&& v.subrange(i, j) == msg_json(m)
}

/// Where the wire record of `m` stands in `v` from `i` to `j`: the fixed
/// frame, the level digit, the escaped text and the closing brace, each at
/// its place.
proof fn lemma_msg_shape(v: Seq<char>, i: int, j: int, m: FlashSpec)
    requires
        message_matches(v, i, j, m),
        0 <= i,
    ensures
        j - i >= 14,
        v[i] == '{',
        v[i + 1] == '"',
        v[i + 2] == 'l',
        v[i + 3] == '"',
        v[i + 4] == ':',
        v[i + 5] == hex_digit(crate::level::level_rank(m.level)),
        v[i + 6] == ',',
        v[i + 7] == '"',
        v[i + 8] == 'm',
        v[i + 9] == '"',
        v[i + 10] == ':',
        v[i + 11] == '"',
        text_matches(v, i + 12, j - 1, m.text),
        v[j - 1] == '}',
{
    let a = seq!['{', '"', 'l', '"', ':', hex_digit(crate::level::level_rank(m.level)), ',', '"',
        'm', '"', ':', '"'];
    let e = escape_text(m.text);
    let b = seq!['"', '}'];
    assert(msg_json(m) == a + e + b);
    lemma_split_sub(v, i, j, a + e, b);
    lemma_split_sub(v, i, i + a.len() + e.len(), a, e);
    assert forall|k: int| 0 <= k < 12 implies v[i + k] == a[k] by {
        assert(v.subrange(i, i + a.len())[k] == v[i + k]);
    }
    assert(v[i + 5] == a[5]);
    assert(j == i + 14 + e.len());
    assert(v.subrange(i + 12 + e.len(), j)[0] == v[i + 12 + e.len()]);
    assert(v.subrange(i + 12 + e.len(), j)[1] == v[i + 12 + e.len() + 1]);
    assert(v[i + 12 + e.len()] == '"');
    assert(v[j - 1] == '}');
    assert(v.subrange(i + 12 + e.len(), i + 13 + e.len()) =~= seq!['"']);
    lemma_join_sub(v, i + 12, i + 12 + e.len(), i + 13 + e.len(), e, seq!['"']);
    assert(text_matches(v, i + 12, j - 1, m.text));
}

/// Reads one message record. Returns a message exactly when the wire
/// record of some message stands at `i`; that message and its end are then
/// unique.
pub fn parse_message(v: &Vec<char>, i: usize) -> (r: Option<(FlashMessage, usize)>)
    requires
        i <= v@.len(),
    ensures
        r matches Some(u) ==> i < u.1 <= v@.len() && message_matches(
            v@,
            i as int,
            u.1 as int,
            u.0@,
        ),
        forall|m: FlashSpec, j: int|
            message_matches(v@, i as int, j, m) ==> (r matches Some(u) && u.1 == j && u.0@ == m),
{
    let n = v.len();
    if n - i < 12 {
        proof {
            assert forall|m: FlashSpec, j: int|
                !message_matches(v@, i as int, j, m) by {
                if message_matches(v@, i as int, j, m) {
                    lemma_msg_shape(v@, i as int, j, m);
                }
            }
        }
        return None;
    }
    let frame_ok: bool = v[i] == '{' && v[i + 1] == '"' && v[i + 2] == 'l' && v[i + 3] == '"'
        && v[i + 4] == ':' && v[i + 6] == ',' && v[i + 7] == '"' && v[i + 8] == 'm'
        && v[i + 9] == '"' && v[i + 10] == ':' && v[i + 11] == '"';
    if !frame_ok {
        proof {
            assert forall|m: FlashSpec, j: int|
                !message_matches(v@, i as int, j, m) by {
                if message_matches(v@, i as int, j, m) {
                    lemma_msg_shape(v@, i as int, j, m);
                }
            }
        }
        return None;
    }
    let dv = hex_val(v[i + 5]);
    let level_opt: Option<Level> = match dv {
        Some(d) => Level::from_ordinal(d),
        None => None,
    };
    let level: Level = match level_opt {
        Some(l) => l,
        None => {
            proof {
                assert forall|m: FlashSpec, j: int|
                    !message_matches(v@, i as int, j, m) by {
                    if message_matches(v@, i as int, j, m) {
                        lemma_msg_shape(v@, i as int, j, m);
                        let rk = crate::level::level_rank(m.level);
                        assert(0 <= rk < 16);
                        assert(dv matches Some(u) && u as int == rk);
                    }
                }
            }
            return None;
        },
    };
    match parse_text(v, i + 12) {
        None => {
            proof {
                assert forall|m: FlashSpec, j: int|
                    !message_matches(v@, i as int, j, m) by {
                    if message_matches(v@, i as int, j, m) {
                        lemma_msg_shape(v@, i as int, j, m);
                    }
                }
            }
            None
        },
        Some((t, q)) => {
            if q == n {
                proof {
                    assert forall|m: FlashSpec, j: int|
                        !message_matches(v@, i as int, j, m) by {
                        if message_matches(v@, i as int, j, m) {
                            lemma_msg_shape(v@, i as int, j, m);
                        }
                    }
                }
                return None;
            }
            if v[q] != '}' {
                proof {
                    assert forall|m: FlashSpec, j: int|
                        !message_matches(v@, i as int, j, m) by {
                        if message_matches(v@, i as int, j, m) {
                            lemma_msg_shape(v@, i as int, j, m);
                        }
                    }
                }
                return None;
            }
            let msg = FlashMessage { level, text: t };
            proof {
                crate::level::lemma_level_order();
                let e = escape_text(msg@.text);
                let a = seq!['{', '"', 'l', '"', ':', hex_digit(crate::level::level_rank(level)),
                    ',', '"', 'm', '"', ':', '"'];
                assert(v@.subrange(i as int, i + 12 as int) =~= a) by {
                    assert(dv matches Some(d) && v@[i + 5] == hex_digit(d as int));
                }
                lemma_split_sub(v@, i + 12, q as int, e, seq!['"']);
                lemma_join_sub(v@, i as int, i + 12, q as int, a, e + seq!['"']);
                assert(v@.subrange(q as int, q + 1 as int) =~= seq![v@[q as int]]);
                lemma_join_sub(
                    v@,
                    i as int,
                    q as int,
                    q + 1 as int,
                    a + (e + seq!['"']),
                    seq![v@[q as int]],
                );
                assert(a + (e + seq!['"']) + seq!['}'] =~= msg_json(msg@));
                assert(message_matches(v@, i as int, q + 1 as int, msg@));
                assert forall|m: FlashSpec, j: int|
                    message_matches(v@, i as int, j, m) implies (j == q + 1 && m == msg@) by {
                    lemma_msg_shape(v@, i as int, j, m);
                    let rk = crate::level::level_rank(m.level);
                    assert(0 <= rk < 16);
                    assert(dv matches Some(u) && u as int == rk);
                    assert(crate::level::level_rank(level) == rk);
                    assert(m.level == level);
                    assert(text_matches(v@, i + 12, j - 1, m.text));
                    assert(t@ == m.text && q as int == j - 1);
                }
            }
            Some((msg, q + 1))
        },
    }
}

/// Where the wire encoding of `ms` fills `v`, and `k` messages of it have
/// been read up to position `i`: the prefix read so far agrees with `ms`,
/// and the record of the next message stands at `i`.
spec fn rest_at(v: Seq<char>, i: int, k: int, ms: Seq<FlashSpec>) -> bool {
    &&& k < ms.len()
    &&& i <= v.len()
    &&& v.subrange(i, v.len() as int) == msg_json(ms[k]) + rest_body(ms.skip(k + 1)) + seq![']']
}

/// Decodes a wire encoding back to its message list. Returns a list exactly
/// when the input is the wire encoding of one, and then that very list.
#[verifier::loop_isolation(false)]
#[verifier::rlimit(80)]
pub fn parse_flash_json(v: &Vec<char>) -> (r: Option<Vec<FlashMessage>>)
    ensures
        r matches Some(out) ==> v@ == json_of(out.deep_view()),
        forall|ms: Seq<FlashSpec>|
            v@ == json_of(ms) ==> (r matches Some(out) && out.deep_view() == ms),
{
    let n = v.len();
    if n < 2 {
        proof {
            assert forall|ms: Seq<FlashSpec>| v@ != json_of(ms) by {
                assert(json_of(ms).len() >= 2);
            }
        }
        return None;
    }
    if v[0] != '[' {
        proof {
            assert forall|ms: Seq<FlashSpec>| v@ != json_of(ms) by {
                assert(json_of(ms)[0] == '[');
            }
        }
        return None;
    }
    if v[1] == ']' {
        if n == 2 {
            let out: Vec<FlashMessage> = Vec::new();
            proof {
                assert(out.deep_view() =~= Seq::<FlashSpec>::empty());
                assert(json_of(out.deep_view()) =~= v@);
                assert forall|ms: Seq<FlashSpec>|
                    v@ == json_of(ms) implies ms == out.deep_view() by {
                    if ms.len() > 0 {
                        assert(json_of(ms)[1] == msg_json(ms[0])[0]);
                        assert(msg_json(ms[0])[0] == '{');
                    }
                    assert(ms =~= out.deep_view());
                }
            }
            return Some(out);
        } else {
            proof {
                assert forall|ms: Seq<FlashSpec>| v@ != json_of(ms) by {
                    if ms.len() == 0 {
                        assert(json_of(ms).len() == 2);
                    } else {
                        assert(json_of(ms)[1] == msg_json(ms[0])[0]);
                        assert(msg_json(ms[0])[0] == '{');
                    }
                }
            }
            return None;
        }
    }
    let mut acc: Vec<FlashMessage> = Vec::new();
    let mut i: usize = 1;
    proof {
        assert(acc.deep_view() =~= Seq::<FlashSpec>::empty());
        assert forall|ms: Seq<FlashSpec>|
            v@ == json_of(ms) implies rest_at(v@, 1, 0, ms) && ms.take(0) =~= acc.deep_view() by {
            if ms.len() == 0 {
                assert(json_of(ms).len() == 2);
                assert(json_of(ms)[1] == ']');
            }
            assert(msgs_body(ms) == msg_json(ms[0]) + rest_body(ms.drop_first()));
            assert(ms.drop_first() =~= ms.skip(1));
            assert(v@.subrange(0, n as int) =~= seq!['['] + (msgs_body(ms) + seq![']']));
            lemma_split_sub(v@, 0, n as int, seq!['['], msgs_body(ms) + seq![']']);
            assert(msg_json(ms[0]) + rest_body(ms.skip(1)) + seq![']'] =~= msgs_body(ms)
                + seq![']']);
        }
    }
    loop
        invariant
            1 <= i <= n,
            acc.deep_view().len() == acc@.len(),
            if acc@.len() == 0 {
                i == 1
            } else {
                v@.subrange(0, i as int) == seq!['['] + msgs_body(acc.deep_view()) + seq![',']
            },
            forall|ms: Seq<FlashSpec>|
                v@ == json_of(ms) ==> #[trigger] rest_at(v@, i as int, acc@.len() as int, ms)
                    && ms.take(acc@.len() as int) == acc.deep_view(),
        decreases n - i,
    {
        let ghost acc0 = acc.deep_view();
        let ghost k = acc@.len() as int;
        let parsed = parse_message(v, i);
        match parsed {
            None => {
                proof {
                    assert forall|ms: Seq<FlashSpec>| v@ != json_of(ms) by {
                        if v@ == json_of(ms) {
                            assert(rest_at(v@, i as int, k, ms));
                            let l = msg_json(ms[k]).len();
                            assert(v@.subrange(i as int, n as int) =~= msg_json(ms[k]) + (
                            rest_body(ms.skip(k + 1)) + seq![']']));
                            lemma_split_sub(
                                v@,
                                i as int,
                                n as int,
                                msg_json(ms[k]),
                                rest_body(ms.skip(k + 1)) + seq![']'],
                            );
                            assert(message_matches(v@, i as int, i + l, ms[k]));
                        }
                    }
                }
                return None;
            },
            Some((m, j)) => {
                proof {
                    assert forall|ms: Seq<FlashSpec>|
                        v@ == json_of(ms) implies ms[k] == m@ && j == i + msg_json(m@).len()
                        && v@.subrange(j as int, n as int) == rest_body(ms.skip(k + 1))
                        + seq![']'] by {
                        assert(rest_at(v@, i as int, k, ms));
                        let l = msg_json(ms[k]).len();
                        assert(v@.subrange(i as int, n as int) =~= msg_json(ms[k]) + (rest_body(
                        ms.skip(k + 1)) + seq![']']));
                        lemma_split_sub(
                            v@,
                            i as int,
                            n as int,
                            msg_json(ms[k]),
                            rest_body(ms.skip(k + 1)) + seq![']'],
                        );
                        assert(message_matches(v@, i as int, i + l, ms[k]));
                    }
                }
                acc.push(m);
                proof {
                    assert(acc.deep_view() =~= acc0.push(m@));
                }
                if j == n {
                    proof {
                        assert forall|ms: Seq<FlashSpec>| v@ != json_of(ms) by {
                            if v@ == json_of(ms) {
                                assert(v@.subrange(j as int, n as int).len() == 0);
                                assert((rest_body(ms.skip(k + 1)) + seq![']']).len() >= 1);
                            }
                        }
                    }
                    return None;
                }
                let c = v[j];
                proof {
                    assert forall|ms: Seq<FlashSpec>|
                        v@ == json_of(ms) implies v@[j as int] == (rest_body(ms.skip(k + 1))
                        + seq![']'])[0] by {
                        assert(v@.subrange(j as int, n as int)[0] == v@[j as int]);
                    }
                }
                if c == ']' {
                    if j == n - 1 {
                        proof {
                            // the parsed prefix plus this bracket is the
                            // whole encoding of what was accumulated
                            let accd = acc.deep_view();
                            crate::wire::lemma_msgs_body_snoc(acc0, m@);
                            if k == 0 {
                                assert(v@.subrange(0, 1) =~= seq!['[']);
                                lemma_join_sub(
                                    v@,
                                    0,
                                    1,
                                    j as int,
                                    seq!['['],
                                    msg_json(m@),
                                );
                            } else {
                                lemma_join_sub(
                                    v@,
                                    0,
                                    i as int,
                                    j as int,
                                    seq!['['] + msgs_body(acc0) + seq![','],
                                    msg_json(m@),
                                );
                            }
                            assert(v@.subrange(j as int, n as int) =~= seq![']']);
                            lemma_join_sub(
                                v@,
                                0,
                                j as int,
                                n as int,
                                v@.subrange(0, j as int),
                                seq![']'],
                            );
                            assert(v@.subrange(0, n as int) =~= v@);
                            assert(v@ =~= json_of(accd));
                            assert forall|ms: Seq<FlashSpec>|
                                v@ == json_of(ms) implies ms == accd by {
                                assert(rest_at(v@, i as int, k, ms));
                                assert(v@.subrange(j as int, n as int) == rest_body(
                                    ms.skip(k + 1),
                                ) + seq![']']);
                                assert((rest_body(ms.skip(k + 1)) + seq![']']).len() == 1);
                                if ms.skip(k + 1).len() > 0 {
                                    assert(rest_body(ms.skip(k + 1)).len() >= 1 + msg_json(
                                        ms.skip(k + 1)[0],
                                    ).len());
                                }
                                assert(ms.len() == k + 1);
                                assert(ms =~= accd);
                            }
                        }
                        return Some(acc);
                    } else {
                        proof {
                            assert forall|ms: Seq<FlashSpec>| v@ != json_of(ms) by {
                                if v@ == json_of(ms) {
                                    if ms.skip(k + 1).len() == 0 {
                                        assert(v@.subrange(j as int, n as int).len() == 1);
                                    } else {
                                        assert((rest_body(ms.skip(k + 1)) + seq![']'])[0] == ',');
                                    }
                                }
                            }
                        }
                        return None;
                    }
                } else if c == ',' {
                    proof {
                        let accd = acc.deep_view();
                        crate::wire::lemma_msgs_body_snoc(acc0, m@);
                        if k == 0 {
                            assert(v@.subrange(0, 1) =~= seq!['[']);
                            lemma_join_sub(v@, 0, 1, j as int, seq!['['], msg_json(m@));
                        } else {
                            lemma_join_sub(
                                v@,
                                0,
                                i as int,
                                j as int,
                                seq!['['] + msgs_body(acc0) + seq![','],
                                msg_json(m@),
                            );
                        }
                        assert(v@.subrange(j as int, j + 1 as int) =~= seq![',']);
                        lemma_join_sub(
                            v@,
                            0,
                            j as int,
                            j + 1 as int,
                            v@.subrange(0, j as int),
                            seq![','],
                        );
                        assert(v@.subrange(0, j + 1 as int) =~= seq!['['] + msgs_body(accd)
                            + seq![',']);
                        assert forall|ms: Seq<FlashSpec>|
                            v@ == json_of(ms) implies #[trigger] rest_at(
                            v@,
                            j + 1 as int,
                            k + 1,
                            ms,
                        ) && ms.take(k + 1) == accd by {
                            assert(rest_at(v@, i as int, k, ms));
                            if ms.skip(k + 1).len() == 0 {
                                assert(rest_body(ms.skip(k + 1)) =~= Seq::<char>::empty());
                                assert(v@.subrange(j as int, n as int) =~= seq![']']);
                                assert(v@.subrange(j as int, n as int)[0] == v@[j as int]);
                                assert(false);
                            }
                            let sk = ms.skip(k + 1);
                            assert(rest_body(sk) == seq![','] + msg_json(sk[0]) + rest_body(
                                sk.drop_first(),
                            ));
                            assert(sk[0] == ms[k + 1]);
                            assert(sk.drop_first() =~= ms.skip(k + 2));
                            assert(v@.subrange(j as int, n as int) =~= seq![','] + (msg_json(
                                ms[k + 1],
                            ) + rest_body(ms.skip(k + 2)) + seq![']']));
                            lemma_split_sub(
                                v@,
                                j as int,
                                n as int,
                                seq![','],
                                msg_json(ms[k + 1]) + rest_body(ms.skip(k + 2)) + seq![']'],
                            );
                            assert(ms.take(k + 1) =~= ms.take(k).push(ms[k]));
                            assert(ms.take(k + 1) =~= accd);
                        }
                    }
                    i = j + 1;
                } else {
                    proof {
                        assert forall|ms: Seq<FlashSpec>| v@ != json_of(ms) by {
                            if v@ == json_of(ms) {
                                if ms.skip(k + 1).len() == 0 {
                                    assert((rest_body(ms.skip(k + 1)) + seq![']'])[0] == ']');
                                } else {
                                    assert((rest_body(ms.skip(k + 1)) + seq![']'])[0] == ',');
                                }
                            }
                        }
                    }
                    return None;
                }
            },
        }
    }
}

} // verus!
