//! The cookie wire format: a JSON array of `{"l":<0-4>,"m":"<text>"}`
//! records, one per message, in push order.
//!
//! The format is canonical: [`json_of`] is the one encoding of a message
//! list, and the decoder accepts exactly the strings in its image. Texts are
//! carried verbatim except for `"`, `\` and control characters, which are
//! escaped as in JSON (controls as lowercase `\u00xx`).

use vstd::prelude::*;
use crate::level::level_rank;
use crate::message::FlashSpec;

verus! {

/// The lowercase hexadecimal digit of a value below 16.
pub open spec fn hex_digit(d: int) -> char {
    if d == 0 { '0' }
    else if d == 1 { '1' }
    else if d == 2 { '2' }
    else if d == 3 { '3' }
    else if d == 4 { '4' }
    else if d == 5 { '5' }
    else if d == 6 { '6' }
    else if d == 7 { '7' }
    else if d == 8 { '8' }
    else if d == 9 { '9' }
    else if d == 10 { 'a' }
    else if d == 11 { 'b' }
    else if d == 12 { 'c' }
    else if d == 13 { 'd' }
    else if d == 14 { 'e' }
    else { 'f' }
}

/// How one character of a text stands in the wire format.
pub open spec fn escape_char(c: char) -> Seq<char> {
    if c == '"' {
        seq!['\\', '"']
    } else if c == '\\' {
        seq!['\\', '\\']
    } else if (c as u32) < 32 {
        seq!['\\', 'u', '0', '0', hex_digit(c as u32 as int / 16), hex_digit(c as u32 as int % 16)]
    } else {
        seq![c]
    }
}

/// How a whole text stands in the wire format.
pub open spec fn escape_text(t: Seq<char>) -> Seq<char>
    decreases t.len(),
{
    if t.len() == 0 {
        Seq::empty()
    } else {
        escape_char(t[0]) + escape_text(t.drop_first())
    }
}

/// The wire record of one message.
pub open spec fn msg_json(m: FlashSpec) -> Seq<char> {
    seq!['{', '"', 'l', '"', ':', hex_digit(level_rank(m.level)), ',', '"', 'm', '"', ':', '"']
        + escape_text(m.text) + seq!['"', '}']
}

/// The wire records of every message but the first, each preceded by the
/// separating comma.
pub open spec fn rest_body(ms: Seq<FlashSpec>) -> Seq<char>
    decreases ms.len(),
{
    if ms.len() == 0 {
        Seq::empty()
    } else {
        seq![','] + msg_json(ms[0]) + rest_body(ms.drop_first())
    }
}

/// The comma-separated wire records of a message list.
pub open spec fn msgs_body(ms: Seq<FlashSpec>) -> Seq<char> {
    if ms.len() == 0 {
        Seq::empty()
    } else {
        msg_json(ms[0]) + rest_body(ms.drop_first())
    }
}

/// The one wire encoding of a message list.
pub open spec fn json_of(ms: Seq<FlashSpec>) -> Seq<char> {
    seq!['['] + msgs_body(ms) + seq![']']
}

/// Escaping distributes over concatenation of texts.
pub proof fn lemma_escape_text_concat(a: Seq<char>, b: Seq<char>)
    ensures
        escape_text(a + b) == escape_text(a) + escape_text(b),
    decreases a.len(),
{
    if a.len() == 0 {
        assert(a + b =~= b);
        assert(escape_text(a) + escape_text(b) =~= escape_text(b));
    } else {
        assert((a + b).drop_first() =~= a.drop_first() + b);
        lemma_escape_text_concat(a.drop_first(), b);
        assert(escape_text(a + b) =~= escape_text(a) + escape_text(b));
    }
}

/// Escaping one more character appends its escape.
pub proof fn lemma_escape_text_take_snoc(t: Seq<char>, i: int)
    requires
        0 <= i < t.len(),
    ensures
        escape_text(t.take(i + 1)) == escape_text(t.take(i)) + escape_char(t[i]),
{
    assert(t.take(i + 1) =~= t.take(i) + seq![t[i]]);
    lemma_escape_text_concat(t.take(i), seq![t[i]]);
    let s1 = seq![t[i]];
    assert(s1.drop_first() =~= Seq::<char>::empty());
    assert(escape_text(s1.drop_first()) =~= Seq::<char>::empty());
    assert(escape_text(s1) =~= escape_char(t[i]) + escape_text(s1.drop_first()));
    assert(escape_text(s1) =~= escape_char(t[i]));
}

/// Appending a message to the tail of the body appends its record after a
/// comma.
pub proof fn lemma_rest_body_snoc(s: Seq<FlashSpec>, x: FlashSpec)
    ensures
        rest_body(s.push(x)) == rest_body(s) + seq![','] + msg_json(x),
    decreases s.len(),
{
    if s.len() == 0 {
        assert(s.push(x)[0] == x);
        assert(s.push(x).drop_first() =~= Seq::<FlashSpec>::empty());
        assert(rest_body(s.push(x).drop_first()) == Seq::<char>::empty());
        assert(rest_body(s) == Seq::<char>::empty());
        assert(rest_body(s.push(x)) =~= rest_body(s) + seq![','] + msg_json(x));
    } else {
        let sd = s.drop_first();
        assert(s.push(x)[0] == s[0]);
        assert(s.push(x).drop_first() =~= sd.push(x));
        lemma_rest_body_snoc(sd, x);
        let a = seq![','] + msg_json(s[0]);
        let r0 = rest_body(sd);
        assert(rest_body(s.push(x)) == a + rest_body(sd.push(x)));
        assert(rest_body(sd.push(x)) == r0 + seq![','] + msg_json(x));
        assert(rest_body(s) == a + r0);
        assert(a + (r0 + seq![','] + msg_json(x)) =~= (a + r0) + seq![','] + msg_json(x));
    }
}

/// Appending a message to a list appends its record to the body, after a
/// comma unless it is the first.
pub proof fn lemma_msgs_body_snoc(s: Seq<FlashSpec>, x: FlashSpec)
    ensures
        s.len() == 0 ==> msgs_body(s.push(x)) == msg_json(x),
        s.len() > 0 ==> msgs_body(s.push(x)) == msgs_body(s) + seq![','] + msg_json(x),
{
    if s.len() == 0 {
        assert(s.push(x)[0] == x);
        assert(s.push(x).drop_first() =~= Seq::<FlashSpec>::empty());
        assert(rest_body(s.push(x).drop_first()) == Seq::<char>::empty());
        assert(msgs_body(s.push(x)) =~= msg_json(x));
    } else {
        let sd = s.drop_first();
        assert(s.push(x)[0] == s[0]);
        assert(s.push(x).drop_first() =~= sd.push(x));
        lemma_rest_body_snoc(sd, x);
        let r0 = rest_body(sd);
        assert(msgs_body(s.push(x)) == msg_json(s[0]) + rest_body(sd.push(x)));
        assert(rest_body(sd.push(x)) == r0 + seq![','] + msg_json(x));
        assert(msgs_body(s) == msg_json(s[0]) + r0);
        assert(msg_json(s[0]) + (r0 + seq![','] + msg_json(x)) =~= (msg_json(s[0]) + r0) + seq![
            ',',
        ] + msg_json(x));
    }
}

} // verus!
