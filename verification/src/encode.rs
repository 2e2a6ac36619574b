//! The encoder: a message list to its one wire encoding.

use vstd::prelude::*;
use vstd::string::StrSliceExecFns;
use crate::message::FlashMessage;
use crate::wire::{
    escape_text, hex_digit, json_of, lemma_escape_text_take_snoc, lemma_msgs_body_snoc, msg_json,
    msgs_body,
};

verus! {

/// The lowercase hexadecimal digit character of a value below 16.
pub fn hex_char(d: u8) -> (c: char)
    requires
        d < 16,
    ensures
        c == hex_digit(d as int),
{
    if d == 0 { '0' }
    else if d == 1 { '1' }
    else if d == 2 { '2' }
    else if d == 3 { '3' }
    else if d == 4 { '4' }
    else if d == 5 { '5' }
    else if d == 6 { '6' }
    else if d == 7 { '7' }
    else if d == 8 { '8' }
    else if d == 9 { '9' }
    else if d == 10 { 'a' }
    else if d == 11 { 'b' }
    else if d == 12 { 'c' }
    else if d == 13 { 'd' }
    else if d == 14 { 'e' }
    else { 'f' }
}

/// Appends the wire escape of a text to `out`.
fn push_escaped(out: &mut String, t: &str)
    ensures
        final(out)@ == old(out)@ + escape_text(t@),
{
    let n = t.unicode_len();
    let mut i: usize = 0;
    while i < n
        invariant
            n == t@.len(),
            i <= n,
            out@ == old(out)@ + escape_text(t@.take(i as int)),
        decreases n - i,
    {
        let c = t.get_char(i);
        if c == '"' {
            out.push('\\');
            out.push('"');
        } else if c == '\\' {
            out.push('\\');
            out.push('\\');
        } else {
            let v = c as u32;
            if v < 32 {
                out.push('\\');
                out.push('u');
                out.push('0');
                out.push('0');
                out.push(hex_char((v / 16) as u8));
                out.push(hex_char((v % 16) as u8));
            } else {
                out.push(c);
            }
        }
        proof {
            lemma_escape_text_take_snoc(t@, i as int);
        }
        assert(out@ =~= old(out)@ + escape_text(t@.take(i as int + 1)));
        i = i + 1;
    }
    assert(t@.take(n as int) =~= t@);
}

/// Appends the wire record of one message to `out`.
fn push_message(out: &mut String, m: &FlashMessage)
    ensures
        final(out)@ == old(out)@ + msg_json(m@),
{
    out.push('{');
    out.push('"');
    out.push('l');
    out.push('"');
    out.push(':');
    out.push(hex_char(m.level.ordinal()));
    out.push(',');
    out.push('"');
    out.push('m');
    out.push('"');
    out.push(':');
    out.push('"');
    push_escaped(out, m.text.as_str());
    out.push('"');
    out.push('}');
    assert(out@ =~= old(out)@ + msg_json(m@));
}

/// Encodes an ordered message list into its one wire encoding.
pub fn encode_messages(msgs: &Vec<FlashMessage>) -> (r: String)
    ensures
        r@ == json_of(msgs.deep_view()),
{
    let ghost ms = msgs.deep_view();
    let mut out = String::new();
    out.push('[');
    let mut i: usize = 0;
    while i < msgs.len()
        invariant
            i <= msgs.len(),
            ms == msgs.deep_view(),
            ms.len() == msgs.len(),
            out@ == seq!['['] + msgs_body(ms.take(i as int)),
        decreases msgs.len() - i,
    {
        if i > 0 {
            out.push(',');
        }
        push_message(&mut out, &msgs[i]);
        proof {
            assert(msgs[i as int]@ == ms[i as int]);
            assert(ms.take(i as int).push(ms[i as int]) =~= ms.take(i as int + 1));
            lemma_msgs_body_snoc(ms.take(i as int), ms[i as int]);
        }
        assert(out@ =~= seq!['['] + msgs_body(ms.take(i as int + 1)));
        i = i + 1;
    }
    out.push(']');
    assert(ms.take(msgs.len() as int) =~= ms);
    assert(out@ =~= json_of(ms));
    out
}

} // verus!
