//! Building the outgoing request: the endpoint URL is the base URL with
//! `/chat/completions` appended by plain concatenation, and the body is the
//! JSON serialization of the request, exactly as the specification
//! functions here spell it out.

use crate::json::{
    hex_val, lemma_char_of_scalar, parse_escape, parse_string_at, parse_string_body, ws_end,
};
use crate::response::{parse_message_members, parse_message_obj};
use crate::strutil::string_of_chars;
use crate::types::{ChatRequest, Message, MessageView};
use vstd::prelude::*;
use vstd::string::{StrSliceExecFns, StringExecFns};

verus! {

/// The fixed path suffix appended to the base URL.
pub open spec fn spec_endpoint_suffix() -> Seq<char> {
    "/chat/completions"@
}

/// The full endpoint URL: the base URL followed by `/chat/completions`,
/// with no normalization of slashes.
pub fn endpoint_url(base_url: &str) -> (r: String)
    ensures
        r@ == base_url@ + spec_endpoint_suffix(),
{
    let s: String = base_url.to_owned();
    s.concat("/chat/completions")
}

/// The character of one hexadecimal digit, lower case.
pub open spec fn hex_char(v: int) -> char {
    if v == 0 {
        '0'
    } else if v == 1 {
        '1'
    } else if v == 2 {
        '2'
    } else if v == 3 {
        '3'
    } else if v == 4 {
        '4'
    } else if v == 5 {
        '5'
    } else if v == 6 {
        '6'
    } else if v == 7 {
        '7'
    } else if v == 8 {
        '8'
    } else if v == 9 {
        '9'
    } else if v == 10 {
        'a'
    } else if v == 11 {
        'b'
    } else if v == 12 {
        'c'
    } else if v == 13 {
        'd'
    } else if v == 14 {
        'e'
    } else {
        'f'
    }
}

fn hex_char_exec(v: u32) -> (r: char)
    requires
        v < 16,
    ensures
        r == hex_char(v as int),
{
    if v == 0 {
        '0'
    } else if v == 1 {
        '1'
    } else if v == 2 {
        '2'
    } else if v == 3 {
        '3'
    } else if v == 4 {
        '4'
    } else if v == 5 {
        '5'
    } else if v == 6 {
        '6'
    } else if v == 7 {
        '7'
    } else if v == 8 {
        '8'
    } else if v == 9 {
        '9'
    } else if v == 10 {
        'a'
    } else if v == 11 {
        'b'
    } else if v == 12 {
        'c'
    } else if v == 13 {
        'd'
    } else if v == 14 {
        'e'
    } else {
        'f'
    }
}

/// JSON escape of one character: the quote, the backslash and the named
/// control characters get their two-character escapes, any other control
/// character a `\u00..` escape, and every other character stands as itself.
pub open spec fn spec_escape_char(c: char) -> Seq<char> {
    if c == '"' {
        seq!['\\', '"']
    } else if c == '\\' {
        seq!['\\', '\\']
    } else if c == '\u{8}' {
        seq!['\\', 'b']
    } else if c == '\u{c}' {
        seq!['\\', 'f']
    } else if c == '\n' {
        seq!['\\', 'n']
    } else if c == '\r' {
        seq!['\\', 'r']
    } else if c == '\t' {
        seq!['\\', 't']
    } else if (c as u32) < 32 {
        seq!['\\', 'u', '0', '0', hex_char(c as u32 as int / 16), hex_char(c as u32 as int % 16)]
    } else {
        seq![c]
    }
}

/// JSON escape of a whole string, character for character.
pub open spec fn spec_escape(s: Seq<char>) -> Seq<char>
    decreases s.len(),
{
    if s.len() == 0 {
        Seq::empty()
    } else {
        spec_escape_char(s[0]) + spec_escape(s.drop_first())
    }
}

/// Escaping a string one character longer appends that character's escape.
pub proof fn lemma_escape_push(s: Seq<char>, c: char)
    ensures
        spec_escape(s.push(c)) == spec_escape(s) + spec_escape_char(c),
    decreases s.len(),
{
    if s.len() == 0 {
        reveal_with_fuel(spec_escape, 3);
        assert(s.push(c)[0] == c);
        assert(s.push(c).drop_first() =~= Seq::<char>::empty());
        assert(s =~= Seq::<char>::empty());
        assert(spec_escape(s.push(c)) =~= spec_escape(s) + spec_escape_char(c));
    } else {
        assert(s.push(c)[0] == s[0]);
        assert(s.push(c).drop_first() =~= s.drop_first().push(c));
        lemma_escape_push(s.drop_first(), c);
        assert(spec_escape(s.push(c)) =~= spec_escape(s) + spec_escape_char(c));
    }
}

fn push_escaped_char(acc: &mut Vec<char>, c: char)
    ensures
        final(acc)@ == old(acc)@ + spec_escape_char(c),
{
    let ghost acc0 = acc@;
    if c == '"' {
        acc.push('\\');
        acc.push('"');
    } else if c == '\\' {
        acc.push('\\');
        acc.push('\\');
    } else if c == '\u{8}' {
        acc.push('\\');
        acc.push('b');
    } else if c == '\u{c}' {
        acc.push('\\');
        acc.push('f');
    } else if c == '\n' {
        acc.push('\\');
        acc.push('n');
    } else if c == '\r' {
        acc.push('\\');
        acc.push('r');
    } else if c == '\t' {
        acc.push('\\');
        acc.push('t');
    } else if (c as u32) < 32 {
        let u = c as u32;
        acc.push('\\');
        acc.push('u');
        acc.push('0');
        acc.push('0');
        acc.push(hex_char_exec(u / 16));
        acc.push(hex_char_exec(u % 16));
    } else {
        acc.push(c);
    }
    proof {
        assert(acc@ =~= acc0 + spec_escape_char(c));
    }
}

/// Append the characters of a string slice.
fn append_str(acc: &mut Vec<char>, s: &str)
    ensures
        final(acc)@ == old(acc)@ + s@,
{
    let n = s.unicode_len();
    let mut i: usize = 0;
    while i < n
        invariant
            n == s@.len(),
            i <= n,
            acc@ == old(acc)@ + s@.take(i as int),
        decreases n - i,
    {
        acc.push(s.get_char(i));
        proof {
            assert(s@.take(i as int).push(s@[i as int]) =~= s@.take(i as int + 1));
            assert(acc@ =~= old(acc)@ + s@.take(i as int + 1));
        }
        i = i + 1;
    }
    proof {
        assert(s@.take(n as int) =~= s@);
    }
}

/// Append the JSON escape of a string slice.
fn append_escaped(acc: &mut Vec<char>, s: &str)
    ensures
        final(acc)@ == old(acc)@ + spec_escape(s@),
{
    let n = s.unicode_len();
    let mut i: usize = 0;
    while i < n
        invariant
            n == s@.len(),
            i <= n,
            acc@ == old(acc)@ + spec_escape(s@.take(i as int)),
        decreases n - i,
    {
        let c = s.get_char(i);
        push_escaped_char(acc, c);
        proof {
            assert(s@.take(i as int).push(c) =~= s@.take(i as int + 1));
            lemma_escape_push(s@.take(i as int), c);
            assert(acc@ =~= old(acc)@ + spec_escape(s@.take(i as int + 1)));
        }
        i = i + 1;
    }
    proof {
        assert(s@.take(n as int) =~= s@);
    }
}

/// The JSON serialization of one message.
pub open spec fn spec_message_json(m: MessageView) -> Seq<char> {
    "{\"role\":\""@ + spec_escape(m.role) + "\",\"content\":\""@ + spec_escape(m.content) + "\"}"@
}

/// The comma-separated serializations of the messages from index `k` on.
pub open spec fn spec_messages_items(msgs: Seq<MessageView>, k: int) -> Seq<char>
    decreases msgs.len() - k,
{
    if k < 0 || k >= msgs.len() {
        Seq::empty()
    } else if k == msgs.len() - 1 {
        spec_message_json(msgs[k])
    } else {
        spec_message_json(msgs[k]) + ","@ + spec_messages_items(msgs, k + 1)
    }
}

/// The JSON serialization of a whole request: its model and its messages,
/// in order, in the exact two-field shape the wire contract asks for.
pub open spec fn spec_request_body(model: Seq<char>, msgs: Seq<MessageView>) -> Seq<char> {
    "{\"model\":\""@ + spec_escape(model) + "\",\"messages\":["@ + spec_messages_items(msgs, 0)
        + "]}"@
}

fn append_message_json(acc: &mut Vec<char>, m: &Message)
    ensures
        final(acc)@ == old(acc)@ + spec_message_json(m@),
{
    append_str(acc, "{\"role\":\"");
    append_escaped(acc, m.role.as_str());
    append_str(acc, "\",\"content\":\"");
    append_escaped(acc, m.content.as_str());
    append_str(acc, "\"}");
    proof {
        assert(acc@ =~= old(acc)@ + spec_message_json(m@));
    }
}

fn append_messages_items(acc: &mut Vec<char>, msgs: &Vec<Message>, k: usize)
    requires
        k <= msgs@.len(),
    ensures
        final(acc)@ == old(acc)@ + spec_messages_items(msgs@.map_values(|m: Message| m@), k as int),
    decreases msgs@.len() - k,
{
    let ghost views = msgs@.map_values(|m: Message| m@);
    if k >= msgs.len() {
        proof {
            assert(acc@ =~= old(acc)@ + spec_messages_items(views, k as int));
        }
        return ;
    }
    append_message_json(acc, &msgs[k]);
    if k + 1 < msgs.len() {
        append_str(acc, ",");
        append_messages_items(acc, msgs, k + 1);
        proof {
            assert(acc@ =~= old(acc)@ + spec_messages_items(views, k as int));
        }
    } else {
        proof {
            assert(acc@ =~= old(acc)@ + spec_messages_items(views, k as int));
        }
    }
}

/// Serialize a request to the JSON body that is sent on the wire.
pub fn request_body(req: &ChatRequest) -> (r: String)
    ensures
        r@ == spec_request_body(req@.0, req@.1),
{
    let mut acc: Vec<char> = Vec::new();
    append_str(&mut acc, "{\"model\":\"");
    append_escaped(&mut acc, req.model.as_str());
    append_str(&mut acc, "\",\"messages\":[");
    append_messages_items(&mut acc, &req.messages, 0);
    append_str(&mut acc, "]}");
    proof {
        assert(acc@ =~= spec_request_body(req@.0, req@.1));
    }
    string_of_chars(&acc)
}

/// Escaped text embedded in a larger text parses back to what was escaped:
/// where `w` holds the escape of `s` at `i` followed by a closing quote,
/// reading a string body at `i` yields exactly `s`.
pub proof fn lemma_escape_unescape(w: Seq<char>, i: int, s: Seq<char>)
    requires
        0 <= i,
        i + spec_escape(s).len() + 1 <= w.len(),
        forall|t: int| 0 <= t < spec_escape(s).len() ==> w[i + t] == spec_escape(s)[t],
        w[i + spec_escape(s).len()] == '"',
    ensures
        parse_string_body(w, i) == Some((s, i + spec_escape(s).len() + 1)),
    decreases s.len(),
{
    if s.len() == 0 {
        assert(spec_escape(s) =~= Seq::<char>::empty());
        assert(w[i] == '"');
        assert(parse_string_body(w, i) == Some((Seq::<char>::empty(), i + 1)));
        assert(s =~= Seq::<char>::empty());
    } else {
        let c = s[0];
        let s2 = s.drop_first();
        let e = spec_escape_char(c);
        let el = e.len() as int;
        let e2 = spec_escape(s2);
        assert(spec_escape(s) == e + e2);
        assert forall|t: int| 0 <= t < e2.len() implies w[(i + el) + t] == e2[t] by {
            assert(w[i + (el + t)] == spec_escape(s)[el + t]);
        }
        assert(w[(i + el) + e2.len() as int] == '"') by {
            assert(i + (el + e2.len()) == i + spec_escape(s).len());
        }
        lemma_escape_unescape(w, i + el, s2);
        assert forall|t: int| 0 <= t < el implies w[i + t] == e[t] by {
            assert(w[i + t] == spec_escape(s)[t]);
        }
        assert(w[i + 0] == e[0]);
        if c == '"' || c == '\\' {
            assert(w[i] == '\\' && w[i + 1] == c);
            assert(parse_escape(w, i + 1) == Some((c, i + 2)));
            assert(parse_string_body(w, i) == Some((seq![c] + s2, i + el + e2.len() + 1)));
        } else if c == '\u{8}' || c == '\u{c}' || c == '\n' || c == '\r' || c == '\t' {
            assert(w[i] == '\\');
            assert(parse_escape(w, i + 1) == Some((c, i + 2)));
            assert(parse_string_body(w, i) == Some((seq![c] + s2, i + el + e2.len() + 1)));
        } else if (c as u32) < 32 {
            let u = c as u32;
            assert(w[i] == '\\' && w[i + 1] == 'u' && w[i + 2] == '0' && w[i + 3] == '0' && w[i + 4]
                == hex_char(u as int / 16) && w[i + 5] == hex_char(u as int % 16));
            assert(hex_val('0') == 0);
            assert(hex_val(hex_char(u as int / 16)) == u as int / 16);
            assert(hex_val(hex_char(u as int % 16)) == u as int % 16);
            assert(crate::json::hex4_val(w, i + 2) == (u as int / 16) * 16 + u as int % 16);
            assert((u as int / 16) * 16 + u as int % 16 == u as int);
            lemma_char_of_scalar(c, u);
            assert(parse_escape(w, i + 1) == Some((c, i + 6)));
            assert(parse_string_body(w, i) == Some((seq![c] + s2, i + el + e2.len() + 1)));
        } else {
            assert(w[i] == c);
            assert(w[i] != '"' && w[i] != '\\' && !((w[i] as u32) < 32));
            assert(parse_string_body(w, i) == Some((seq![c] + s2, i + el + e2.len() + 1)));
        }
        assert(seq![c] + s2 =~= s);
        assert(el + e2.len() == spec_escape(s).len());
    }
}

/// Round trip of the wire grammar's string layer: a quoted, escaped string,
/// whatever follows it, parses back to exactly the characters that were
/// escaped, and ends just past its closing quote.
pub proof fn lemma_string_round_trip(s: Seq<char>, tail: Seq<char>)
    ensures
        parse_string_at(seq!['"'] + spec_escape(s) + seq!['"'] + tail, 0) == Some(
            (s, spec_escape(s).len() + 2int),
        ),
{
    let w = seq!['"'] + spec_escape(s) + seq!['"'] + tail;
    assert(w[0] == '"');
    assert forall|t: int| 0 <= t < spec_escape(s).len() implies w[1 + t] == spec_escape(s)[t] by {}
    assert(w[1 + spec_escape(s).len() as int] == '"');
    lemma_escape_unescape(w, 1, s);
}

/// Round trip of one message over the wire: the serialization of any
/// message, standing anywhere in a larger text, parses back to exactly that
/// message and ends just past its closing brace.
/// The characters of the fixed pieces of the message serialization.
proof fn lemma_wire_literals()
    ensures
        "{\"role\":\""@ == seq!['{', '"', 'r', 'o', 'l', 'e', '"', ':', '"'],
        "\",\"content\":\""@ == seq![
            '"',
            ',',
            '"',
            'c',
            'o',
            'n',
            't',
            'e',
            'n',
            't',
            '"',
            ':',
            '"',
        ],
        "\"}"@ == seq!['"', '}'],
        "role"@ == seq!['r', 'o', 'l', 'e'],
        "content"@ == seq!['c', 'o', 'n', 't', 'e', 'n', 't'],
{
    broadcast use vstd::string::group_string_axioms;

    reveal_strlit("{\"role\":\"");
    reveal_strlit("\",\"content\":\"");
    reveal_strlit("\"}");
    reveal_strlit("role");
    reveal_strlit("content");
    assert("{\"role\":\""@ =~= seq!['{', '"', 'r', 'o', 'l', 'e', '"', ':', '"']);
    assert("\",\"content\":\""@ =~= seq![
        '"',
        ',',
        '"',
        'c',
        'o',
        'n',
        't',
        'e',
        'n',
        't',
        '"',
        ':',
        '"',
    ]);
    assert("\"}"@ =~= seq!['"', '}']);
    assert("role"@ =~= seq!['r', 'o', 'l', 'e']);
    assert("content"@ =~= seq!['c', 'o', 'n', 't', 'e', 'n', 't']);
}

#[verifier::rlimit(100)]
pub proof fn lemma_message_round_trip(w: Seq<char>, i: int, m: MessageView)
    requires
        0 <= i,
        i + spec_message_json(m).len() <= w.len(),
        forall|t: int| 0 <= t < spec_message_json(m).len() ==> w[i + t] == spec_message_json(m)[t],
    ensures
        parse_message_obj(w, i) == Some((m, i + spec_message_json(m).len() as int)),
{
    lemma_wire_literals();
    let l1 = "{\"role\":\""@;
    let l2 = "\",\"content\":\""@;
    let l3 = "\"}"@;
    let er = spec_escape(m.role);
    let ec = spec_escape(m.content);
    let ghost j = spec_message_json(m);
    assert(l1.len() == 9 && l2.len() == 13 && l3.len() == 2);
    assert(j == l1 + er + l2 + ec + l3);
    assert(j.len() == 24 + er.len() + ec.len());
    let erl = er.len() as int;
    let ecl = ec.len() as int;
    // the fixed characters of the skeleton, read off the concatenation
    assert forall|t: int| 0 <= t < 9 implies w[i + t] == l1[t] by {
        assert(w[i + t] == j[t]);
    }
    assert(w[i + 0] == '{');
    assert forall|t: int| 0 <= t < erl implies w[(i + 9) + t] == er[t] by {
        assert(w[i + (9 + t)] == j[9 + t]);
    }
    assert forall|t: int| 0 <= t < 13 implies w[(i + 9 + erl) + t] == l2[t] by {
        assert(w[i + (9 + erl + t)] == j[9 + erl + t]);
    }
    assert forall|t: int| 0 <= t < ecl implies w[(i + 22 + erl) + t] == ec[t] by {
        assert(w[i + (22 + erl + t)] == j[22 + erl + t]);
    }
    assert forall|t: int| 0 <= t < 2 implies w[(i + 22 + erl + ecl) + t] == l3[t] by {
        assert(w[i + (22 + erl + ecl + t)] == j[22 + erl + ecl + t]);
    }
    // the key `role`
    assert(parse_string_body(w, i + 6) == Some((Seq::<char>::empty(), i + 7)));
    assert(seq!['e'] + Seq::<char>::empty() =~= seq!['e']);
    assert(parse_string_body(w, i + 5) == Some((seq!['e'], i + 7)));
    assert(seq!['l'] + seq!['e'] =~= seq!['l', 'e']);
    assert(parse_string_body(w, i + 4) == Some((seq!['l', 'e'], i + 7)));
    assert(seq!['o'] + seq!['l', 'e'] =~= seq!['o', 'l', 'e']);
    assert(parse_string_body(w, i + 3) == Some((seq!['o', 'l', 'e'], i + 7)));
    assert(seq!['r'] + seq!['o', 'l', 'e'] =~= seq!['r', 'o', 'l', 'e']);
    assert(parse_string_body(w, i + 2) == Some((seq!['r', 'o', 'l', 'e'], i + 7)));
    assert(seq!['r', 'o', 'l', 'e'] =~= "role"@);
    assert(parse_string_at(w, i + 1) == Some(("role"@, i + 7)));
    // `:` and the role value
    assert(ws_end(w, i + 7) == i + 7);
    assert(ws_end(w, i + 8) == i + 8);
    assert(w[i + 8] == '"');
    assert(w[(i + 9) + erl] == '"') by {
        assert(w[(i + 9 + erl) + 0] == l2[0]);
    }
    lemma_escape_unescape(w, i + 9, m.role);
    assert(parse_string_at(w, i + 8) == Some((m.role, i + 10 + erl)));
    let b1 = i + 10 + erl;
    assert(w[b1 - 1 + 1] == ',') by {
        assert(w[(i + 9 + erl) + 1] == l2[1]);
    }
    assert(ws_end(w, b1) == b1);
    assert(ws_end(w, b1 + 1) == b1 + 1) by {
        assert(w[(i + 9 + erl) + 2] == l2[2]);
    }
    // the key `content`
    assert(parse_string_body(w, b1 + 9) == Some((Seq::<char>::empty(), b1 + 10)));
    assert(seq!['t'] + Seq::<char>::empty() =~= seq!['t']);
    assert(parse_string_body(w, b1 + 8) == Some((seq!['t'], b1 + 10)));
    assert(seq!['n'] + seq!['t'] =~= seq!['n', 't']);
    assert(parse_string_body(w, b1 + 7) == Some((seq!['n', 't'], b1 + 10)));
    assert(seq!['e'] + seq!['n', 't'] =~= seq!['e', 'n', 't']);
    assert(parse_string_body(w, b1 + 6) == Some((seq!['e', 'n', 't'], b1 + 10)));
    assert(seq!['t'] + seq!['e', 'n', 't'] =~= seq!['t', 'e', 'n', 't']);
    assert(parse_string_body(w, b1 + 5) == Some((seq!['t', 'e', 'n', 't'], b1 + 10)));
    assert(seq!['n'] + seq!['t', 'e', 'n', 't'] =~= seq!['n', 't', 'e', 'n', 't']);
    assert(parse_string_body(w, b1 + 4) == Some((seq!['n', 't', 'e', 'n', 't'], b1 + 10)));
    assert(seq!['o'] + seq!['n', 't', 'e', 'n', 't'] =~= seq!['o', 'n', 't', 'e', 'n', 't']);
    assert(parse_string_body(w, b1 + 3) == Some((seq!['o', 'n', 't', 'e', 'n', 't'], b1 + 10)));
    assert(seq!['c'] + seq!['o', 'n', 't', 'e', 'n', 't'] =~= seq!['c', 'o', 'n', 't', 'e', 'n', 't']);
    assert(parse_string_body(w, b1 + 2) == Some((seq!['c', 'o', 'n', 't', 'e', 'n', 't'], b1 + 10)));
    assert(seq!['c', 'o', 'n', 't', 'e', 'n', 't'] =~= "content"@);
    assert(parse_string_at(w, b1 + 1) == Some(("content"@, b1 + 10)));
    assert("content"@ != "role"@);
    // `:` and the content value
    assert(ws_end(w, b1 + 10) == b1 + 10);
    assert(ws_end(w, b1 + 11) == b1 + 11);
    assert(w[b1 + 12 + ecl - ecl - 1] == '"') by {
        assert(w[(i + 9 + erl) + 12] == l2[12]);
    }
    assert(w[(b1 + 12) + ecl] == '"') by {
        assert(w[(i + 22 + erl + ecl) + 0] == l3[0]);
    }
    lemma_escape_unescape(w, b1 + 12, m.content);
    assert(parse_string_at(w, b1 + 11) == Some((m.content, b1 + 13 + ecl)));
    let b2 = b1 + 13 + ecl;
    assert(w[b2 - 1 + 1] == '}') by {
        assert(w[(i + 22 + erl + ecl) + 1] == l3[1]);
    }
    assert(ws_end(w, b2) == b2);
    // assemble the two members
    assert(parse_message_members(w, b1 + 1, Some(m.role), None) == Some((m, b2 + 1)));
    assert(parse_message_members(w, i + 1, None, None) == Some((m, b2 + 1)));
    assert(ws_end(w, i + 1) == i + 1);
    assert(b2 + 1 == i + spec_message_json(m).len());
    assert(parse_message_obj(w, i) == Some((m, i + spec_message_json(m).len() as int)));
}

/// Build the request for one prompt: the given model, and exactly one
/// message with role `user` and the prompt as its content.
pub fn build_request(model: &str, prompt: &str) -> (r: ChatRequest)
    ensures
        r@.0 == model@,
        r@.1 == seq![MessageView { role: "user"@, content: prompt@ }],
{
    let m = Message { role: String::from_str("user"), content: prompt.to_owned() };
    let r = ChatRequest { model: model.to_owned(), messages: vec![m] };
    proof {
        assert(r@.1 =~= seq![MessageView { role: "user"@, content: prompt@ }]);
    }
    r
}

// ===== the request as a receiver reads it =====
//
// The round-trip law below needs a statement of what a compliant receiver
// finds in the body this client sends. These specification functions parse
// a request: a JSON object with a string member `model` and a member
// `messages` holding an array of message objects, in either order, other
// members skipped, with a required member that is absent or doubled not
// conforming.

/// One or more elements of the `messages` array, entered at a value.
pub open spec fn parse_req_messages_elements(s: Seq<char>, i: int) -> Option<
    (Seq<MessageView>, int),
>
    decreases s.len() - i,
{
    match parse_message_obj(s, i) {
        Some((m, j)) => {
            if i < j && j <= s.len() {
                let k = ws_end(s, j);
                if j <= k && k < s.len() {
                    if s[k] == ',' {
                        let l = ws_end(s, k + 1);
                        if k + 1 <= l && l <= s.len() {
                            match parse_req_messages_elements(s, l) {
                                Some((rest, e)) => Some((seq![m] + rest, e)),
                                None => None,
                            }
                        } else {
                            None
                        }
                    } else if s[k] == ']' {
                        Some((seq![m], k + 1))
                    } else {
                        None
                    }
                } else {
                    None
                }
            } else {
                None
            }
        },
        None => None,
    }
}

/// The `messages` array at `i`, possibly empty.
pub open spec fn parse_req_messages_array(s: Seq<char>, i: int) -> Option<(Seq<MessageView>, int)> {
    if 0 <= i && i < s.len() && s[i] == '[' {
        let j = ws_end(s, i + 1);
        if i + 1 <= j && j <= s.len() {
            if j < s.len() && s[j] == ']' {
                Some((Seq::empty(), j + 1))
            } else {
                parse_req_messages_elements(s, j)
            }
        } else {
            None
        }
    } else {
        None
    }
}

/// Members of the request object, entered at a key, with the fields already
/// seen.
pub open spec fn parse_request_members(
    s: Seq<char>,
    i: int,
    model: Option<Seq<char>>,
    msgs: Option<Seq<MessageView>>,
) -> Option<((Seq<char>, Seq<MessageView>), int)>
    decreases s.len() - i,
{
    match parse_string_at(s, i) {
        Some((key, j)) => {
            if i < j && j <= s.len() {
                let k = ws_end(s, j);
                if j <= k && k < s.len() && s[k] == ':' {
                    let l = ws_end(s, k + 1);
                    if k + 1 <= l && l <= s.len() {
                        let step: Option<(Option<Seq<char>>, Option<Seq<MessageView>>, int)> = if key
                            == "model"@ {
                            if model is Some {
                                None
                            } else {
                                match parse_string_at(s, l) {
                                    Some((val, m)) => Some((Some(val), msgs, m)),
                                    None => None,
                                }
                            }
                        } else if key == "messages"@ {
                            if msgs is Some {
                                None
                            } else {
                                match parse_req_messages_array(s, l) {
                                    Some((ms, m)) => Some((model, Some(ms), m)),
                                    None => None,
                                }
                            }
                        } else {
                            match crate::json::skip_value(s, l) {
                                Some(m) => Some((model, msgs, m)),
                                None => None,
                            }
                        };
                        match step {
                            Some((model2, msgs2, m)) => {
                                if l < m && m <= s.len() {
                                    let n = ws_end(s, m);
                                    if m <= n && n < s.len() {
                                        if s[n] == ',' {
                                            let p = ws_end(s, n + 1);
                                            if n + 1 <= p && p <= s.len() {
                                                parse_request_members(s, p, model2, msgs2)
                                            } else {
                                                None
                                            }
                                        } else if s[n] == '}' {
                                            match (model2, msgs2) {
                                                (Some(mo), Some(ms)) => Some(((mo, ms), n + 1)),
                                                _ => None,
                                            }
                                        } else {
                                            None
                                        }
                                    } else {
                                        None
                                    }
                                } else {
                                    None
                                }
                            },
                            None => None,
                        }
                    } else {
                        None
                    }
                } else {
                    None
                }
            } else {
                None
            }
        },
        None => None,
    }
}

/// The request object at `i`. Both `model` and `messages` must be present.
pub open spec fn parse_request_obj(s: Seq<char>, i: int) -> Option<
    ((Seq<char>, Seq<MessageView>), int),
> {
    if 0 <= i && i < s.len() && s[i] == '{' {
        let j = ws_end(s, i + 1);
        if i + 1 <= j && j <= s.len() {
            if j < s.len() && s[j] == '}' {
                None
            } else {
                parse_request_members(s, j, None, None)
            }
        } else {
            None
        }
    } else {
        None
    }
}

/// A whole request text: whitespace, the request object, whitespace, end of
/// text. What a compliant receiver reads out of a request body.
pub open spec fn spec_parse_request(s: Seq<char>) -> Option<(Seq<char>, Seq<MessageView>)> {
    let i = ws_end(s, 0);
    if 0 <= i && i <= s.len() {
        match parse_request_obj(s, i) {
            Some((r, j)) => {
                if 0 <= j && j <= s.len() && ws_end(s, j) == s.len() {
                    Some(r)
                } else {
                    None
                }
            },
            None => None,
        }
    } else {
        None
    }
}

/// The characters of the fixed pieces of the request serialization.
proof fn lemma_request_literals()
    ensures
        "{\"model\":\""@ == seq!['{', '"', 'm', 'o', 'd', 'e', 'l', '"', ':', '"'],
        "\",\"messages\":["@ == seq![
            '"',
            ',',
            '"',
            'm',
            'e',
            's',
            's',
            'a',
            'g',
            'e',
            's',
            '"',
            ':',
            '[',
        ],
        "]}"@ == seq![']', '}'],
        "model"@ == seq!['m', 'o', 'd', 'e', 'l'],
        "messages"@ == seq!['m', 'e', 's', 's', 'a', 'g', 'e', 's'],
        ","@ == seq![','],
{
    broadcast use vstd::string::group_string_axioms;

    reveal_strlit("{\"model\":\"");
    reveal_strlit("\",\"messages\":[");
    reveal_strlit("]}");
    reveal_strlit("model");
    reveal_strlit("messages");
    reveal_strlit(",");
    assert("{\"model\":\""@ =~= seq!['{', '"', 'm', 'o', 'd', 'e', 'l', '"', ':', '"']);
    assert("\",\"messages\":["@ =~= seq![
        '"',
        ',',
        '"',
        'm',
        'e',
        's',
        's',
        'a',
        'g',
        'e',
        's',
        '"',
        ':',
        '[',
    ]);
    assert("]}"@ =~= seq![']', '}']);
    assert("model"@ =~= seq!['m', 'o', 'd', 'e', 'l']);
    assert("messages"@ =~= seq!['m', 'e', 's', 's', 'a', 'g', 'e', 's']);
    assert(","@ =~= seq![',']);
}

/// The serialization of one message is never empty and opens with a brace.
proof fn lemma_message_json_head(m: MessageView)
    ensures
        spec_message_json(m).len() >= 24,
        spec_message_json(m)[0] == '{',
{
    lemma_wire_literals();
}

/// The serialized tail of a message list, followed by a closing bracket,
/// parses back to exactly those messages.
#[verifier::rlimit(100)]
proof fn lemma_messages_items_parse(w: Seq<char>, i: int, msgs: Seq<MessageView>, k: int)
    requires
        0 <= i,
        0 <= k < msgs.len(),
        i + spec_messages_items(msgs, k).len() + 1 <= w.len(),
        forall|t: int|
            0 <= t < spec_messages_items(msgs, k).len() ==> w[i + t] == spec_messages_items(
                msgs,
                k,
            )[t],
        w[i + spec_messages_items(msgs, k).len()] == ']',
    ensures
        parse_req_messages_elements(w, i) == Some(
            (msgs.skip(k), i + spec_messages_items(msgs, k).len() + 1int),
        ),
    decreases msgs.len() - k,
{
    lemma_request_literals();
    let items = spec_messages_items(msgs, k);
    let mj = spec_message_json(msgs[k]);
    lemma_message_json_head(msgs[k]);
    let mjl = mj.len() as int;
    if k == msgs.len() - 1 {
        assert(items == mj);
        lemma_message_round_trip(w, i, msgs[k]);
        assert(ws_end(w, i + mjl) == i + mjl);
        assert(msgs.skip(k) =~= seq![msgs[k]]);
        assert(parse_req_messages_elements(w, i) == Some((msgs.skip(k), i + items.len() + 1int)));
    } else {
        let items2 = spec_messages_items(msgs, k + 1);
        assert(items == mj + ","@ + items2);
        assert(items == mj + seq![','] + items2);
        assert forall|t: int| 0 <= t < mjl implies w[i + t] == mj[t] by {
            assert(w[i + t] == items[t]);
        }
        lemma_message_round_trip(w, i, msgs[k]);
        assert(w[i + mjl] == ',') by {
            assert(w[i + (mjl + 0)] == items[mjl + 0]);
        }
        assert forall|t: int| 0 <= t < items2.len() implies w[(i + mjl + 1) + t] == items2[t] by {
            assert(w[i + (mjl + 1 + t)] == items[mjl + 1 + t]);
        }
        assert(w[(i + mjl + 1) + items2.len() as int] == ']') by {
            assert(i + (mjl + 1 + items2.len()) == i + items.len());
        }
        lemma_message_json_head(msgs[k + 1]);
        assert(w[i + mjl + 1] == items2[0]) by {
            assert(w[(i + mjl + 1) + 0] == items2[0]);
        }
        assert(items2[0] == '{') by {
            if k + 1 == msgs.len() - 1 {
                assert(items2 == spec_message_json(msgs[k + 1]));
            } else {
                assert(items2 == spec_message_json(msgs[k + 1]) + ","@ + spec_messages_items(
                    msgs,
                    k + 2,
                ));
            }
        }
        lemma_messages_items_parse(w, i + mjl + 1, msgs, k + 1);
        assert(ws_end(w, i + mjl) == i + mjl);
        assert(ws_end(w, i + mjl + 1) == i + mjl + 1);
        assert(seq![msgs[k]] + msgs.skip(k + 1) =~= msgs.skip(k));
        assert(parse_req_messages_elements(w, i) == Some((msgs.skip(k), i + items.len() + 1int)));
    }
}

/// Round trip of the whole request: the body this client serializes parses
/// back, by the receiver's grammar, to exactly the model and the messages
/// that were serialized. In particular the body built for one prompt reads
/// back as that model and the single `user` message holding the prompt.
#[verifier::rlimit(100)]
pub proof fn lemma_request_round_trip(model: Seq<char>, msgs: Seq<MessageView>)
    ensures
        spec_parse_request(spec_request_body(model, msgs)) == Some((model, msgs)),
{
    lemma_request_literals();
    let l4 = "{\"model\":\""@;
    let l5 = "\",\"messages\":["@;
    let l6 = "]}"@;
    let em = spec_escape(model);
    let items = spec_messages_items(msgs, 0);
    let w = spec_request_body(model, msgs);
    assert(w == l4 + em + l5 + items + l6);
    let eml = em.len() as int;
    let il = items.len() as int;
    assert(w.len() == 26 + eml + il);
    assert forall|t: int| 0 <= t < 10 implies w[0int + t] == l4[t] by {}
    assert forall|t: int| 0 <= t < eml implies w[10 + t] == em[t] by {}
    assert forall|t: int| 0 <= t < 14 implies w[(10 + eml) + t] == l5[t] by {}
    assert forall|t: int| 0 <= t < il implies w[(24 + eml) + t] == items[t] by {}
    assert forall|t: int| 0 <= t < 2 implies w[(24 + eml + il) + t] == l6[t] by {}
    assert(w[0int + 0] == '{');
    // the key `model`
    assert(parse_string_body(w, 7int) == Some((Seq::<char>::empty(), 8int)));
    assert(seq!['l'] + Seq::<char>::empty() =~= seq!['l']);
    assert(parse_string_body(w, 6int) == Some((seq!['l'], 8int)));
    assert(seq!['e'] + seq!['l'] =~= seq!['e', 'l']);
    assert(parse_string_body(w, 5int) == Some((seq!['e', 'l'], 8int)));
    assert(seq!['d'] + seq!['e', 'l'] =~= seq!['d', 'e', 'l']);
    assert(parse_string_body(w, 4int) == Some((seq!['d', 'e', 'l'], 8int)));
    assert(seq!['o'] + seq!['d', 'e', 'l'] =~= seq!['o', 'd', 'e', 'l']);
    assert(parse_string_body(w, 3int) == Some((seq!['o', 'd', 'e', 'l'], 8int)));
    assert(seq!['m'] + seq!['o', 'd', 'e', 'l'] =~= seq!['m', 'o', 'd', 'e', 'l']);
    assert(parse_string_body(w, 2int) == Some((seq!['m', 'o', 'd', 'e', 'l'], 8int)));
    assert(parse_string_at(w, 1int) == Some(("model"@, 8int)));
    // `:` and the model value
    assert(ws_end(w, 8int) == 8);
    assert(ws_end(w, 9int) == 9);
    assert(w[10 + eml] == '"') by {
        assert(w[(10 + eml) + 0] == l5[0]);
    }
    lemma_escape_unescape(w, 10int, model);
    assert(parse_string_at(w, 9int) == Some((model, 11 + eml)));
    let b1 = 11 + eml;
    assert(w[b1 - 1 + 1] == ',') by {
        assert(w[(10 + eml) + 1] == l5[1]);
    }
    assert(ws_end(w, b1) == b1);
    assert(ws_end(w, b1 + 1) == b1 + 1) by {
        assert(w[(10 + eml) + 2] == l5[2]);
    }
    // the key `messages`
    assert forall|t: int| 0 <= t < 14 implies w[(b1 - 1) + t] == l5[t] by {
        assert(w[(10 + eml) + t] == l5[t]);
    }
    assert(parse_string_body(w, b1 + 10) == Some((Seq::<char>::empty(), b1 + 11)));
    assert(seq!['s'] + Seq::<char>::empty() =~= seq!['s']);
    assert(parse_string_body(w, b1 + 9) == Some((seq!['s'], b1 + 11)));
    assert(seq!['e'] + seq!['s'] =~= seq!['e', 's']);
    assert(parse_string_body(w, b1 + 8) == Some((seq!['e', 's'], b1 + 11)));
    assert(seq!['g'] + seq!['e', 's'] =~= seq!['g', 'e', 's']);
    assert(parse_string_body(w, b1 + 7) == Some((seq!['g', 'e', 's'], b1 + 11)));
    assert(seq!['a'] + seq!['g', 'e', 's'] =~= seq!['a', 'g', 'e', 's']);
    assert(parse_string_body(w, b1 + 6) == Some((seq!['a', 'g', 'e', 's'], b1 + 11)));
    assert(seq!['s'] + seq!['a', 'g', 'e', 's'] =~= seq!['s', 'a', 'g', 'e', 's']);
    assert(parse_string_body(w, b1 + 5) == Some((seq!['s', 'a', 'g', 'e', 's'], b1 + 11)));
    assert(seq!['s'] + seq!['s', 'a', 'g', 'e', 's'] =~= seq!['s', 's', 'a', 'g', 'e', 's']);
    assert(parse_string_body(w, b1 + 4) == Some((seq!['s', 's', 'a', 'g', 'e', 's'], b1 + 11)));
    assert(seq!['e'] + seq!['s', 's', 'a', 'g', 'e', 's'] =~= seq!['e', 's', 's', 'a', 'g', 'e', 's']);
    assert(parse_string_body(w, b1 + 3) == Some((seq!['e', 's', 's', 'a', 'g', 'e', 's'], b1 + 11)));
    assert(seq!['m'] + seq!['e', 's', 's', 'a', 'g', 'e', 's'] =~= seq![
        'm',
        'e',
        's',
        's',
        'a',
        'g',
        'e',
        's',
    ]);
    assert(parse_string_body(w, b1 + 2) == Some(
        (seq!['m', 'e', 's', 's', 'a', 'g', 'e', 's'], b1 + 11),
    ));
    assert(parse_string_at(w, b1 + 1) == Some(("messages"@, b1 + 11)));
    assert("messages"@ != "model"@);
    // `:` and the messages array
    assert(ws_end(w, b1 + 11) == b1 + 11);
    assert(ws_end(w, b1 + 12) == b1 + 12);
    assert(w[b1 + 12] == '[') by {
        assert(w[(10 + eml) + 13] == l5[13]);
    }
    let b2 = b1 + 13;
    assert(b2 == 24 + eml);
    if msgs.len() == 0 {
        assert(items =~= Seq::<char>::empty());
        assert(w[b2 + 0] == ']') by {
            assert(w[(24 + eml + il) + 0] == l6[0]);
        }
        assert(ws_end(w, b2) == b2);
        assert(parse_req_messages_array(w, b1 + 12) == Some((Seq::<MessageView>::empty(), b2 + 1)));
        assert(msgs =~= Seq::<MessageView>::empty());
    } else {
        lemma_message_json_head(msgs[0]);
        assert(items[0] == '{') by {
            if msgs.len() == 1 {
                assert(items == spec_message_json(msgs[0]));
            } else {
                assert(items == spec_message_json(msgs[0]) + ","@ + spec_messages_items(msgs, 1));
            }
        }
        assert(w[b2 + 0] == items[0]) by {
            assert(w[(24 + eml) + 0] == items[0]);
        }
        assert(w[b2 + il] == ']') by {
            assert(w[(24 + eml + il) + 0] == l6[0]);
        }
        assert(ws_end(w, b2) == b2);
        lemma_messages_items_parse(w, b2, msgs, 0);
        assert(msgs.skip(0) =~= msgs);
        assert(parse_req_messages_array(w, b1 + 12) == Some((msgs, b2 + il + 1)));
    }
    let b3 = b2 + il + 1;
    assert(w[b3 - 1 + 1] == '}') by {
        assert(w[(24 + eml + il) + 1] == l6[1]);
    }
    assert(ws_end(w, b3) == b3);
    assert(parse_request_members(w, b1 + 1, Some(model), None) == Some(((model, msgs), b3 + 1)));
    assert(parse_request_members(w, 1int, None, None) == Some(((model, msgs), b3 + 1)));
    assert(ws_end(w, 1int) == 1);
    assert(parse_request_obj(w, 0int) == Some(((model, msgs), b3 + 1)));
    assert(b3 + 1 == w.len());
    assert(ws_end(w, b3 + 1) == b3 + 1);
    assert(ws_end(w, 0int) == 0);
}

} // verus!
