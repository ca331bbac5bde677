//! The event envelope and its two wire forms.
//!
//! A message is a pair `{msg, event_name}`.  The structured form is a
//! compact object `{"msg":"...","event_name":"..."}` (either field
//! order), with `"` and `\` escaped by a backslash inside the string
//! values and newline, carriage return and tab written as `\n`, `\r`
//! and `\t`; whitespace is allowed around every token.  The grammar
//! is otherwise deliberately exact: escape sequences outside that set
//! (such as `\uXXXX`) and extra fields are not part of it, and a line
//! using them is read in the simple form instead.  Control characters
//! other than the three above pass through unescaped — the transport
//! is line-delimited, so payloads are newline-free to begin with.
//! The simple form is
//! `event_name:payload`: the first colon is
//! the delimiter; when there is no colon, or the part before the first
//! colon trims to nothing, the whole line is the payload, routed under
//! the event name `default`, so the simple form never yields an empty
//! event name.  Decoding is total: a line that fails the structured
//! form falls back to the simple form.

use vstd::prelude::*;
use vstd::string::*;

use crate::errors::TransportError;
use crate::strutil::{
    all_space, begins_with, find_first, is_space, lemma_spec_find, lemma_ws_len, skip_ws,
    spec_find, starts_with_at, trim, trim_spec, ws_len,
};

verus! {

/// The event name a simple-form line without an explicit one is routed
/// under.
pub open spec fn default_event_name() -> Seq<char> {
    "default"@
}

/// The simple-form reading of `s`, as a `(payload, event_name)` pair:
/// split at the first colon and trim both parts.  When there is no
/// colon, nothing follows it, or the part before it trims to nothing,
/// the whole line is the payload and the event name falls back to
/// `default` — an event name is never empty.
pub open spec fn simple_decode(s: Seq<char>) -> (Seq<char>, Seq<char>) {
    match spec_find(s, ':') {
        Some(i) => if i + 1 < s.len() && trim_spec(s.subrange(0, i)).len() > 0 {
            (trim_spec(s.subrange(i + 1, s.len() as int)), trim_spec(s.subrange(0, i)))
        } else {
            (s, default_event_name())
        },
        None => (s, default_event_name()),
    }
}

/// One routable message: the payload and the event name that selects
/// its subscribers.
#[derive(Debug, Clone)]
pub struct EventMessage {
    /// The actual message content.
    pub msg: String,
    /// Event name used to route the message to subscribed producers.
    pub event_name: String,
}

impl EventMessage {
    /// Creates a message from its two fields.
    pub fn new(msg: String, event_name: String) -> (r: EventMessage)
        ensures
            r.msg@ == msg@,
            r.event_name@ == event_name@,
    {
        EventMessage { msg, event_name }
    }

    /// Parses the simple form `event_name:payload`; total, and the
    /// event name of the result is never empty.
    pub fn from_simple_format(text: &str) -> (r: EventMessage)
        ensures
            r.msg@ == simple_decode(text@).0,
            r.event_name@ == simple_decode(text@).1,
            r.event_name@.len() > 0,
    {
        proof {
            reveal_strlit("default");
        }
        let n = text.unicode_len();
        let colon = find_first(text, ':');
        match colon {
            Some(i) => {
                proof {
                    lemma_spec_find(text@, ':');
                }
                let event = trim(text.substring_char(0, i));
                if i + 1 < n && event.as_str().unicode_len() > 0 {
                    let msg = trim(text.substring_char(i + 1, n));
                    EventMessage { msg, event_name: event }
                } else {
                    EventMessage {
                        msg: text.to_owned(),
                        event_name: String::from_str("default"),
                    }
                }
            },
            None => {
                EventMessage { msg: text.to_owned(), event_name: String::from_str("default") }
            },
        }
    }
}


/// The opening the encoder emits: `{"msg":"`.
pub open spec fn msg_open() -> Seq<char> {
    seq!['{', '"', 'm', 's', 'g', '"', ':', '"']
}

/// The separator the encoder emits before the `event_name` field:
/// `,"event_name":"`.
pub open spec fn event_mid() -> Seq<char> {
    seq![',', '"', 'e', 'v', 'e', 'n', 't', '_', 'n', 'a', 'm', 'e', '"', ':', '"']
}

/// How one character is written inside a structured string value: `"`
/// and `\` get a backslash, newline, carriage return and tab become
/// their escape letters, everything else stands for itself.
pub open spec fn json_escape_char(c: char) -> Seq<char> {
    if c == '"' || c == '\\' {
        seq!['\\', c]
    } else if c == '\n' {
        seq!['\\', 'n']
    } else if c == '\r' {
        seq!['\\', 'r']
    } else if c == '\t' {
        seq!['\\', 't']
    } else {
        seq![c]
    }
}

/// The escape letters a backslash may introduce inside a string value.
pub open spec fn is_escape_code(c: char) -> bool {
    c == '"' || c == '\\' || c == 'n' || c == 'r' || c == 't'
}

/// The character an escape letter stands for.
pub open spec fn unescape_char(c: char) -> char {
    if c == 'n' {
        '\n'
    } else if c == 'r' {
        '\r'
    } else if c == 't' {
        '\t'
    } else {
        c
    }
}

/// A whole string value in escaped form.
pub open spec fn json_escape(s: Seq<char>) -> Seq<char>
    decreases s.len(),
{
    if s.len() == 0 {
        Seq::empty()
    } else {
        json_escape_char(s[0]) + json_escape(s.drop_first())
    }
}

/// The structured encoding of a `(msg, event_name)` pair.
pub open spec fn json_encode(msg: Seq<char>, event: Seq<char>) -> Seq<char> {
    msg_open() + json_escape(msg) + seq!['"'] + event_mid() + json_escape(event) + seq!['"', '}']
}

/// Reads one escaped string value up to its unescaped closing quote.
/// Returns the unescaped content and the number of characters consumed,
/// closing quote included.
pub open spec fn scan_string(s: Seq<char>) -> Option<(Seq<char>, int)>
    decreases s.len(),
{
    if s.len() == 0 {
        None
    } else if s[0] == '"' {
        Some((Seq::empty(), 1))
    } else if s[0] == '\\' {
        if s.len() >= 2 && is_escape_code(s[1]) {
            match scan_string(s.skip(2)) {
                Some(p) => Some((seq![unescape_char(s[1])] + p.0, p.1 + 2)),
                None => None,
            }
        } else {
            None
        }
    } else {
        match scan_string(s.drop_first()) {
            Some(p) => Some((seq![s[0]] + p.0, p.1 + 1)),
            None => None,
        }
    }
}

/// The `msg` key with its quotes.
pub open spec fn msg_key() -> Seq<char> {
    seq!['"', 'm', 's', 'g', '"']
}

/// The `event_name` key with its quotes.
pub open spec fn event_key() -> Seq<char> {
    seq!['"', 'e', 'v', 'e', 'n', 't', '_', 'n', 'a', 'm', 'e', '"']
}

/// After a field's key: optional whitespace, `:`, optional whitespace,
/// then a quoted value.  Returns the value and what follows its
/// closing quote.
pub open spec fn parse_value(s: Seq<char>) -> Option<(Seq<char>, Seq<char>)> {
    let t = s.skip(ws_len(s));
    if begins_with(t, seq![':']) {
        let u = t.skip(1);
        let w = u.skip(ws_len(u));
        if begins_with(w, seq!['"']) {
            match scan_string(w.skip(1)) {
                Some(p) => Some((p.0, w.skip(1 + p.1))),
                None => None,
            }
        } else {
            None
        }
    } else {
        None
    }
}

/// After the first field: optional whitespace, `,`, the second field
/// under `key`, the closing brace, and nothing but whitespace after
/// it.
pub open spec fn parse_second(s: Seq<char>, key: Seq<char>) -> Option<Seq<char>> {
    let t = s.skip(ws_len(s));
    if begins_with(t, seq![',']) {
        let u = t.skip(1);
        let w = u.skip(ws_len(u));
        if begins_with(w, key) {
            match parse_value(w.skip(key.len() as int)) {
                Some(p) => {
                    let z = p.1.skip(ws_len(p.1));
                    if begins_with(z, seq!['}']) && all_space(z.skip(1)) {
                        Some(p.0)
                    } else {
                        None
                    }
                },
                None => None,
            }
        } else {
            None
        }
    } else {
        None
    }
}

/// The two fields of the envelope, in either order, as
/// `(msg, event_name)`.
pub open spec fn parse_fields(s: Seq<char>) -> Option<(Seq<char>, Seq<char>)> {
    let t = s.skip(ws_len(s));
    if begins_with(t, msg_key()) {
        match parse_value(t.skip(msg_key().len() as int)) {
            Some(p1) => match parse_second(p1.1, event_key()) {
                Some(v2) => Some((p1.0, v2)),
                None => None,
            },
            None => None,
        }
    } else if begins_with(t, event_key()) {
        match parse_value(t.skip(event_key().len() as int)) {
            Some(p1) => match parse_second(p1.1, msg_key()) {
                Some(v2) => Some((v2, p1.0)),
                None => None,
            },
            None => None,
        }
    } else {
        None
    }
}

/// The structured-form reading of a whole line, as `(msg, event_name)`;
/// `None` when the line is not a two-field object of this shape.
/// Whitespace is allowed around every token.
pub open spec fn parse_envelope(s: Seq<char>) -> Option<(Seq<char>, Seq<char>)> {
    let t = s.skip(ws_len(s));
    if begins_with(t, seq!['{']) {
        parse_fields(t.skip(1))
    } else {
        None
    }
}

/// The string literals used by the executable codec, connected to the
/// spec-level grammar pieces.
proof fn lemma_literals()
    ensures
        "{\"msg\":\""@ == msg_open(),
        "\\\""@ == seq!['\\', '"'],
        "\\\\"@ == seq!['\\', '\\'],
        "\\n"@ == seq!['\\', 'n'],
        "\\r"@ == seq!['\\', 'r'],
        "\\t"@ == seq!['\\', 't'],
        "\",\"event_name\":\""@ == seq!['"'] + event_mid(),
        "\"}"@ == seq!['"', '}'],
        "{"@ == seq!['{'],
        ":"@ == seq![':'],
        ","@ == seq![','],
        "}"@ == seq!['}'],
        "\""@ == seq!['"'],
        "\"msg\""@ == msg_key(),
        "\"event_name\""@ == event_key(),
{
    reveal_strlit("{\"msg\":\"");
    reveal_strlit("\\\"");
    reveal_strlit("\\\\");
    reveal_strlit("\\n");
    reveal_strlit("\\r");
    reveal_strlit("\\t");
    reveal_strlit("\",\"event_name\":\"");
    reveal_strlit("\"}");
    reveal_strlit("{");
    reveal_strlit(":");
    reveal_strlit(",");
    reveal_strlit("}");
    reveal_strlit("\"");
    reveal_strlit("\"msg\"");
    reveal_strlit("\"event_name\"");
    assert("{\"msg\":\""@ =~= msg_open());
    assert("\\\""@ =~= seq!['\\', '"']);
    assert("\\\\"@ =~= seq!['\\', '\\']);
    assert("\\n"@ =~= seq!['\\', 'n']);
    assert("\\r"@ =~= seq!['\\', 'r']);
    assert("\\t"@ =~= seq!['\\', 't']);
    assert("\",\"event_name\":\""@ =~= seq!['"'] + event_mid());
    assert("\"}"@ =~= seq!['"', '}']);
    assert("{"@ =~= seq!['{']);
    assert(":"@ =~= seq![':']);
    assert(","@ =~= seq![',']);
    assert("}"@ =~= seq!['}']);
    assert("\""@ =~= seq!['"']);
    assert("\"msg\""@ =~= msg_key());
    assert("\"event_name\""@ =~= event_key());
}

/// Escaping distributes over appending one character.
proof fn lemma_escape_snoc(t: Seq<char>, c: char)
    ensures
        json_escape(t.push(c)) == json_escape(t) + json_escape_char(c),
    decreases t.len(),
{
    if t.len() == 0 {
        assert(t.push(c).drop_first() =~= Seq::<char>::empty());
        assert(t.push(c)[0] == c);
        assert(json_escape(t.push(c)) == json_escape_char(c) + json_escape(
            t.push(c).drop_first(),
        ));
        assert(json_escape(Seq::<char>::empty()) == Seq::<char>::empty());
        assert(json_escape(t.push(c)) =~= json_escape(t) + json_escape_char(c));
    } else {
        assert(t.push(c)[0] == t[0]);
        assert(t.push(c).drop_first() =~= t.drop_first().push(c));
        lemma_escape_snoc(t.drop_first(), c);
        assert(json_escape(t.push(c)) =~= json_escape(t) + json_escape_char(c));
    }
}

/// Scanning an escaped value finds exactly the original content and
/// stops at the closing quote, whatever follows it.
proof fn lemma_scan_escaped(p: Seq<char>, rest: Seq<char>)
    ensures
        scan_string(json_escape(p) + seq!['"'] + rest) == Some((
            p,
            json_escape(p).len() + 1 as int,
        )),
    decreases p.len(),
{
    let s = json_escape(p) + seq!['"'] + rest;
    if p.len() == 0 {
        assert(json_escape(p) =~= Seq::<char>::empty());
        assert(s[0] == '"');
        assert(p =~= Seq::<char>::empty());
    } else {
        let c = p[0];
        let p1 = p.drop_first();
        let s1 = json_escape(p1) + seq!['"'] + rest;
        lemma_scan_escaped(p1, rest);
        assert(json_escape(p) == json_escape_char(c) + json_escape(p1));
        if c == '"' || c == '\\' || c == '\n' || c == '\r' || c == '\t' {
            assert(s[0] == '\\');
            assert(s.len() >= 2);
            assert(is_escape_code(s[1]));
            assert(unescape_char(s[1]) == c);
            assert(s.skip(2) =~= s1);
            assert(seq![unescape_char(s[1])] + p1 =~= p);
            assert(scan_string(s) == Some((p, json_escape(p1).len() + 1 + 2 as int)));
            assert(json_escape(p).len() == 2 + json_escape(p1).len());
        } else {
            assert(s[0] == c);
            assert(s.drop_first() =~= s1);
            assert(seq![s[0]] + p1 =~= p);
            assert(scan_string(s) == Some((p, json_escape(p1).len() + 1 + 1 as int)));
            assert(json_escape(p).len() == 1 + json_escape(p1).len());
        }
    }
}

/// Round trip through the structured form: a pair with a non-empty
/// event name and no raw newlines encodes and parses back to itself.
#[verifier::rlimit(100)]
pub proof fn lemma_structured_round_trip(msg: Seq<char>, event: Seq<char>)
    requires
        event.len() > 0,
        !msg.contains('\n'),
        !event.contains('\n'),
    ensures
        parse_envelope(json_encode(msg, event)) == Some((msg, event)),
{
    let s = json_encode(msg, event);
    let rest1 = event_mid() + json_escape(event) + seq!['"', '}'];
    let a = msg_key() + seq![':'] + seq!['"'] + json_escape(msg) + seq!['"'] + rest1;
    // The encoding opens with `{`, then the msg field.
    assert(s[0] == '{');
    assert(ws_len(s) == 0);
    assert(s.skip(ws_len(s)) =~= s);
    assert(s.subrange(0, 1) =~= seq!['{']);
    assert(begins_with(s.skip(ws_len(s)), seq!['{']));
    assert(s.skip(ws_len(s)).skip(1) =~= a);
    // The first key is `"msg"`.
    assert(ws_len(a) == 0);
    assert(a.skip(ws_len(a)) =~= a);
    assert(a.subrange(0, msg_key().len() as int) =~= msg_key());
    assert(begins_with(a.skip(ws_len(a)), msg_key()));
    // Its value scans back to `msg`.
    let v = a.skip(ws_len(a)).skip(msg_key().len() as int);
    assert(v =~= seq![':'] + seq!['"'] + json_escape(msg) + seq!['"'] + rest1);
    assert(ws_len(v) == 0);
    assert(v.skip(ws_len(v)) =~= v);
    assert(v.subrange(0, 1) =~= seq![':']);
    assert(begins_with(v.skip(ws_len(v)), seq![':']));
    let u = v.skip(ws_len(v)).skip(1);
    assert(u =~= seq!['"'] + json_escape(msg) + seq!['"'] + rest1);
    assert(ws_len(u) == 0);
    assert(u.skip(ws_len(u)) =~= u);
    assert(u.subrange(0, 1) =~= seq!['"']);
    assert(begins_with(u.skip(ws_len(u)), seq!['"']));
    assert(u.skip(ws_len(u)).skip(1) =~= json_escape(msg) + seq!['"'] + rest1);
    lemma_scan_escaped(msg, rest1);
    let u1 = json_escape(msg).len() + 1 as int;
    assert(u.skip(ws_len(u)).skip(1 + u1) =~= rest1);
    assert(parse_value(v) == Some((msg, u.skip(ws_len(u)).skip(1 + u1))));
    // The second field follows after the comma.
    let r1 = u.skip(ws_len(u)).skip(1 + u1);
    assert(r1 =~= rest1);
    assert(r1[0] == ',');
    assert(ws_len(r1) == 0);
    assert(r1.skip(ws_len(r1)) =~= r1);
    assert(r1.subrange(0, 1) =~= seq![',']);
    assert(begins_with(r1.skip(ws_len(r1)), seq![',']));
    let b = r1.skip(ws_len(r1)).skip(1);
    assert(b =~= event_key() + seq![':'] + seq!['"'] + json_escape(event) + seq!['"', '}']);
    assert(ws_len(b) == 0);
    assert(b.skip(ws_len(b)) =~= b);
    assert(b.subrange(0, event_key().len() as int) =~= event_key());
    assert(begins_with(b.skip(ws_len(b)), event_key()));
    // Its value scans back to `event`.
    let v2 = b.skip(ws_len(b)).skip(event_key().len() as int);
    assert(v2 =~= seq![':'] + seq!['"'] + json_escape(event) + seq!['"', '}']);
    assert(ws_len(v2) == 0);
    assert(v2.skip(ws_len(v2)) =~= v2);
    assert(v2.subrange(0, 1) =~= seq![':']);
    assert(begins_with(v2.skip(ws_len(v2)), seq![':']));
    let u2 = v2.skip(ws_len(v2)).skip(1);
    assert(u2 =~= seq!['"'] + json_escape(event) + seq!['"', '}']);
    assert(ws_len(u2) == 0);
    assert(u2.skip(ws_len(u2)) =~= u2);
    assert(u2.subrange(0, 1) =~= seq!['"']);
    assert(begins_with(u2.skip(ws_len(u2)), seq!['"']));
    assert(u2.skip(ws_len(u2)).skip(1) =~= json_escape(event) + seq!['"'] + seq!['}']);
    lemma_scan_escaped(event, seq!['}']);
    let u3 = json_escape(event).len() + 1 as int;
    assert(u2.skip(ws_len(u2)).skip(1 + u3) =~= seq!['}']);
    assert(parse_value(v2) == Some((event, u2.skip(ws_len(u2)).skip(1 + u3))));
    // Only the closing brace remains.
    let z0 = u2.skip(ws_len(u2)).skip(1 + u3);
    assert(z0 =~= seq!['}']);
    assert(ws_len(z0) == 0);
    assert(z0.skip(ws_len(z0)) =~= z0);
    assert(z0.subrange(0, 1) =~= seq!['}']);
    assert(begins_with(z0.skip(ws_len(z0)), seq!['}']));
    assert(z0.skip(ws_len(z0)).skip(1) =~= Seq::<char>::empty());
    assert(all_space(z0.skip(ws_len(z0)).skip(1)));
    assert(parse_second(r1, event_key()) == Some(event));
    assert(parse_fields(a) == Some((msg, event)));
}

/// Escapes `"` and `\` in a string value.
fn escape_json(s: &str) -> (r: String)
    ensures
        r@ == json_escape(s@),
{
    let n = s.unicode_len();
    let mut out = String::new();
    let mut i: usize = 0;
    while i < n
        invariant
            0 <= i <= n,
            n == s@.len(),
            out@ == json_escape(s@.subrange(0, i as int)),
        decreases n - i,
    {
        let c = s.get_char(i);
        proof {
            lemma_literals();
            lemma_escape_snoc(s@.subrange(0, i as int), s@[i as int]);
            assert(s@.subrange(0, i + 1 as int) =~= s@.subrange(0, i as int).push(s@[i as int]));
        }
        if c == '"' {
            out.append("\\\"");
        } else if c == '\\' {
            out.append("\\\\");
        } else if c == '\n' {
            out.append("\\n");
        } else if c == '\r' {
            out.append("\\r");
        } else if c == '\t' {
            out.append("\\t");
        } else {
            out.append(s.substring_char(i, i + 1));
            proof {
                assert(s@.subrange(i as int, i + 1 as int) =~= seq![s@[i as int]]);
            }
        }
        i = i + 1;
    }
    proof {
        assert(s@.subrange(0, n as int) =~= s@);
    }
    out
}

/// Reads one escaped string value of `s` starting at character
/// position `start`, mirroring [`scan_string`] on `s@.skip(start)`.
fn scan_string_at(s: &str, start: usize) -> (r: Option<(String, usize)>)
    requires
        start <= s@.len(),
    ensures
        match r {
            Some(p) => scan_string(s@.skip(start as int)) == Some((p.0@, p.1 as int)) && start
                + p.1 <= s@.len() && p.1 >= 1,
            None => scan_string(s@.skip(start as int)) is None,
        },
{
    let n = s.unicode_len();
    let mut content = String::new();
    let mut i: usize = start;
    while i < n
        invariant
            start <= i <= n,
            n == s@.len(),
            match scan_string(s@.skip(i as int)) {
                Some(p) => scan_string(s@.skip(start as int)) == Some((
                    content@ + p.0,
                    i - start + p.1,
                )),
                None => scan_string(s@.skip(start as int)) is None,
            },
        decreases n - i,
    {
        let c = s.get_char(i);
        proof {
            assert(s@.skip(i as int)[0] == s@[i as int]);
            assert(s@.skip(i as int).len() == n - i);
        }
        if c == '"' {
            proof {
                assert(scan_string(s@.skip(i as int)) == Some((Seq::<char>::empty(), 1int)));
                assert(content@ + Seq::<char>::empty() =~= content@);
            }
            return Some((content, i + 1 - start));
        }
        if c == '\\' {
            if i + 1 >= n {
                proof {
                    assert(scan_string(s@.skip(i as int)) is None);
                }
                return None;
            }
            let c2 = s.get_char(i + 1);
            proof {
                assert(s@.skip(i as int)[1] == s@[i + 1 as int]);
            }
            if c2 == '"' || c2 == '\\' || c2 == 'n' || c2 == 'r' || c2 == 't' {
                let ghost pre = content@;
                if c2 == 'n' {
                    content.append("\n");
                } else if c2 == 'r' {
                    content.append("\r");
                } else if c2 == 't' {
                    content.append("\t");
                } else {
                    content.append(s.substring_char(i + 1, i + 2));
                }
                proof {
                    reveal_strlit("\n");
                    reveal_strlit("\r");
                    reveal_strlit("\t");
                    assert("\n"@ =~= seq!['\n']);
                    assert("\r"@ =~= seq!['\r']);
                    assert("\t"@ =~= seq!['\t']);
                    assert(s@.subrange(i + 1 as int, i + 2 as int) =~= seq![s@[i + 1 as int]]);
                    assert(content@ == pre + seq![unescape_char(s@[i + 1 as int])]);
                    assert(s@.skip(i as int).skip(2) =~= s@.skip(i + 2 as int));
                    match scan_string(s@.skip(i + 2 as int)) {
                        Some(p) => {
                            assert(scan_string(s@.skip(i as int)) == Some((
                                seq![unescape_char(s@[i + 1 as int])] + p.0,
                                p.1 + 2,
                            )));
                            assert(pre + (seq![unescape_char(s@[i + 1 as int])] + p.0) =~= content@
                                + p.0);
                        },
                        None => {
                            assert(scan_string(s@.skip(i as int)) is None);
                        },
                    }
                }
                i = i + 2;
            } else {
                proof {
                    assert(scan_string(s@.skip(i as int)) is None);
                }
                return None;
            }
        } else {
            let ghost pre = content@;
            content.append(s.substring_char(i, i + 1));
            proof {
                assert(s@.subrange(i as int, i + 1 as int) =~= seq![s@[i as int]]);
                assert(content@ == pre + seq![s@[i as int]]);
                assert(s@.skip(i as int).drop_first() =~= s@.skip(i + 1 as int));
                match scan_string(s@.skip(i + 1 as int)) {
                    Some(p) => {
                        assert(scan_string(s@.skip(i as int)) == Some((
                            seq![s@[i as int]] + p.0,
                            p.1 + 1,
                        )));
                        assert(pre + (seq![s@[i as int]] + p.0) =~= content@ + p.0);
                    },
                    None => {
                        assert(scan_string(s@.skip(i as int)) is None);
                    },
                }
            }
            i = i + 1;
        }
    }
    proof {
        assert(s@.skip(n as int).len() == 0);
        assert(scan_string(s@.skip(n as int)) is None);
    }
    None
}

/// Reads `: "value"` (with optional whitespace) at character position
/// `i` of `s`, mirroring [`parse_value`] on `s@.skip(i)`.  On success
/// the returned position is where the value's closing quote ends.
fn parse_value_at(s: &str, i: usize) -> (r: Option<(String, usize)>)
    requires
        i <= s@.len(),
    ensures
        match r {
            Some(p) => {
                &&& i <= p.1 <= s@.len()
                &&& parse_value(s@.skip(i as int)) == Some((p.0@, s@.skip(p.1 as int)))
            },
            None => parse_value(s@.skip(i as int)) is None,
        },
{
    let n = s.unicode_len();
    let a = skip_ws(s, i);
    proof {
        assert(s@.skip(i as int).skip(ws_len(s@.skip(i as int))) =~= s@.skip(a as int));
    }
    if a == n || s.get_char(a) != ':' {
        proof {
            let t = s@.skip(i as int).skip(ws_len(s@.skip(i as int)));
            if begins_with(t, seq![':']) {
                assert(t.subrange(0, 1)[0] == t[0]);
                assert(t[0] == ':');
                assert(t[0] == s@[a as int]);
            }
        }
        return None;
    }
    proof {
        assert(s@.skip(a as int).subrange(0, 1) =~= seq![s@[a as int]]);
    }
    let b = skip_ws(s, a + 1);
    proof {
        assert(s@.skip(a as int).skip(1) =~= s@.skip(a + 1 as int));
        assert(s@.skip(a + 1 as int).skip(ws_len(s@.skip(a + 1 as int))) =~= s@.skip(b as int));
    }
    if b == n || s.get_char(b) != '"' {
        proof {
            let w = s@.skip(a + 1 as int).skip(ws_len(s@.skip(a + 1 as int)));
            if begins_with(w, seq!['"']) {
                assert(w.subrange(0, 1)[0] == w[0]);
                assert(w[0] == '"');
                assert(w[0] == s@[b as int]);
            }
        }
        return None;
    }
    proof {
        assert(s@.skip(b as int).subrange(0, 1) =~= seq![s@[b as int]]);
        assert(s@.skip(b as int).skip(1) =~= s@.skip(b + 1 as int));
    }
    match scan_string_at(s, b + 1) {
        None => None,
        Some((v, u)) => {
            proof {
                assert(s@.skip(b as int).skip(1 + u as int) =~= s@.skip((b + 1 + u) as int));
            }
            Some((v, b + 1 + u))
        },
    }
}

/// Reads `, "key" : "value" }` (with optional whitespace, and only
/// whitespace after the brace) at character position `i` of `s`,
/// mirroring [`parse_second`] on `s@.skip(i)`.
fn parse_second_at(s: &str, i: usize, key: &str) -> (r: Option<String>)
    requires
        i <= s@.len(),
    ensures
        match r {
            Some(v) => parse_second(s@.skip(i as int), key@) == Some(v@),
            None => parse_second(s@.skip(i as int), key@) is None,
        },
{
    let n = s.unicode_len();
    let a = skip_ws(s, i);
    proof {
        assert(s@.skip(i as int).skip(ws_len(s@.skip(i as int))) =~= s@.skip(a as int));
    }
    if a == n || s.get_char(a) != ',' {
        proof {
            let t = s@.skip(i as int).skip(ws_len(s@.skip(i as int)));
            if begins_with(t, seq![',']) {
                assert(t.subrange(0, 1)[0] == t[0]);
                assert(t[0] == ',');
                assert(t[0] == s@[a as int]);
            }
        }
        return None;
    }
    proof {
        assert(s@.skip(a as int).subrange(0, 1) =~= seq![s@[a as int]]);
    }
    let b = skip_ws(s, a + 1);
    proof {
        assert(s@.skip(a as int).skip(1) =~= s@.skip(a + 1 as int));
        assert(s@.skip(a + 1 as int).skip(ws_len(s@.skip(a + 1 as int))) =~= s@.skip(b as int));
    }
    if !starts_with_at(s, b, key) {
        return None;
    }
    let klen = key.unicode_len();
    proof {
        assert(s@.skip(b as int).skip(klen as int) =~= s@.skip((b + klen) as int));
    }
    match parse_value_at(s, b + klen) {
        None => None,
        Some((v, q)) => {
            let c = skip_ws(s, q);
            proof {
                assert(s@.skip(q as int).skip(ws_len(s@.skip(q as int))) =~= s@.skip(c as int));
            }
            if c == n || s.get_char(c) != '}' {
                proof {
                    let z = s@.skip(q as int).skip(ws_len(s@.skip(q as int)));
                    if begins_with(z, seq!['}']) {
                        assert(z.subrange(0, 1)[0] == z[0]);
                        assert(z[0] == '}');
                        assert(z[0] == s@[c as int]);
                    }
                }
                return None;
            }
            proof {
                assert(s@.skip(c as int).subrange(0, 1) =~= seq![s@[c as int]]);
                assert(s@.skip(c as int).skip(1) =~= s@.skip(c + 1 as int));
            }
            let d = skip_ws(s, c + 1);
            if d == n {
                proof {
                    let tail = s@.skip(c + 1 as int);
                    lemma_ws_len(tail);
                    assert(ws_len(tail) == tail.len());
                    assert(all_space(tail));
                }
                Some(v)
            } else {
                proof {
                    let tail = s@.skip(c + 1 as int);
                    assert(!is_space(s@[d as int]));
                    assert(tail[d - (c + 1)] == s@[d as int]);
                    assert(!all_space(tail));
                }
                None
            }
        },
    }
}

impl EventMessage {
    /// Serializes the message in the structured form, `msg` field
    /// first; never fails.  `"`, `\`, newline, carriage return and tab
    /// are escaped; other control characters are written verbatim,
    /// which the line-delimited transport does not produce.
    pub fn to_json(&self) -> (r: Result<String, TransportError>)
        ensures
            r matches Ok(s) && s@ == json_encode(self.msg@, self.event_name@),
    {
        proof {
            lemma_literals();
        }
        let esc_m = escape_json(self.msg.as_str());
        let esc_e = escape_json(self.event_name.as_str());
        let mut out = String::from_str("{\"msg\":\"");
        out.append(esc_m.as_str());
        out.append("\",\"event_name\":\"");
        out.append(esc_e.as_str());
        out.append("\"}");
        proof {
            assert(out@ =~= json_encode(self.msg@, self.event_name@));
        }
        Ok(out)
    }

    /// Parses the structured form: an object with string fields `msg`
    /// and `event_name` in either order, whitespace allowed around
    /// tokens, with the `\"`, `\\`, `\n`, `\r` and `\t` escapes.
    /// Other escapes and extra fields are outside the grammar and fail
    /// the parse (the full decoder then falls back to the simple
    /// form).
    pub fn from_json(json: &str) -> (r: Result<EventMessage, TransportError>)
        ensures
            match parse_envelope(json@) {
                Some(p) => r matches Ok(m) && m.msg@ == p.0 && m.event_name@ == p.1,
                None => r matches Err(TransportError::Decode(d)) && d@
                    == "structured decode failed"@,
            },
    {
        proof {
            lemma_literals();
            assert(json@.skip(0) =~= json@);
        }
        let n = json.unicode_len();
        let p0 = skip_ws(json, 0);
        proof {
            assert(json@.skip(ws_len(json@)) =~= json@.skip(p0 as int));
        }
        if p0 == n || json.get_char(p0) != '{' {
            proof {
                let t = json@.skip(ws_len(json@));
                if begins_with(t, seq!['{']) {
                    assert(t.subrange(0, 1)[0] == t[0]);
                    assert(t[0] == '{');
                    assert(t[0] == json@[p0 as int]);
                }
            }
            return Err(TransportError::Decode(String::from_str("structured decode failed")));
        }
        proof {
            assert(json@.skip(p0 as int).subrange(0, 1) =~= seq![json@[p0 as int]]);
            assert(json@.skip(p0 as int).skip(1) =~= json@.skip(p0 + 1 as int));
        }
        let p1 = skip_ws(json, p0 + 1);
        proof {
            assert(json@.skip(p0 + 1 as int).skip(ws_len(json@.skip(p0 + 1 as int))) =~= json@
                .skip(p1 as int));
        }
        let first_msg = starts_with_at(json, p1, "\"msg\"");
        let first_event = if first_msg {
            false
        } else {
            starts_with_at(json, p1, "\"event_name\"")
        };
        if !first_msg && !first_event {
            return Err(TransportError::Decode(String::from_str("structured decode failed")));
        }
        let key_len: usize = if first_msg {
            5
        } else {
            12
        };
        proof {
            assert(msg_key().len() == 5);
            assert(event_key().len() == 12);
            assert(p1 + key_len <= n);
            assert(json@.skip(p1 as int).skip(key_len as int) =~= json@.skip(
                (p1 + key_len) as int,
            ));
        }
        let first = parse_value_at(json, p1 + key_len);
        match first {
            None => Err(TransportError::Decode(String::from_str("structured decode failed"))),
            Some((v1, q1)) => {
                let second = if first_msg {
                    parse_second_at(json, q1, "\"event_name\"")
                } else {
                    parse_second_at(json, q1, "\"msg\"")
                };
                match second {
                    None => Err(
                        TransportError::Decode(String::from_str("structured decode failed")),
                    ),
                    Some(v2) => {
                        if first_msg {
                            Ok(EventMessage { msg: v1, event_name: v2 })
                        } else {
                            Ok(EventMessage { msg: v2, event_name: v1 })
                        }
                    },
                }
            },
        }
    }

    /// Decodes one inbound line; total.  The structured form is tried
    /// first; a line that fails it is read in the simple form.
    pub fn decode(raw: &str) -> (r: EventMessage)
        ensures
            match parse_envelope(raw@) {
                Some(p) => r.msg@ == p.0 && r.event_name@ == p.1,
                None => r.msg@ == simple_decode(raw@).0 && r.event_name@ == simple_decode(raw@).1,
            },
            parse_envelope(raw@) is None ==> r.event_name@.len() > 0,
    {
        match Self::from_json(raw) {
            Ok(m) => m,
            Err(_) => Self::from_simple_format(raw),
        }
    }
}

} // verus!
