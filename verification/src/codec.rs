//! Wire codec for chat messages.
//!
//! A message travels the mesh as a compact self-describing record with the
//! fields `id`, `sender`, `content`, `timestamp` and `message_type`, in JSON
//! syntax. `serialize_message` produces exactly the canonical encoding given
//! by `spec_serialize`; `deserialize_message` accepts exactly the canonical
//! encodings and inverts it, so every message round-trips field for field.

use vstd::prelude::*;

use crate::types::{ChatMessage, ChatMessageView, MessageType, MessageTypeView};

verus! {

/// The hexadecimal digit character for a value below 16, lower case.
pub open spec fn hex_digit_char(v: nat) -> char {
    if v == 0 {
        '0'
    } else if v == 1 {
        '1'
    } else if v == 2 {
        '2'
    } else if v == 3 {
        '3'
    } else if v == 4 {
        '4'
    } else if v == 5 {
        '5'
    } else if v == 6 {
        '6'
    } else if v == 7 {
        '7'
    } else if v == 8 {
        '8'
    } else if v == 9 {
        '9'
    } else if v == 10 {
        'a'
    } else if v == 11 {
        'b'
    } else if v == 12 {
        'c'
    } else if v == 13 {
        'd'
    } else if v == 14 {
        'e'
    } else {
        'f'
    }
}

/// How one character appears inside a JSON string: quote, backslash and the
/// named control characters take a two-character escape, other control
/// characters a `\u00XX` escape, everything else stands as itself.
pub open spec fn spec_escape_char(c: char) -> Seq<char> {
    if c == '"' {
        seq!['\\', '"']
    } else if c == '\\' {
        seq!['\\', '\\']
    } else if c == '\u{8}' {
        seq!['\\', 'b']
    } else if c == '\u{9}' {
        seq!['\\', 't']
    } else if c == '\u{a}' {
        seq!['\\', 'n']
    } else if c == '\u{c}' {
        seq!['\\', 'f']
    } else if c == '\u{d}' {
        seq!['\\', 'r']
    } else if (c as u32) < 32 {
        seq!['\\', 'u', '0', '0', hex_digit_char((c as u32 / 16) as nat), hex_digit_char(
            (c as u32 % 16) as nat,
        )]
    } else {
        seq![c]
    }
}

/// The body of a JSON string holding the characters of `s`.
pub open spec fn spec_escape(s: Seq<char>) -> Seq<char>
    decreases s.len(),
{
    if s.len() == 0 {
        Seq::empty()
    } else {
        spec_escape_char(s[0]) + spec_escape(s.drop_first())
    }
}

/// The decimal digits of `n`, most significant first, no leading zero.
pub open spec fn spec_dec(n: nat) -> Seq<char>
    decreases n,
{
    if n < 10 {
        seq![hex_digit_char(n)]
    } else {
        spec_dec(n / 10).push(hex_digit_char(n % 10))
    }
}

/// The JSON encoding of a message type: a bare string for a broadcast, a
/// one-field record for a direct message.
pub open spec fn spec_message_type_json(t: MessageTypeView) -> Seq<char> {
    match t {
        MessageTypeView::Broadcast => "\"Broadcast\""@,
        MessageTypeView::Direct { target_peer_id } => "{\"Direct\":{\"target_peer_id\":\""@
            + spec_escape(target_peer_id) + "\"}}"@,
    }
}

/// The canonical wire encoding of a chat message.
pub open spec fn spec_serialize(m: ChatMessageView) -> Seq<char> {
    "{\"id\":\""@ + spec_escape(m.id) + "\",\"sender\":\""@ + spec_escape(m.sender)
        + "\",\"content\":\""@ + spec_escape(m.content) + "\",\"timestamp\":"@ + spec_dec(
        m.timestamp as nat,
    ) + ",\"message_type\":"@ + spec_message_type_json(m.message_type) + "}"@
}

/// Escaping one character, then a tail, is escaping their concatenation.
pub proof fn lemma_escape_append(a: Seq<char>, b: Seq<char>)
    ensures
        spec_escape(a + b) == spec_escape(a) + spec_escape(b),
    decreases a.len(),
{
    if a.len() == 0 {
        assert(a + b =~= b);
        assert(spec_escape(a) + spec_escape(b) =~= spec_escape(b));
    } else {
        assert((a + b).drop_first() =~= a.drop_first() + b);
        assert((a + b)[0] == a[0]);
        assert((a + b).len() > 0);
        lemma_escape_append(a.drop_first(), b);
        assert(spec_escape(a + b) =~= spec_escape(a) + spec_escape(b));
    }
}

/// A single character escapes to exactly its escape sequence.
pub proof fn lemma_escape_singleton(c: char)
    ensures
        spec_escape(seq![c]) == spec_escape_char(c),
{
    let s = seq![c];
    assert(s.len() == 1 && s[0] == c);
    assert(s.drop_first() =~= Seq::<char>::empty());
    assert(spec_escape(s) == spec_escape_char(c) + spec_escape(Seq::<char>::empty()));
    assert(spec_escape_char(c) + Seq::<char>::empty() =~= spec_escape_char(c));
}

/// The hexadecimal digit character of a value below 10, as an executable
/// function.
fn hex_digit(v: u32) -> (c: char)
    requires
        v < 16,
    ensures
        c == hex_digit_char(v as nat),
{
    match v {
        0 => '0',
        1 => '1',
        2 => '2',
        3 => '3',
        4 => '4',
        5 => '5',
        6 => '6',
        7 => '7',
        8 => '8',
        9 => '9',
        10 => 'a',
        11 => 'b',
        12 => 'c',
        13 => 'd',
        14 => 'e',
        _ => 'f',
    }
}

/// Append the characters of `lit` to `out`.
fn push_str_chars(out: &mut Vec<char>, lit: &str)
    ensures
        final(out)@ == old(out)@ + lit@,
{
    let n = lit.unicode_len();
    let mut i: usize = 0;
    while i < n
        invariant
            n == lit@.len(),
            i <= n,
            out@ == old(out)@ + lit@.subrange(0, i as int),
        decreases n - i,
    {
        let c = lit.get_char(i);
        out.push(c);
        proof {
            assert(lit@.subrange(0, i + 1 as int) =~= lit@.subrange(0, i as int).push(lit@[i as int]));
            assert(out@ =~= old(out)@ + lit@.subrange(0, i + 1 as int));
        }
        i = i + 1;
    }
    proof {
        assert(lit@.subrange(0, n as int) =~= lit@);
        assert(out@ =~= old(out)@ + lit@);
    }
}

/// Append the escape sequence of one character to `out`.
fn push_escaped_char(out: &mut Vec<char>, c: char)
    ensures
        final(out)@ == old(out)@ + spec_escape_char(c),
{
    let u = c as u32;
    if c == '"' {
        out.push('\\');
        out.push('"');
        assert(out@ =~= old(out)@ + spec_escape_char(c));
    } else if c == '\\' {
        out.push('\\');
        out.push('\\');
        assert(out@ =~= old(out)@ + spec_escape_char(c));
    } else if c == '\u{8}' {
        out.push('\\');
        out.push('b');
        assert(out@ =~= old(out)@ + spec_escape_char(c));
    } else if c == '\u{9}' {
        out.push('\\');
        out.push('t');
        assert(out@ =~= old(out)@ + spec_escape_char(c));
    } else if c == '\u{a}' {
        out.push('\\');
        out.push('n');
        assert(out@ =~= old(out)@ + spec_escape_char(c));
    } else if c == '\u{c}' {
        out.push('\\');
        out.push('f');
        assert(out@ =~= old(out)@ + spec_escape_char(c));
    } else if c == '\u{d}' {
        out.push('\\');
        out.push('r');
        assert(out@ =~= old(out)@ + spec_escape_char(c));
    } else if u < 32 {
        out.push('\\');
        out.push('u');
        out.push('0');
        out.push('0');
        out.push(hex_digit(u / 16));
        out.push(hex_digit(u % 16));
        assert(out@ =~= old(out)@ + spec_escape_char(c));
    } else {
        out.push(c);
        assert(out@ =~= old(out)@ + spec_escape_char(c));
    }
}

/// Append the escaped form of the whole string `s` to `out`.
fn push_escaped(out: &mut Vec<char>, s: &str)
    ensures
        final(out)@ == old(out)@ + spec_escape(s@),
{
    let n = s.unicode_len();
    let mut i: usize = 0;
    while i < n
        invariant
            n == s@.len(),
            i <= n,
            out@ == old(out)@ + spec_escape(s@.subrange(0, i as int)),
        decreases n - i,
    {
        let c = s.get_char(i);
        push_escaped_char(out, c);
        proof {
            assert(s@.subrange(0, i + 1 as int) =~= s@.subrange(0, i as int) + seq![s@[i as int]]);
            lemma_escape_append(s@.subrange(0, i as int), seq![s@[i as int]]);
            lemma_escape_singleton(s@[i as int]);
            assert(out@ =~= old(out)@ + spec_escape(s@.subrange(0, i + 1 as int)));
        }
        i = i + 1;
    }
    proof {
        assert(s@.subrange(0, n as int) =~= s@);
    }
}

/// Append the decimal digits of `n` to `out`.
fn push_dec(out: &mut Vec<char>, n: u64)
    ensures
        final(out)@ == old(out)@ + spec_dec(n as nat),
    decreases n,
{
    if n < 10 {
        out.push(hex_digit(n as u32));
        assert(out@ =~= old(out)@ + spec_dec(n as nat));
    } else {
        push_dec(out, n / 10);
        out.push(hex_digit((n % 10) as u32));
        assert(out@ =~= old(out)@ + spec_dec(n as nat));
    }
}

/// Relies on `String: FromIterator<char>`: collecting characters yields the
/// string holding exactly those characters in order.
#[verifier::external_body]
pub(crate) fn string_from_chars(v: &Vec<char>) -> (r: String)
    ensures
        r@ == v@,
{
    v.iter().collect()
}

/// Serialize a chat message into its canonical wire encoding.
pub fn serialize_message(m: &ChatMessage) -> (r: String)
    ensures
        r@ == spec_serialize(m@),
{
    let mut out: Vec<char> = Vec::new();
    push_str_chars(&mut out, "{\"id\":\"");
    push_escaped(&mut out, m.id.as_str());
    push_str_chars(&mut out, "\",\"sender\":\"");
    push_escaped(&mut out, m.sender.as_str());
    push_str_chars(&mut out, "\",\"content\":\"");
    push_escaped(&mut out, m.content.as_str());
    push_str_chars(&mut out, "\",\"timestamp\":");
    push_dec(&mut out, m.timestamp);
    push_str_chars(&mut out, ",\"message_type\":");
    match &m.message_type {
        MessageType::Broadcast => {
            push_str_chars(&mut out, "\"Broadcast\"");
        },
        MessageType::Direct { target_peer_id } => {
            push_str_chars(&mut out, "{\"Direct\":{\"target_peer_id\":\"");
            push_escaped(&mut out, target_peer_id.as_str());
            push_str_chars(&mut out, "\"}}");
        },
    }
    push_str_chars(&mut out, "}");
    assert(out@ =~= spec_serialize(m@));
    string_from_chars(&out)
}

/// A decimal digit character.
pub open spec fn is_dec_digit(c: char) -> bool {
    48 <= c as u32 && c as u32 <= 57
}

/// The value of a decimal digit character.
pub open spec fn dec_digit_val(c: char) -> nat {
    (c as u32 - 48) as nat
}

/// A lower-case hexadecimal digit character.
pub open spec fn is_hex_digit(c: char) -> bool {
    is_dec_digit(c) || (97 <= c as u32 && c as u32 <= 102)
}

/// The value of a lower-case hexadecimal digit character.
pub open spec fn hex_digit_val(c: char) -> nat {
    if is_dec_digit(c) {
        (c as u32 - 48) as nat
    } else {
        (c as u32 - 87) as nat
    }
}

/// The character a short escape (the letter after the backslash) stands for.
pub open spec fn short_escape_char(e: char) -> char {
    if e == '"' {
        '"'
    } else if e == '\\' {
        '\\'
    } else if e == 'b' {
        '\u{8}'
    } else if e == 't' {
        '\u{9}'
    } else if e == 'n' {
        '\u{a}'
    } else if e == 'f' {
        '\u{c}'
    } else {
        '\u{d}'
    }
}

/// Whether the letter after a backslash names a one-character escape.
pub open spec fn is_short_escape(e: char) -> bool {
    e == '"' || e == '\\' || e == 'b' || e == 't' || e == 'n' || e == 'f' || e == 'r'
}

/// Parsing the exact literal `lit` at position `i`: the position after it,
/// or nothing if `s` does not carry `lit` there.
pub open spec fn spec_parse_lit(s: Seq<char>, i: int, lit: Seq<char>) -> Option<int> {
    if 0 <= i && i + lit.len() <= s.len() && s.subrange(i, i + lit.len()) == lit {
        Some(i + lit.len())
    } else {
        None
    }
}

/// Parsing a JSON string body from position `i` up to and over its closing
/// quote: the characters it denotes and the position after the quote.
pub open spec fn spec_parse_string(s: Seq<char>, i: int) -> Option<(Seq<char>, int)>
    decreases s.len() - i,
{
    if i < 0 || i >= s.len() {
        None
    } else if s[i] == '"' {
        Some((Seq::empty(), i + 1))
    } else if s[i] == '\\' {
        if i + 1 >= s.len() {
            None
        } else {
            let e = s[i + 1];
            if is_short_escape(e) {
                match spec_parse_string(s, i + 2) {
                    Some(r) => Some((seq![short_escape_char(e)] + r.0, r.1)),
                    None => None,
                }
            } else if e == 'u' {
                if i + 6 <= s.len() && s[i + 2] == '0' && s[i + 3] == '0' && is_hex_digit(
                    s[i + 4],
                ) && is_hex_digit(s[i + 5]) && hex_digit_val(s[i + 4]) * 16 + hex_digit_val(
                    s[i + 5],
                ) < 32 {
                    let c = ((hex_digit_val(s[i + 4]) * 16 + hex_digit_val(s[i + 5])) as u32) as char;
                    match spec_parse_string(s, i + 6) {
                        Some(r) => Some((seq![c] + r.0, r.1)),
                        None => None,
                    }
                } else {
                    None
                }
            } else {
                None
            }
        }
    } else if s[i] as u32 >= 32 {
        match spec_parse_string(s, i + 1) {
            Some(r) => Some((seq![s[i]] + r.0, r.1)),
            None => None,
        }
    } else {
        None
    }
}

/// Parsing a run of decimal digits left to right into `acc`, refusing a
/// value above `u64::MAX`: the value and the position after the run.
pub open spec fn spec_parse_digits(s: Seq<char>, i: int, acc: u64) -> Option<(u64, int)>
    decreases s.len() - i,
{
    if 0 <= i && i < s.len() && is_dec_digit(s[i]) {
        if acc <= (u64::MAX - dec_digit_val(s[i])) / 10 {
            spec_parse_digits(s, i + 1, (acc * 10 + dec_digit_val(s[i])) as u64)
        } else {
            None
        }
    } else {
        Some((acc, i))
    }
}

/// Parsing a canonical decimal number at position `i`: no leading zero, at
/// least one digit, value within `u64`.
pub open spec fn spec_parse_u64(s: Seq<char>, i: int) -> Option<(u64, int)> {
    if 0 <= i && i < s.len() && is_dec_digit(s[i]) {
        if s[i] == '0' {
            if i + 1 < s.len() && is_dec_digit(s[i + 1]) {
                None
            } else {
                Some((0, i + 1))
            }
        } else {
            spec_parse_digits(s, i, 0)
        }
    } else {
        None
    }
}

/// Parsing the JSON encoding of a message type at position `i`.
pub open spec fn spec_parse_message_type(s: Seq<char>, i: int) -> Option<(MessageTypeView, int)> {
    match spec_parse_lit(s, i, "\"Broadcast\""@) {
        Some(j) => Some((MessageTypeView::Broadcast, j)),
        None => match spec_parse_lit(s, i, "{\"Direct\":{\"target_peer_id\":\""@) {
            Some(j) => match spec_parse_string(s, j) {
                Some(r) => match spec_parse_lit(s, r.1, "}}"@) {
                    Some(k) => Some((MessageTypeView::Direct { target_peer_id: r.0 }, k)),
                    None => None,
                },
                None => None,
            },
            None => None,
        },
    }
}

/// The message a character sequence denotes, if it is a canonical wire
/// encoding read in full; nothing otherwise.
pub open spec fn spec_deserialize(s: Seq<char>) -> Option<ChatMessageView> {
    match spec_parse_lit(s, 0, "{\"id\":\""@) {
        Some(p1) => match spec_parse_string(s, p1) {
            Some(rid) => match spec_parse_lit(s, rid.1, ",\"sender\":\""@) {
                Some(p3) => match spec_parse_string(s, p3) {
                    Some(rsender) => match spec_parse_lit(s, rsender.1, ",\"content\":\""@) {
                        Some(p5) => match spec_parse_string(s, p5) {
                            Some(rcontent) => match spec_parse_lit(
                                s,
                                rcontent.1,
                                ",\"timestamp\":"@,
                            ) {
                                Some(p7) => match spec_parse_u64(s, p7) {
                                    Some(rts) => match spec_parse_lit(
                                        s,
                                        rts.1,
                                        ",\"message_type\":"@,
                                    ) {
                                        Some(p9) => match spec_parse_message_type(s, p9) {
                                            Some(rmt) => match spec_parse_lit(s, rmt.1, "}"@) {
                                                Some(p11) => if p11 == s.len() {
                                                    Some(
                                                        ChatMessageView {
                                                            id: rid.0,
                                                            sender: rsender.0,
                                                            content: rcontent.0,
                                                            timestamp: rts.0,
                                                            message_type: rmt.0,
                                                        },
                                                    )
                                                } else {
                                                    None
                                                },
                                                None => None,
                                            },
                                            None => None,
                                        },
                                        None => None,
                                    },
                                    None => None,
                                },
                                None => None,
                            },
                            None => None,
                        },
                        None => None,
                    },
                    None => None,
                },
                None => None,
            },
            None => None,
        },
        None => None,
    }
}

/// The characters of `s`, as a vector.
pub(crate) fn str_to_chars(s: &str) -> (v: Vec<char>)
    ensures
        v@ == s@,
{
    let n = s.unicode_len();
    let mut v: Vec<char> = Vec::new();
    let mut i: usize = 0;
    while i < n
        invariant
            n == s@.len(),
            i <= n,
            v@ == s@.subrange(0, i as int),
        decreases n - i,
    {
        v.push(s.get_char(i));
        proof {
            assert(s@.subrange(0, i + 1 as int) =~= s@.subrange(0, i as int).push(s@[i as int]));
        }
        i = i + 1;
    }
    proof {
        assert(s@.subrange(0, n as int) =~= s@);
    }
    v
}

/// Try to read the exact literal `lit` at position `i` of `v`.
fn parse_lit_at(v: &Vec<char>, i: usize, lit: &str) -> (r: Option<usize>)
    ensures
        r is Some <==> spec_parse_lit(v@, i as int, lit@) is Some,
        r is Some ==> r->Some_0 as int == spec_parse_lit(v@, i as int, lit@)->Some_0,
{
    let n = lit.unicode_len();
    let vlen = v.len();
    if i > vlen || vlen - i < n {
        assert(spec_parse_lit(v@, i as int, lit@) is None);
        return None;
    }
    let mut k: usize = 0;
    while k < n
        invariant
            n == lit@.len(),
            vlen == v@.len(),
            i + n <= vlen,
            k <= n,
            forall|j: int| 0 <= j < k ==> v@[i + j] == lit@[j],
        decreases n - k,
    {
        if v[i + k] != lit.get_char(k) {
            proof {
                assert(v@.subrange(i as int, i + n as int)[k as int] != lit@[k as int]);
                assert(v@.subrange(i as int, i + n as int) != lit@);
            }
            return None;
        }
        k = k + 1;
    }
    proof {
        assert(v@.subrange(i as int, i + n as int) =~= lit@);
    }
    Some(i + n)
}

/// The control character with the given scalar value.
fn control_char(u: u32) -> (c: char)
    requires
        u < 32,
    ensures
        c as u32 == u,
{
    match u {
        0 => '\u{0}',
        1 => '\u{1}',
        2 => '\u{2}',
        3 => '\u{3}',
        4 => '\u{4}',
        5 => '\u{5}',
        6 => '\u{6}',
        7 => '\u{7}',
        8 => '\u{8}',
        9 => '\u{9}',
        10 => '\u{a}',
        11 => '\u{b}',
        12 => '\u{c}',
        13 => '\u{d}',
        14 => '\u{e}',
        15 => '\u{f}',
        16 => '\u{10}',
        17 => '\u{11}',
        18 => '\u{12}',
        19 => '\u{13}',
        20 => '\u{14}',
        21 => '\u{15}',
        22 => '\u{16}',
        23 => '\u{17}',
        24 => '\u{18}',
        25 => '\u{19}',
        26 => '\u{1a}',
        27 => '\u{1b}',
        28 => '\u{1c}',
        29 => '\u{1d}',
        30 => '\u{1e}',
        _ => '\u{1f}',
    }
}

/// The value of a lower-case hexadecimal digit character.
fn hex_val(c: char) -> (r: u32)
    requires
        is_hex_digit(c),
    ensures
        r as nat == hex_digit_val(c),
        r < 16,
{
    let u = c as u32;
    if u <= 57 {
        u - 48
    } else {
        u - 87
    }
}

/// Try to read a JSON string body at position `i` of `v`, up to and over its
/// closing quote.
fn parse_string_at(v: &Vec<char>, i: usize) -> (r: Option<(Vec<char>, usize)>)
    ensures
        r is Some <==> spec_parse_string(v@, i as int) is Some,
        r is Some ==> (r->Some_0).0@ == spec_parse_string(v@, i as int)->Some_0.0 && (
        r->Some_0).1 as int == spec_parse_string(v@, i as int)->Some_0.1,
    decreases v@.len() - i,
{
    if i >= v.len() {
        return None;
    }
    let c = v[i];
    if c == '"' {
        let empty: Vec<char> = Vec::new();
        return Some((empty, i + 1));
    }
    if c == '\\' {
        if v.len() - i < 2 {
            return None;
        }
        let e = v[i + 1];
        if e == '"' || e == '\\' || e == 'b' || e == 't' || e == 'n' || e == 'f' || e == 'r' {
            let c2: char = if e == '"' {
                '"'
            } else if e == '\\' {
                '\\'
            } else if e == 'b' {
                '\u{8}'
            } else if e == 't' {
                '\u{9}'
            } else if e == 'n' {
                '\u{a}'
            } else if e == 'f' {
                '\u{c}'
            } else {
                '\u{d}'
            };
            assert(c2 == short_escape_char(e));
            match parse_string_at(v, i + 2) {
                Some((t, j)) => {
                    let mut t = t;
                    t.insert(0, c2);
                    proof {
                        assert(t@ =~= seq![short_escape_char(e)]
                            + spec_parse_string(v@, i + 2 as int)->Some_0.0);
                    }
                    Some((t, j))
                },
                None => None,
            }
        } else if e == 'u' {
            if v.len() - i >= 6 {
                let d1 = v[i + 2];
                let d2 = v[i + 3];
                let h1 = v[i + 4];
                let h2 = v[i + 5];
                let h1u = h1 as u32;
                let h2u = h2 as u32;
                let h1_ok = (48 <= h1u && h1u <= 57) || (97 <= h1u && h1u <= 102);
                let h2_ok = (48 <= h2u && h2u <= 57) || (97 <= h2u && h2u <= 102);
                if d1 == '0' && d2 == '0' && h1_ok && h2_ok {
                    let val = hex_val(h1) * 16 + hex_val(h2);
                    if val < 32 {
                        let c2 = control_char(val);
                        proof {
                            vstd::utf8::char_u32_cast(c2, val);
                        }
                        match parse_string_at(v, i + 6) {
                            Some((t, j)) => {
                                let mut t = t;
                                t.insert(0, c2);
                                proof {
                                    assert(t@ =~= seq![((hex_digit_val(v@[i + 4]) * 16
                                        + hex_digit_val(v@[i + 5])) as u32) as char]
                                        + spec_parse_string(v@, i + 6 as int)->Some_0.0);
                                }
                                Some((t, j))
                            },
                            None => None,
                        }
                    } else {
                        None
                    }
                } else {
                    None
                }
            } else {
                None
            }
        } else {
            None
        }
    } else if c as u32 >= 32 {
        match parse_string_at(v, i + 1) {
            Some((t, j)) => {
                let mut t = t;
                t.insert(0, c);
                proof {
                    assert(t@ =~= seq![v@[i as int]] + spec_parse_string(
                        v@,
                        i + 1 as int,
                    )->Some_0.0);
                }
                Some((t, j))
            },
            None => None,
        }
    } else {
        None
    }
}

/// Try to read a run of decimal digits at position `i` of `v`, folding them
/// into `acc` and refusing a value above `u64::MAX`.
fn parse_digits_at(v: &Vec<char>, i: usize, acc: u64) -> (r: Option<(u64, usize)>)
    ensures
        r is Some <==> spec_parse_digits(v@, i as int, acc) is Some,
        r is Some ==> (r->Some_0).0 == spec_parse_digits(v@, i as int, acc)->Some_0.0 && (
        r->Some_0).1 as int == spec_parse_digits(v@, i as int, acc)->Some_0.1,
    decreases v@.len() - i,
{
    if i >= v.len() {
        return Some((acc, i));
    }
    let u = v[i] as u32;
    if 48 <= u && u <= 57 {
        let d = (u - 48) as u64;
        if acc <= (u64::MAX - d) / 10 {
            proof {
                assert(acc * 10 + d <= u64::MAX) by (nonlinear_arith)
                    requires
                        acc <= (u64::MAX - d) / 10,
                        d <= 9,
                ;
            }
            parse_digits_at(v, i + 1, acc * 10 + d)
        } else {
            None
        }
    } else {
        Some((acc, i))
    }
}

/// Try to read a canonical decimal `u64` at position `i` of `v`.
fn parse_u64_at(v: &Vec<char>, i: usize) -> (r: Option<(u64, usize)>)
    ensures
        r is Some <==> spec_parse_u64(v@, i as int) is Some,
        r is Some ==> (r->Some_0).0 == spec_parse_u64(v@, i as int)->Some_0.0 && (
        r->Some_0).1 as int == spec_parse_u64(v@, i as int)->Some_0.1,
{
    if i >= v.len() {
        return None;
    }
    let u = v[i] as u32;
    proof {
        vstd::utf8::char_u32_cast(v@[i as int], v@[i as int] as u32);
        vstd::utf8::char_u32_cast('0', '0' as u32);
        assert('0' as u32 == 48);
    }
    if !(48 <= u && u <= 57) {
        return None;
    }
    if u == 48 {
        assert(v@[i as int] == '0');
        if i + 1 < v.len() {
            let u2 = v[i + 1] as u32;
            if 48 <= u2 && u2 <= 57 {
                return None;
            }
        }
        Some((0, i + 1))
    } else {
        assert(v@[i as int] != '0');
        parse_digits_at(v, i, 0)
    }
}

/// Try to read the JSON encoding of a message type at position `i` of `v`.
fn parse_message_type_at(v: &Vec<char>, i: usize) -> (r: Option<(MessageType, usize)>)
    ensures
        r is Some <==> spec_parse_message_type(v@, i as int) is Some,
        r is Some ==> (r->Some_0).0@ == spec_parse_message_type(v@, i as int)->Some_0.0 && (
        r->Some_0).1 as int == spec_parse_message_type(v@, i as int)->Some_0.1,
{
    match parse_lit_at(v, i, "\"Broadcast\"") {
        Some(j) => Some((MessageType::Broadcast, j)),
        None => {
            match parse_lit_at(v, i, "{\"Direct\":{\"target_peer_id\":\"") {
                Some(j) => {
                    match parse_string_at(v, j) {
                        Some((t, k)) => {
                            match parse_lit_at(v, k, "}}") {
                                Some(l) => {
                                    let target = string_from_chars(&t);
                                    Some((MessageType::Direct { target_peer_id: target }, l))
                                },
                                None => None,
                            }
                        },
                        None => None,
                    }
                },
                None => None,
            }
        },
    }
}

/// Deserialize a wire payload. Returns the message it canonically encodes,
/// or nothing for any other input (such input is noise to be dropped).
pub fn deserialize_message(s: &str) -> (r: Option<ChatMessage>)
    ensures
        r is Some <==> spec_deserialize(s@) is Some,
        r is Some ==> r->Some_0@ == spec_deserialize(s@)->Some_0,
{
    let v = str_to_chars(s);
    let p1 = match parse_lit_at(&v, 0, "{\"id\":\"") {
        Some(p) => p,
        None => {
            return None;
        },
    };
    let (id, p2) = match parse_string_at(&v, p1) {
        Some(r) => r,
        None => {
            return None;
        },
    };
    let p3 = match parse_lit_at(&v, p2, ",\"sender\":\"") {
        Some(p) => p,
        None => {
            return None;
        },
    };
    let (sender, p4) = match parse_string_at(&v, p3) {
        Some(r) => r,
        None => {
            return None;
        },
    };
    let p5 = match parse_lit_at(&v, p4, ",\"content\":\"") {
        Some(p) => p,
        None => {
            return None;
        },
    };
    let (content, p6) = match parse_string_at(&v, p5) {
        Some(r) => r,
        None => {
            return None;
        },
    };
    let p7 = match parse_lit_at(&v, p6, ",\"timestamp\":") {
        Some(p) => p,
        None => {
            return None;
        },
    };
    let (ts, p8) = match parse_u64_at(&v, p7) {
        Some(r) => r,
        None => {
            return None;
        },
    };
    let p9 = match parse_lit_at(&v, p8, ",\"message_type\":") {
        Some(p) => p,
        None => {
            return None;
        },
    };
    let (mt, p10) = match parse_message_type_at(&v, p9) {
        Some(r) => r,
        None => {
            return None;
        },
    };
    let p11 = match parse_lit_at(&v, p10, "}") {
        Some(p) => p,
        None => {
            return None;
        },
    };
    if p11 != v.len() {
        return None;
    }
    let m = ChatMessage {
        id: string_from_chars(&id),
        sender: string_from_chars(&sender),
        content: string_from_chars(&content),
        timestamp: ts,
        message_type: mt,
    };
    Some(m)
}

/// A literal standing at position `pre.len()` parses to the position after it.
pub proof fn lemma_parse_lit_exact(pre: Seq<char>, lit: Seq<char>, rest: Seq<char>)
    ensures
        spec_parse_lit(pre + lit + rest, pre.len() as int, lit) == Some(
            pre.len() + lit.len() as int,
        ),
{
    let s = pre + lit + rest;
    assert(s.subrange(pre.len() as int, pre.len() + lit.len() as int) =~= lit);
}

/// Every hexadecimal digit character is one, with its value.
proof fn lemma_hex_digit_char_val(v: nat)
    requires
        v < 16,
    ensures
        is_hex_digit(hex_digit_char(v)),
        hex_digit_val(hex_digit_char(v)) == v,
{
}

/// An escaped string body followed by its closing quote parses back to the
/// characters it stands for.
pub proof fn lemma_parse_string_escape(t: Seq<char>, pre: Seq<char>, rest: Seq<char>)
    ensures
        spec_parse_string(pre + spec_escape(t) + seq!['"'] + rest, pre.len() as int) == Some(
            (t, pre.len() + spec_escape(t).len() + 1 as int),
        ),
    decreases t.len(),
{
    let s = pre + spec_escape(t) + seq!['"'] + rest;
    let i = pre.len() as int;
    if t.len() == 0 {
        assert(spec_escape(t) =~= Seq::<char>::empty());
        assert(s =~= pre + seq!['"'] + rest);
        assert(s[i] == '"');
        assert(t =~= Seq::<char>::empty());
    } else {
        let c = t[0];
        let t2 = t.drop_first();
        let ec = spec_escape_char(c);
        assert(spec_escape(t) == ec + spec_escape(t2));
        let pre2 = pre + ec;
        assert(s =~= pre2 + spec_escape(t2) + seq!['"'] + rest);
        lemma_parse_string_escape(t2, pre2, rest);
        assert(seq![c] + t2 =~= t);
        if c == '"' || c == '\\' || c == '\u{8}' || c == '\u{9}' || c == '\u{a}' || c == '\u{c}'
            || c == '\u{d}' {
            let e = ec[1];
            assert(ec.len() == 2);
            assert(s[i] == '\\');
            assert(s[i + 1] == e);
            assert(is_short_escape(e));
            assert(short_escape_char(e) == c);
            assert(i + 2 == pre2.len());
            assert(spec_parse_string(s, i) == Some(
                (t, pre.len() + spec_escape(t).len() + 1 as int),
            ));
        } else if (c as u32) < 32 {
            let cu = c as u32;
            let h1 = hex_digit_char((cu / 16) as nat);
            let h2 = hex_digit_char((cu % 16) as nat);
            assert(ec =~= seq!['\\', 'u', '0', '0', h1, h2]);
            assert(s[i] == '\\');
            assert(s[i + 1] == 'u');
            assert(!is_short_escape('u'));
            assert(s[i + 2] == '0');
            assert(s[i + 3] == '0');
            assert(s[i + 4] == h1);
            assert(s[i + 5] == h2);
            lemma_hex_digit_char_val((cu / 16) as nat);
            lemma_hex_digit_char_val((cu % 16) as nat);
            vstd::arithmetic::div_mod::lemma_fundamental_div_mod(cu as int, 16);
            assert(hex_digit_val(s[i + 4]) * 16 + hex_digit_val(s[i + 5]) == cu);
            vstd::utf8::char_u32_cast(c, cu);
            assert(((hex_digit_val(s[i + 4]) * 16 + hex_digit_val(s[i + 5])) as u32) as char == c);
            assert(i + 6 == pre2.len());
            assert(i + 6 <= s.len());
            assert(spec_parse_string(s, i) == Some(
                (t, pre.len() + spec_escape(t).len() + 1 as int),
            ));
        } else {
            assert(ec =~= seq![c]);
            assert(s[i] == c);
            assert(c as u32 >= 32);
            assert(i + 1 == pre2.len());
            assert(spec_parse_string(s, i) == Some(
                (t, pre.len() + spec_escape(t).len() + 1 as int),
            ));
        }
    }
}

/// Every character of a sequence is a decimal digit.
pub open spec fn all_dec_digits(ds: Seq<char>) -> bool {
    forall|k: int| 0 <= k < ds.len() ==> is_dec_digit(#[trigger] ds[k])
}

/// The value of a digit run folded left to right into `acc`.
pub open spec fn fold_digits(ds: Seq<char>, acc: int) -> int
    decreases ds.len(),
{
    if ds.len() == 0 {
        acc
    } else {
        fold_digits(ds.drop_first(), acc * 10 + dec_digit_val(ds[0]))
    }
}

/// Folding a concatenation folds the first part, then the second.
proof fn lemma_fold_append(a: Seq<char>, b: Seq<char>, acc: int)
    ensures
        fold_digits(a + b, acc) == fold_digits(b, fold_digits(a, acc)),
    decreases a.len(),
{
    if a.len() == 0 {
        assert(a + b =~= b);
    } else {
        assert((a + b).drop_first() =~= a.drop_first() + b);
        lemma_fold_append(a.drop_first(), b, acc * 10 + dec_digit_val(a[0]));
    }
}

/// Folding digits never lowers the accumulator.
proof fn lemma_fold_lower_bound(ds: Seq<char>, acc: int)
    requires
        acc >= 0,
    ensures
        fold_digits(ds, acc) >= acc,
    decreases ds.len(),
{
    if ds.len() > 0 {
        assert(acc * 10 >= acc) by (nonlinear_arith)
            requires
                acc >= 0,
        ;
        lemma_fold_lower_bound(ds.drop_first(), acc * 10 + dec_digit_val(ds[0]));
    }
}

/// The decimal digits of `n` are digits, fold back to `n`, and never start
/// with a superfluous zero.
proof fn lemma_dec_props(n: nat)
    ensures
        all_dec_digits(spec_dec(n)),
        fold_digits(spec_dec(n), 0) == n,
        spec_dec(n).len() >= 1,
        n >= 1 ==> spec_dec(n)[0] != '0',
        n == 0 ==> spec_dec(n) =~= seq!['0'],
    decreases n,
{
    if n < 10 {
        let d = hex_digit_char(n);
        lemma_hex_digit_char_val(n);
        assert(is_dec_digit(d));
        assert(dec_digit_val(d) == n);
        assert(spec_dec(n) =~= seq![d]);
        let tail = seq![d].drop_first();
        assert(tail =~= Seq::<char>::empty());
        assert(fold_digits(tail, 0 * 10 + dec_digit_val(d) as int) == n);
        assert(fold_digits(seq![d], 0) == fold_digits(tail, 0 * 10 + dec_digit_val(d) as int));
    } else {
        lemma_dec_props(n / 10);
        let d = hex_digit_char(n % 10);
        lemma_hex_digit_char_val(n % 10);
        assert(spec_dec(n) =~= spec_dec(n / 10) + seq![d]);
        lemma_fold_append(spec_dec(n / 10), seq![d], 0);
        let a0: int = (n / 10) as int;
        let tail = seq![d].drop_first();
        assert(tail =~= Seq::<char>::empty());
        assert(fold_digits(tail, a0 * 10 + dec_digit_val(d) as int) == a0 * 10 + (n % 10));
        assert(fold_digits(seq![d], a0) == fold_digits(tail, a0 * 10 + dec_digit_val(d) as int));
        assert((n / 10) * 10 + (n % 10) == n) by {
            vstd::arithmetic::div_mod::lemma_fundamental_div_mod(n as int, 10);
        }
        assert(spec_dec(n)[0] == spec_dec(n / 10)[0]);
    }
}

/// A digit run standing before a non-digit parses to its folded value.
proof fn lemma_parse_digits_run(ds: Seq<char>, pre: Seq<char>, rest: Seq<char>, acc: u64)
    requires
        all_dec_digits(ds),
        rest.len() > 0,
        !is_dec_digit(rest[0]),
        fold_digits(ds, acc as int) <= u64::MAX,
    ensures
        spec_parse_digits(pre + ds + rest, pre.len() as int, acc) == Some(
            (fold_digits(ds, acc as int) as u64, pre.len() + ds.len() as int),
        ),
    decreases ds.len(),
{
    let s = pre + ds + rest;
    let i = pre.len() as int;
    if ds.len() == 0 {
        assert(s =~= pre + rest);
        assert(s[i] == rest[0]);
    } else {
        assert(s[i] == ds[0]);
        let d = dec_digit_val(ds[0]);
        let acc2 = acc * 10 + d;
        lemma_fold_lower_bound(ds.drop_first(), acc2 as int);
        assert(fold_digits(ds, acc as int) == fold_digits(ds.drop_first(), acc2 as int));
        assert(acc2 <= u64::MAX);
        assert(acc <= (u64::MAX - d) / 10) by (nonlinear_arith)
            requires
                acc * 10 + d <= u64::MAX,
                d <= 9,
                acc >= 0,
        ;
        let pre2 = pre + seq![ds[0]];
        assert(s =~= pre2 + ds.drop_first() + rest);
        lemma_parse_digits_run(ds.drop_first(), pre2, rest, acc2 as u64);
        assert(spec_parse_digits(s, i, acc) == spec_parse_digits(s, i + 1, acc2 as u64));
    }
}

/// The decimal encoding of `n` standing before a non-digit parses back to `n`.
pub proof fn lemma_parse_u64_dec(n: u64, pre: Seq<char>, rest: Seq<char>)
    requires
        rest.len() > 0,
        !is_dec_digit(rest[0]),
    ensures
        spec_parse_u64(pre + spec_dec(n as nat) + rest, pre.len() as int) == Some(
            (n, pre.len() + spec_dec(n as nat).len() as int),
        ),
{
    lemma_dec_props(n as nat);
    let ds = spec_dec(n as nat);
    let s = pre + ds + rest;
    let i = pre.len() as int;
    assert(s[i] == ds[0]);
    assert(is_dec_digit(s[i]));
    if n == 0 {
        assert(ds =~= seq!['0']);
        assert(s =~= pre + seq!['0'] + rest);
        assert(s[i] == '0');
        assert(s[i + 1] == rest[0]);
        assert(i + 1 < s.len());
        assert(spec_parse_u64(s, i) == Some((0u64, i + 1)));
    } else {
        assert(ds[0] != '0');
        assert(s[i] != '0');
        lemma_parse_digits_run(ds, pre, rest, 0);
        assert(spec_parse_u64(s, i) == Some((n, pre.len() + ds.len() as int)));
    }
}

/// The encoding of a message type parses back to it.
proof fn lemma_parse_message_type(t: MessageTypeView, pre: Seq<char>, rest: Seq<char>)
    ensures
        spec_parse_message_type(pre + spec_message_type_json(t) + rest, pre.len() as int) == Some(
            (t, pre.len() + spec_message_type_json(t).len() as int),
        ),
{
    reveal_strlit("\"Broadcast\"");
    reveal_strlit("{\"Direct\":{\"target_peer_id\":\"");
    reveal_strlit("\"}}");
    reveal_strlit("}}");
    let s = pre + spec_message_type_json(t) + rest;
    let i = pre.len() as int;
    match t {
        MessageTypeView::Broadcast => {
            lemma_parse_lit_exact(pre, "\"Broadcast\""@, rest);
        },
        MessageTypeView::Direct { target_peer_id } => {
            let dlit = "{\"Direct\":{\"target_peer_id\":\""@;
            let esc = spec_escape(target_peer_id);
            assert(spec_message_type_json(t) =~= dlit + esc + "\"}}"@);
            // The broadcast form never matches here: the first character differs.
            let blit = "\"Broadcast\""@;
            assert(s[i] == '{');
            if i + blit.len() <= s.len() {
                assert(s.subrange(i, i + blit.len())[0] == '{');
                assert(s.subrange(i, i + blit.len()) != blit);
            }
            assert(spec_parse_lit(s, i, blit) is None);
            assert(s =~= pre + dlit + (esc + "\"}}"@ + rest));
            lemma_parse_lit_exact(pre, dlit, esc + "\"}}"@ + rest);
            let j = i + dlit.len() as int;
            assert("\"}}"@ =~= seq!['"'] + "}}"@);
            assert(s =~= (pre + dlit) + esc + seq!['"'] + ("}}"@ + rest));
            lemma_parse_string_escape(target_peer_id, pre + dlit, "}}"@ + rest);
            let k = j + esc.len() + 1 as int;
            assert(s =~= (pre + dlit + esc + seq!['"']) + "}}"@ + rest);
            lemma_parse_lit_exact(pre + dlit + esc + seq!['"'], "}}"@, rest);
            assert(spec_parse_lit(s, k, "}}"@) == Some(k + 2));
            assert(k + 2 == i + spec_message_type_json(t).len());
        },
    }
}

/// Position after the opening literal of the `id` field.
spec fn rt_p1(m: ChatMessageView) -> int {
    "{\"id\":\""@.len() as int
}

/// Position after the `id` string body and its closing quote.
spec fn rt_p2(m: ChatMessageView) -> int {
    rt_p1(m) + spec_escape(m.id).len() + 1
}

/// Position after the `sender` field name.
spec fn rt_p3(m: ChatMessageView) -> int {
    rt_p2(m) + ",\"sender\":\""@.len()
}

/// Position after the `sender` string body and its closing quote.
spec fn rt_p4(m: ChatMessageView) -> int {
    rt_p3(m) + spec_escape(m.sender).len() + 1
}

/// Position after the `content` field name.
spec fn rt_p5(m: ChatMessageView) -> int {
    rt_p4(m) + ",\"content\":\""@.len()
}

/// Position after the `content` string body and its closing quote.
spec fn rt_p6(m: ChatMessageView) -> int {
    rt_p5(m) + spec_escape(m.content).len() + 1
}

/// Position after the `timestamp` field name.
spec fn rt_p7(m: ChatMessageView) -> int {
    rt_p6(m) + ",\"timestamp\":"@.len()
}

/// Position after the timestamp digits.
spec fn rt_p8(m: ChatMessageView) -> int {
    rt_p7(m) + spec_dec(m.timestamp as nat).len()
}

/// Position after the `message_type` field name.
spec fn rt_p9(m: ChatMessageView) -> int {
    rt_p8(m) + ",\"message_type\":"@.len()
}

/// Position after the message type encoding.
spec fn rt_p10(m: ChatMessageView) -> int {
    rt_p9(m) + spec_message_type_json(m.message_type).len()
}

/// The encoding, grouped as the parser walks it.
proof fn lemma_rt_shape(m: ChatMessageView)
    ensures
        spec_serialize(m) == "{\"id\":\""@ + spec_escape(m.id) + seq!['"'] + (",\"sender\":\""@
            + spec_escape(m.sender) + seq!['"'] + (",\"content\":\""@ + spec_escape(m.content)
            + seq!['"'] + (",\"timestamp\":"@ + spec_dec(m.timestamp as nat) + (
        ",\"message_type\":"@ + spec_message_type_json(m.message_type) + "}"@)))),
{
    reveal_strlit("{\"id\":\"");
    reveal_strlit("\",\"sender\":\"");
    reveal_strlit(",\"sender\":\"");
    reveal_strlit("\",\"content\":\"");
    reveal_strlit(",\"content\":\"");
    reveal_strlit("\",\"timestamp\":");
    reveal_strlit(",\"timestamp\":");
    assert(spec_serialize(m) =~= "{\"id\":\""@ + spec_escape(m.id) + seq!['"'] + (
    ",\"sender\":\""@ + spec_escape(m.sender) + seq!['"'] + (",\"content\":\""@ + spec_escape(
        m.content,
    ) + seq!['"'] + (",\"timestamp\":"@ + spec_dec(m.timestamp as nat) + (",\"message_type\":"@
        + spec_message_type_json(m.message_type) + "}"@)))));
}

/// The parser reads the `id` and `sender` fields of an encoding.
#[verifier::rlimit(100)]
proof fn lemma_rt_front(m: ChatMessageView)
    ensures
        spec_parse_lit(spec_serialize(m), 0, "{\"id\":\""@) == Some(rt_p1(m)),
        spec_parse_string(spec_serialize(m), rt_p1(m)) == Some((m.id, rt_p2(m))),
        spec_parse_lit(spec_serialize(m), rt_p2(m), ",\"sender\":\""@) == Some(rt_p3(m)),
        spec_parse_string(spec_serialize(m), rt_p3(m)) == Some((m.sender, rt_p4(m))),
{
    lemma_rt_shape(m);
    let s = spec_serialize(m);
    let l1 = "{\"id\":\""@;
    let e1 = spec_escape(m.id);
    let l2b = ",\"sender\":\""@;
    let e2 = spec_escape(m.sender);
    let tail2 = ",\"content\":\""@ + spec_escape(m.content) + seq!['"'] + (",\"timestamp\":"@
        + spec_dec(m.timestamp as nat) + (",\"message_type\":"@ + spec_message_type_json(
        m.message_type,
    ) + "}"@));
    assert(s =~= Seq::<char>::empty() + l1 + (e1 + seq!['"'] + (l2b + e2 + seq!['"'] + tail2)));
    lemma_parse_lit_exact(Seq::<char>::empty(), l1, e1 + seq!['"'] + (l2b + e2 + seq!['"'] + tail2));
    assert(s =~= l1 + e1 + seq!['"'] + (l2b + e2 + seq!['"'] + tail2));
    lemma_parse_string_escape(m.id, l1, l2b + e2 + seq!['"'] + tail2);
    assert(s =~= (l1 + e1 + seq!['"']) + l2b + (e2 + seq!['"'] + tail2));
    lemma_parse_lit_exact(l1 + e1 + seq!['"'], l2b, e2 + seq!['"'] + tail2);
    assert(s =~= (l1 + e1 + seq!['"'] + l2b) + e2 + seq!['"'] + tail2);
    lemma_parse_string_escape(m.sender, l1 + e1 + seq!['"'] + l2b, tail2);
}

/// The parser reads the `content` and `timestamp` fields of an encoding.
#[verifier::rlimit(100)]
proof fn lemma_rt_middle(m: ChatMessageView)
    ensures
        spec_parse_lit(spec_serialize(m), rt_p4(m), ",\"content\":\""@) == Some(rt_p5(m)),
        spec_parse_string(spec_serialize(m), rt_p5(m)) == Some((m.content, rt_p6(m))),
        spec_parse_lit(spec_serialize(m), rt_p6(m), ",\"timestamp\":"@) == Some(rt_p7(m)),
        spec_parse_u64(spec_serialize(m), rt_p7(m)) == Some((m.timestamp, rt_p8(m))),
{
    lemma_rt_shape(m);
    reveal_strlit(",\"message_type\":");
    let s = spec_serialize(m);
    let l1 = "{\"id\":\""@;
    let e1 = spec_escape(m.id);
    let l2b = ",\"sender\":\""@;
    let e2 = spec_escape(m.sender);
    let l3b = ",\"content\":\""@;
    let e3 = spec_escape(m.content);
    let l4b = ",\"timestamp\":"@;
    let d = spec_dec(m.timestamp as nat);
    let tail3 = ",\"message_type\":"@ + spec_message_type_json(m.message_type) + "}"@;
    let pre4 = l1 + e1 + seq!['"'] + l2b + e2 + seq!['"'];
    assert(s =~= pre4 + l3b + (e3 + seq!['"'] + (l4b + d + tail3)));
    lemma_parse_lit_exact(pre4, l3b, e3 + seq!['"'] + (l4b + d + tail3));
    assert(s =~= (pre4 + l3b) + e3 + seq!['"'] + (l4b + d + tail3));
    lemma_parse_string_escape(m.content, pre4 + l3b, l4b + d + tail3);
    let pre6 = pre4 + l3b + e3 + seq!['"'];
    assert(s =~= pre6 + l4b + (d + tail3));
    lemma_parse_lit_exact(pre6, l4b, d + tail3);
    let pre7 = pre6 + l4b;
    assert(s =~= pre7 + d + tail3);
    assert(tail3[0] == ',');
    assert(!is_dec_digit(','));
    lemma_parse_u64_dec(m.timestamp, pre7, tail3);
}

/// The parser reads the `message_type` field and the closing brace, ending
/// exactly at the end of the encoding.
#[verifier::rlimit(100)]
proof fn lemma_rt_back(m: ChatMessageView)
    ensures
        spec_parse_lit(spec_serialize(m), rt_p8(m), ",\"message_type\":"@) == Some(rt_p9(m)),
        spec_parse_message_type(spec_serialize(m), rt_p9(m)) == Some(
            (m.message_type, rt_p10(m)),
        ),
        spec_parse_lit(spec_serialize(m), rt_p10(m), "}"@) == Some(rt_p10(m) + 1),
        rt_p10(m) + 1 == spec_serialize(m).len(),
{
    lemma_rt_shape(m);
    reveal_strlit("}");
    let s = spec_serialize(m);
    let l1 = "{\"id\":\""@;
    let e1 = spec_escape(m.id);
    let l2b = ",\"sender\":\""@;
    let e2 = spec_escape(m.sender);
    let l3b = ",\"content\":\""@;
    let e3 = spec_escape(m.content);
    let l4b = ",\"timestamp\":"@;
    let d = spec_dec(m.timestamp as nat);
    let l5 = ",\"message_type\":"@;
    let mt = spec_message_type_json(m.message_type);
    let l6 = "}"@;
    let pre8 = l1 + e1 + seq!['"'] + l2b + e2 + seq!['"'] + l3b + e3 + seq!['"'] + l4b + d;
    assert(s =~= pre8 + l5 + (mt + l6));
    lemma_parse_lit_exact(pre8, l5, mt + l6);
    let pre9 = pre8 + l5;
    assert(s =~= pre9 + mt + l6);
    lemma_parse_message_type(m.message_type, pre9, l6);
    let pre10 = pre9 + mt;
    assert(s =~= pre10 + l6 + Seq::<char>::empty());
    lemma_parse_lit_exact(pre10, l6, Seq::<char>::empty());
    assert(rt_p10(m) + 1 == s.len());
}

/// Round trip: deserializing the canonical encoding of any message yields
/// exactly that message, field for field.
pub proof fn lemma_serialize_deserialize(m: ChatMessageView)
    ensures
        spec_deserialize(spec_serialize(m)) == Some(m),
{
    lemma_rt_front(m);
    lemma_rt_middle(m);
    lemma_rt_back(m);
    let s = spec_serialize(m);
    let out = ChatMessageView {
        id: m.id,
        sender: m.sender,
        content: m.content,
        timestamp: m.timestamp,
        message_type: m.message_type,
    };
    assert(out =~= m);
    assert(spec_deserialize(s) == Some(m));
}


} // verus!
