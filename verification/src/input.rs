//! The user-input grammar of the chat prompt.
//!
//! A line of input, once stripped of surrounding ASCII whitespace, is either
//! a quit word, a peer-list command, a direct-message command of the form
//! `/dm <peer_id> <message>`, an unknown slash command, an ordinary line to
//! broadcast, or nothing at all. `parse_input` decides which, exactly as
//! `spec_parse_input` says.

use vstd::prelude::*;

use crate::codec::{str_to_chars, string_from_chars};

verus! {

/// ASCII whitespace, as stripped from the ends of an input line.
pub open spec fn is_input_ws(c: char) -> bool {
    c == ' ' || c == '\t' || c == '\n' || c == '\r'
}

/// The line without leading ASCII whitespace.
pub open spec fn spec_trim_start(s: Seq<char>) -> Seq<char>
    decreases s.len(),
{
    if s.len() > 0 && is_input_ws(s[0]) {
        spec_trim_start(s.drop_first())
    } else {
        s
    }
}

/// The line without trailing ASCII whitespace.
pub open spec fn spec_trim_end(s: Seq<char>) -> Seq<char>
    decreases s.len(),
{
    if s.len() > 0 && is_input_ws(s.last()) {
        spec_trim_end(s.drop_last())
    } else {
        s
    }
}

/// The line without surrounding ASCII whitespace.
pub open spec fn spec_trim(s: Seq<char>) -> Seq<char> {
    spec_trim_end(spec_trim_start(s))
}

/// The first position of `c` in `s`, or -1 when absent.
pub open spec fn spec_index_of_char(s: Seq<char>, c: char) -> int
    decreases s.len(),
{
    if s.len() == 0 {
        -1
    } else if s[0] == c {
        0
    } else {
        let r = spec_index_of_char(s.drop_first(), c);
        if r == -1 {
            -1
        } else {
            1 + r
        }
    }
}

/// What one line of user input asks for.
#[derive(Debug, Clone)]
pub enum InputAction {
    Quit,
    ListPeers,
    SendDirect { peer_id: String, message: String },
    Broadcast(String),
    DmUsage,
    UnknownCommand,
    Nothing,
}

/// Ghost image of an `InputAction`.
#[verifier::ext_equal]
pub enum InputActionView {
    Quit,
    ListPeers,
    SendDirect { peer_id: Seq<char>, message: Seq<char> },
    Broadcast(Seq<char>),
    DmUsage,
    UnknownCommand,
    Nothing,
}

impl View for InputAction {
    type V = InputActionView;

    open spec fn view(&self) -> InputActionView {
        match self {
            InputAction::Quit => InputActionView::Quit,
            InputAction::ListPeers => InputActionView::ListPeers,
            InputAction::SendDirect { peer_id, message } => InputActionView::SendDirect {
                peer_id: peer_id@,
                message: message@,
            },
            InputAction::Broadcast(s) => InputActionView::Broadcast(s@),
            InputAction::DmUsage => InputActionView::DmUsage,
            InputAction::UnknownCommand => InputActionView::UnknownCommand,
            InputAction::Nothing => InputActionView::Nothing,
        }
    }
}

/// The decision on one line: quit words first, then the peer-list words,
/// then `/dm <peer_id> <message>` (usage hint when the message is missing),
/// then a broadcast for an ordinary line, a hint for any other slash
/// command, and nothing for a blank line.
pub open spec fn spec_parse_input(line: Seq<char>) -> InputActionView {
    let t = spec_trim(line);
    if t == "quit"@ || t == "exit"@ {
        InputActionView::Quit
    } else if t == "/peers"@ || t == "/list"@ {
        InputActionView::ListPeers
    } else if t.len() >= 4 && t.subrange(0, 4) == "/dm "@ {
        let rest = t.subrange(4, t.len() as int);
        let k = spec_index_of_char(rest, ' ');
        if k == -1 {
            InputActionView::DmUsage
        } else {
            InputActionView::SendDirect {
                peer_id: rest.subrange(0, k),
                message: rest.subrange(k + 1, rest.len() as int),
            }
        }
    } else if t.len() > 0 && t[0] != '/' {
        InputActionView::Broadcast(t)
    } else if t.len() > 0 {
        InputActionView::UnknownCommand
    } else {
        InputActionView::Nothing
    }
}

/// Whether the characters of `v` are exactly those of `lit`.
fn chars_eq_lit(v: &Vec<char>, lit: &str) -> (r: bool)
    ensures
        r == (v@ == lit@),
{
    let n = lit.unicode_len();
    if v.len() != n {
        proof {
            assert(v@ != lit@);
        }
        return false;
    }
    let mut i: usize = 0;
    while i < n
        invariant
            n == lit@.len(),
            n == v@.len(),
            i <= n,
            forall|j: int| 0 <= j < i ==> v@[j] == lit@[j],
        decreases n - i,
    {
        if v[i] != lit.get_char(i) {
            proof {
                assert(v@[i as int] != lit@[i as int]);
            }
            return false;
        }
        i = i + 1;
    }
    proof {
        assert(v@ =~= lit@);
    }
    true
}

/// Whether `c` is ASCII whitespace.
fn is_ws_char(c: char) -> (r: bool)
    ensures
        r == is_input_ws(c),
{
    c == ' ' || c == '\t' || c == '\n' || c == '\r'
}

/// The characters of `v` without surrounding ASCII whitespace.
fn trim_chars(v: &Vec<char>) -> (r: Vec<char>)
    ensures
        r@ == spec_trim(v@),
{
    let n = v.len();
    proof {
        assert(v@.subrange(0, n as int) =~= v@);
    }
    let mut i: usize = 0;
    while i < n && is_ws_char(v[i])
        invariant
            n == v@.len(),
            i <= n,
            spec_trim_start(v@) == spec_trim_start(v@.subrange(i as int, n as int)),
        decreases n - i,
    {
        proof {
            assert(v@.subrange(i as int, n as int).drop_first() =~= v@.subrange(
                i + 1 as int,
                n as int,
            ));
        }
        i = i + 1;
    }
    proof {
        if i < n {
            assert(!is_input_ws(v@.subrange(i as int, n as int)[0]));
        }
        assert(spec_trim_start(v@) == v@.subrange(i as int, n as int));
    }
    let mut j: usize = n;
    while j > i && is_ws_char(v[j - 1])
        invariant
            n == v@.len(),
            i <= j <= n,
            spec_trim_start(v@) == v@.subrange(i as int, n as int),
            spec_trim_end(v@.subrange(i as int, n as int)) == spec_trim_end(
                v@.subrange(i as int, j as int),
            ),
        decreases j,
    {
        proof {
            assert(v@.subrange(i as int, j as int).last() == v@[j - 1 as int]);
            assert(v@.subrange(i as int, j as int).drop_last() =~= v@.subrange(
                i as int,
                j - 1 as int,
            ));
        }
        j = j - 1;
    }
    proof {
        if j > i {
            assert(v@.subrange(i as int, j as int).last() == v@[j - 1 as int]);
            assert(!is_input_ws(v@.subrange(i as int, j as int).last()));
        } else {
            assert(v@.subrange(i as int, j as int).len() == 0);
        }
        assert(spec_trim_end(v@.subrange(i as int, j as int)) == v@.subrange(
            i as int,
            j as int,
        ));
    }
    let mut r: Vec<char> = Vec::new();
    let mut k: usize = i;
    while k < j
        invariant
            n == v@.len(),
            i <= j <= n,
            i <= k <= j,
            r@ == v@.subrange(i as int, k as int),
        decreases j - k,
    {
        r.push(v[k]);
        proof {
            assert(v@.subrange(i as int, k + 1 as int) =~= v@.subrange(i as int, k as int).push(
                v@[k as int],
            ));
        }
        k = k + 1;
    }
    proof {
        assert(r@ == spec_trim(v@));
    }
    r
}

/// The first position of `c` in `v`, if any.
fn index_of_char(v: &Vec<char>, c: char) -> (r: Option<usize>)
    ensures
        match r {
            Some(k) => k < v@.len() && spec_index_of_char(v@, c) == k as int,
            None => spec_index_of_char(v@, c) == -1,
        },
{
    let n = v.len();
    let mut i: usize = 0;
    while i < n
        invariant
            n == v@.len(),
            i <= n,
            forall|j: int| 0 <= j < i ==> v@[j] != c,
        decreases n - i,
    {
        if v[i] == c {
            proof {
                lemma_index_of_char_at(v@, c, i as int);
            }
            return Some(i);
        }
        i = i + 1;
    }
    proof {
        lemma_index_of_char_none(v@, c);
    }
    None
}

/// `spec_index_of_char` finds the first occurrence.
proof fn lemma_index_of_char_at(s: Seq<char>, c: char, i: int)
    requires
        0 <= i < s.len(),
        s[i] == c,
        forall|j: int| 0 <= j < i ==> s[j] != c,
    ensures
        spec_index_of_char(s, c) == i,
    decreases s.len(),
{
    if i > 0 {
        assert(s.drop_first()[i - 1] == c);
        assert(forall|j: int| 0 <= j < i - 1 ==> s.drop_first()[j] == s[j + 1] && s[j + 1] != c);
        lemma_index_of_char_at(s.drop_first(), c, i - 1);
    }
}

/// `spec_index_of_char` misses only when the character is absent.
proof fn lemma_index_of_char_none(s: Seq<char>, c: char)
    requires
        forall|j: int| 0 <= j < s.len() ==> s[j] != c,
    ensures
        spec_index_of_char(s, c) == -1,
    decreases s.len(),
{
    if s.len() > 0 {
        assert(forall|j: int| 0 <= j < s.drop_first().len() ==> s.drop_first()[j] != c);
        lemma_index_of_char_none(s.drop_first(), c);
    }
}

/// Decide what one line of user input asks for.
pub fn parse_input(line: &str) -> (r: InputAction)
    ensures
        r@ == spec_parse_input(line@),
{
    let chars = str_to_chars(line);
    let t = trim_chars(&chars);
    if chars_eq_lit(&t, "quit") || chars_eq_lit(&t, "exit") {
        return InputAction::Quit;
    }
    if chars_eq_lit(&t, "/peers") || chars_eq_lit(&t, "/list") {
        return InputAction::ListPeers;
    }
    let tlen = t.len();
    if tlen >= 4 {
        let mut prefix: Vec<char> = Vec::new();
        prefix.push(t[0]);
        prefix.push(t[1]);
        prefix.push(t[2]);
        prefix.push(t[3]);
        proof {
            assert(prefix@ =~= t@.subrange(0, 4));
        }
        if chars_eq_lit(&prefix, "/dm ") {
            let mut rest: Vec<char> = Vec::new();
            let mut k: usize = 4;
            while k < tlen
                invariant
                    tlen == t@.len(),
                    4 <= k <= tlen,
                    rest@ == t@.subrange(4, k as int),
                decreases tlen - k,
            {
                rest.push(t[k]);
                proof {
                    assert(t@.subrange(4, k + 1 as int) =~= t@.subrange(4, k as int).push(
                        t@[k as int],
                    ));
                }
                k = k + 1;
            }
            proof {
                assert(rest@ =~= t@.subrange(4, tlen as int));
            }
            match index_of_char(&rest, ' ') {
                Some(p) => {
                    let mut peer: Vec<char> = Vec::new();
                    let mut a: usize = 0;
                    while a < p
                        invariant
                            p < rest@.len(),
                            a <= p,
                            peer@ == rest@.subrange(0, a as int),
                        decreases p - a,
                    {
                        peer.push(rest[a]);
                        proof {
                            assert(rest@.subrange(0, a + 1 as int) =~= rest@.subrange(
                                0,
                                a as int,
                            ).push(rest@[a as int]));
                        }
                        a = a + 1;
                    }
                    let rlen = rest.len();
                    let mut msg: Vec<char> = Vec::new();
                    let mut b: usize = p + 1;
                    while b < rlen
                        invariant
                            rlen == rest@.len(),
                            p + 1 <= b <= rlen,
                            msg@ == rest@.subrange(p + 1 as int, b as int),
                        decreases rlen - b,
                    {
                        msg.push(rest[b]);
                        proof {
                            assert(rest@.subrange(p + 1 as int, b + 1 as int) =~= rest@.subrange(
                                p + 1 as int,
                                b as int,
                            ).push(rest@[b as int]));
                        }
                        b = b + 1;
                    }
                    proof {
                        assert(peer@ =~= rest@.subrange(0, p as int));
                        assert(msg@ =~= rest@.subrange(p + 1 as int, rest@.len() as int));
                    }
                    return InputAction::SendDirect {
                        peer_id: string_from_chars(&peer),
                        message: string_from_chars(&msg),
                    };
                },
                None => {
                    return InputAction::DmUsage;
                },
            }
        }
    }
    if tlen > 0 {
        if t[0] != '/' {
            return InputAction::Broadcast(string_from_chars(&t));
        }
        return InputAction::UnknownCommand;
    }
    InputAction::Nothing
}

} // verus!
