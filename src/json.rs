//! The small amount of JSON this core reads and writes: escaping a string
//! for a JSON literal, and pulling the value of one string field out of a
//! response body by its first occurrence.

use vstd::prelude::*;
use vstd::utf8::*;
use crate::text::{chars_of, find_from, occurs_at, push_char};

verus! {

broadcast use vstd::string::group_string_axioms, vstd::utf8::group_utf8_lib;

pub open spec fn hex_digit(d: nat) -> char {
    if d < 10 {
        ((d + 48) as u8) as char
    } else {
        ((d + 87) as u8) as char
    }
}

/// How one character is written inside a JSON string literal.
pub open spec fn escape_char(c: char) -> Seq<char> {
    let v = c as u32;
    if c == '"' {
        seq!['\\', '"']
    } else if c == '\\' {
        seq!['\\', '\\']
    } else if c == '\n' {
        seq!['\\', 'n']
    } else if c == '\r' {
        seq!['\\', 'r']
    } else if c == '\t' {
        seq!['\\', 't']
    } else if v < 0x20 {
        seq!['\\', 'u', '0', '0', hex_digit((v / 16) as nat), hex_digit((v % 16) as nat)]
    } else {
        seq![c]
    }
}

/// `s` written as the body of a JSON string literal.
pub open spec fn json_escaped(s: Seq<char>) -> Seq<char>
    decreases s.len(),
{
    if s.len() == 0 {
        Seq::empty()
    } else {
        json_escaped(s.drop_last()) + escape_char(s.last())
    }
}

fn hex_digit_exec(d: u32) -> (r: char)
    requires
        d < 16,
    ensures
        r == hex_digit(d as nat),
{
    if d < 10 {
        (d as u8 + 48u8) as char
    } else {
        (d as u8 + 87u8) as char
    }
}

/// Appends `c` as it is written inside a JSON string literal.
pub fn push_escaped_char(out: &mut String, c: char)
    ensures
        final(out)@ == old(out)@ + escape_char(c),
{
    let v = c as u32;
    if c == '"' {
        push_char(out, '\\');
        push_char(out, '"');
    } else if c == '\\' {
        push_char(out, '\\');
        push_char(out, '\\');
    } else if c == '\n' {
        push_char(out, '\\');
        push_char(out, 'n');
    } else if c == '\r' {
        push_char(out, '\\');
        push_char(out, 'r');
    } else if c == '\t' {
        push_char(out, '\\');
        push_char(out, 't');
    } else if v < 0x20 {
        push_char(out, '\\');
        push_char(out, 'u');
        push_char(out, '0');
        push_char(out, '0');
        push_char(out, hex_digit_exec(v / 16));
        push_char(out, hex_digit_exec(v % 16));
    } else {
        push_char(out, c);
    }
    assert(final(out)@ =~= old(out)@ + escape_char(c));
}

/// Appends `s` escaped for a JSON string literal.
pub fn push_json_escaped(out: &mut String, s: &str)
    ensures
        final(out)@ == old(out)@ + json_escaped(s@),
{
    let cs = chars_of(s);
    let mut i: usize = 0;
    while i < cs.len()
        invariant
            cs@ == s@,
            i <= cs@.len(),
            out@ == old(out)@ + json_escaped(cs@.subrange(0, i as int)),
        decreases cs@.len() - i,
    {
        proof {
            assert(cs@.subrange(0, i + 1).drop_last() =~= cs@.subrange(0, i as int));
        }
        push_escaped_char(out, cs[i]);
        i = i + 1;
    }
    assert(cs@.subrange(0, i as int) =~= s@);
}

/// Escapes `s` for use inside a JSON string literal.
pub fn json_escape(s: &str) -> (r: String)
    ensures
        r@ == json_escaped(s@),
{
    let mut out = String::new();
    push_json_escaped(&mut out, s);
    assert(Seq::<char>::empty() + json_escaped(s@) =~= json_escaped(s@));
    out
}

/// Which escapes a reader understands.
#[derive(Clone, Copy, Debug, PartialEq, Eq, Structural)]
pub enum Dialect {
    /// `\" \\ \n \r \t \/ \uXXXX`, as in a chat-completion response.
    Completion,
    /// `\" \\ \n` only, as in a request body.
    Prompt,
    /// `\" \\ \n \t \uXXXX`, with `\r` dropped, as in a facts response.
    Facts,
}

pub open spec fn reads_unicode(d: Dialect) -> bool {
    d != Dialect::Prompt
}

/// What an escape `\e` other than `\u` stands for.
pub open spec fn escape_out(d: Dialect, e: char) -> Seq<char> {
    if e == '"' {
        seq!['"']
    } else if e == '\\' {
        seq!['\\']
    } else if e == 'n' {
        seq!['\n']
    } else if e == 'r' && d == Dialect::Completion {
        seq!['\r']
    } else if e == 'r' && d == Dialect::Facts {
        Seq::empty()
    } else if e == 't' && d != Dialect::Prompt {
        seq!['\t']
    } else if e == '/' && d == Dialect::Completion {
        seq!['/']
    } else {
        seq!['\\', e]
    }
}

pub open spec fn is_hex(c: char) -> bool {
    ('0' <= c <= '9') || ('a' <= c <= 'f') || ('A' <= c <= 'F')
}

pub open spec fn hex_value(c: char) -> nat {
    if '0' <= c <= '9' {
        (c as u32 - 48) as nat
    } else if 'a' <= c <= 'f' {
        (c as u32 - 87) as nat
    } else {
        (c as u32 - 55) as nat
    }
}

pub open spec fn hex_digits_value(h: Seq<char>) -> nat
    decreases h.len(),
{
    if h.len() == 0 {
        0
    } else {
        hex_digits_value(h.drop_last()) * 16 + hex_value(h.last())
    }
}

/// `h` without one leading `+`.
pub open spec fn unsigned_part(h: Seq<char>) -> Seq<char> {
    if h.len() > 0 && h[0] == '+' {
        h.drop_first()
    } else {
        h
    }
}

pub open spec fn all_hex(h: Seq<char>) -> bool {
    forall|i: int| 0 <= i < h.len() ==> is_hex(#[trigger] h[i])
}

/// What `u32::from_str_radix(h, 16)` gives for at most four characters: an
/// optional `+`, then one or more hexadecimal digits.
pub open spec fn parse_hex4(h: Seq<char>) -> Option<nat> {
    let d = unsigned_part(h);
    if d.len() > 0 && all_hex(d) {
        Some(hex_digits_value(d))
    } else {
        None
    }
}

/// The character a `\u` escape with digits `h` stands for; nothing when the
/// digits do not parse or name no character.
pub open spec fn unicode_out(h: Seq<char>) -> Seq<char> {
    match parse_hex4(h) {
        Some(v) => if v <= u32::MAX && is_scalar(v as u32) {
            seq![(v as u32) as char]
        } else {
            Seq::empty()
        },
        None => Seq::empty(),
    }
}

pub open spec fn prepend(p: Seq<char>, o: Option<Seq<char>>) -> Option<Seq<char>> {
    match o {
        Some(r) => Some(p + r),
        None => None,
    }
}

pub open spec fn min(a: int, b: int) -> int {
    if a <= b {
        a
    } else {
        b
    }
}

/// The string value that starts at `s[i]` and runs to the first unescaped
/// `"`; `None` if the text ends first.
pub open spec fn unescape_from(d: Dialect, s: Seq<char>, i: int) -> Option<Seq<char>>
    decreases s.len() - i,
{
    if i < 0 || i >= s.len() {
        None
    } else if s[i] == '"' {
        Some(Seq::empty())
    } else if s[i] == '\\' {
        if i + 1 >= s.len() {
            None
        } else if s[i + 1] == 'u' && reads_unicode(d) {
            let end = min(i + 6, s.len() as int);
            prepend(unicode_out(s.subrange(i + 2, end)), unescape_from(d, s, end))
        } else {
            prepend(escape_out(d, s[i + 1]), unescape_from(d, s, i + 2))
        }
    } else {
        prepend(seq![s[i]], unescape_from(d, s, i + 1))
    }
}

/// Relies on `char::from_u32`: a character exactly for Unicode scalar values.
#[verifier::external_body]
fn char_from_u32(v: u32) -> (r: Option<char>)
    ensures
        is_scalar(v) ==> r == Some(v as char),
        !is_scalar(v) ==> r is None,
{
    char::from_u32(v)
}

fn push_seq_chars(out: &mut String, a: char, b: char, n: usize)
    requires
        n <= 2,
    ensures
        final(out)@ == old(out)@ + seq![a, b].subrange(0, n as int),
{
    if n > 0 {
        push_char(out, a);
    }
    if n > 1 {
        push_char(out, b);
    }
    assert(final(out)@ =~= old(out)@ + seq![a, b].subrange(0, n as int));
}

fn push_escape(out: &mut String, d: Dialect, e: char)
    ensures
        final(out)@ == old(out)@ + escape_out(d, e),
{
    if e == '"' {
        push_seq_chars(out, '"', ' ', 1);
    } else if e == '\\' {
        push_seq_chars(out, '\\', ' ', 1);
    } else if e == 'n' {
        push_seq_chars(out, '\n', ' ', 1);
    } else if e == 'r' && d == Dialect::Completion {
        push_seq_chars(out, '\r', ' ', 1);
    } else if e == 'r' && d == Dialect::Facts {
        push_seq_chars(out, ' ', ' ', 0);
    } else if e == 't' && d != Dialect::Prompt {
        push_seq_chars(out, '\t', ' ', 1);
    } else if e == '/' && d == Dialect::Completion {
        push_seq_chars(out, '/', ' ', 1);
    } else {
        push_seq_chars(out, '\\', e, 2);
    }
    assert(seq!['"', ' '].subrange(0, 1) =~= seq!['"']);
    assert(seq!['\\', ' '].subrange(0, 1) =~= seq!['\\']);
    assert(seq!['\n', ' '].subrange(0, 1) =~= seq!['\n']);
    assert(seq!['\r', ' '].subrange(0, 1) =~= seq!['\r']);
    assert(seq!['\t', ' '].subrange(0, 1) =~= seq!['\t']);
    assert(seq!['/', ' '].subrange(0, 1) =~= seq!['/']);
    assert(seq![' ', ' '].subrange(0, 0) =~= Seq::<char>::empty());
    assert(seq!['\\', e].subrange(0, 2) =~= seq!['\\', e]);
}

/// Parses `cs[from..to]` (at most four characters) as `from_str_radix(_, 16)` does.
fn parse_hex_exec(cs: &Vec<char>, from: usize, to: usize) -> (r: Option<u32>)
    requires
        from <= to <= cs@.len(),
        to - from <= 4,
    ensures
        match parse_hex4(cs@.subrange(from as int, to as int)) {
            Some(v) => r == Some(v as u32) && v < 0x10000,
            None => r is None,
        },
{
    let ghost h = cs@.subrange(from as int, to as int);
    let mut a = from;
    if a < to && cs[a] == '+' {
        a = a + 1;
    }
    let ghost dg = cs@.subrange(a as int, to as int);
    proof {
        if h.len() > 0 && h[0] == '+' {
            assert(h.drop_first() =~= dg);
        } else {
            assert(h =~= dg);
        }
    }
    if a == to {
        return None;
    }
    let mut v: u32 = 0;
    let mut i = a;
    while i < to
        invariant
            from <= a <= i <= to <= cs@.len(),
            to - from <= 4,
            dg == cs@.subrange(a as int, to as int),
            dg == unsigned_part(h),
            h == cs@.subrange(from as int, to as int),
            forall|j: int| a <= j < i ==> is_hex(#[trigger] cs@[j]),
            v == hex_digits_value(cs@.subrange(a as int, i as int)),
            v < pow16(i - a),
        decreases to - i,
    {
        let c = cs[i];
        let x: u32 = if '0' <= c && c <= '9' {
            c as u32 - 48
        } else if 'a' <= c && c <= 'f' {
            c as u32 - 87
        } else if 'A' <= c && c <= 'F' {
            c as u32 - 55
        } else {
            assert(!is_hex(dg[i - a]));
            return None;
        };
        proof {
            assert(cs@.subrange(a as int, i + 1).drop_last() =~= cs@.subrange(a as int, i as int));
            assert(pow16(i + 1 - a) == pow16(i - a) * 16);
            assert(pow16(i - a) <= 4096) by {
                lemma_pow16_bound(i - a);
            }
        }
        v = v * 16 + x;
        i = i + 1;
    }
    assert(cs@.subrange(a as int, i as int) =~= dg);
    assert forall|j: int| 0 <= j < dg.len() implies is_hex(#[trigger] dg[j]) by {
        assert(dg[j] == cs@[a + j]);
    }
    proof {
        lemma_pow16_bound(i - a);
    }
    Some(v)
}

pub open spec fn pow16(n: int) -> nat
    decreases n,
{
    if n <= 0 {
        1
    } else {
        16 * pow16(n - 1)
    }
}

proof fn lemma_pow16_bound(n: int)
    requires
        0 <= n <= 4,
    ensures
        pow16(n) <= 0x10000,
        n <= 3 ==> pow16(n) <= 4096,
{
    reveal_with_fuel(pow16, 5);
}

/// Reads the string value that starts at `cs[from]`.
pub fn unescape_string(d: Dialect, cs: &Vec<char>, from: usize) -> (r: Option<String>)
    ensures
        match unescape_from(d, cs@, from as int) {
            Some(v) => r matches Some(s) && s@ == v,
            None => r is None,
        },
{
    let mut out = String::new();
    let mut i = from;
    while i < cs.len()
        invariant
            from <= i,
            unescape_from(d, cs@, from as int) == prepend(out@, unescape_from(d, cs@, i as int)),
        decreases cs@.len() - i,
    {
        let c = cs[i];
        if c == '"' {
            assert(out@ + Seq::<char>::empty() =~= out@);
            return Some(out);
        } else if c == '\\' {
            if i + 1 >= cs.len() {
                return None;
            }
            let e = cs[i + 1];
            if e == 'u' && d != Dialect::Prompt {
                let end = if cs.len() - (i + 2) < 4 {
                    cs.len()
                } else {
                    i + 6
                };
                let ghost before = out@;
                match parse_hex_exec(cs, i + 2, end) {
                    Some(cp) => match char_from_u32(cp) {
                        Some(ch) => {
                            push_char(&mut out, ch);
                        },
                        None => {},
                    },
                    None => {},
                }
                proof {
                    assert(out@ == before + unicode_out(cs@.subrange(i + 2, end as int)));
                    match unescape_from(d, cs@, end as int) {
                        Some(rest) => {
                            assert(before + (unicode_out(cs@.subrange(i + 2, end as int)) + rest)
                                =~= out@ + rest);
                        },
                        None => {},
                    }
                }
                i = end;
            } else {
                let ghost before = out@;
                push_escape(&mut out, d, e);
                proof {
                    match unescape_from(d, cs@, i + 2) {
                        Some(rest) => {
                            assert(before + (escape_out(d, e) + rest) =~= out@ + rest);
                        },
                        None => {},
                    }
                }
                i = i + 2;
            }
        } else {
            let ghost before = out@;
            push_char(&mut out, c);
            proof {
                match unescape_from(d, cs@, i + 1) {
                    Some(rest) => {
                        assert(before + (seq![c] + rest) =~= out@ + rest);
                    },
                    None => {},
                }
            }
            i = i + 1;
        }
    }
    None
}

/// Relies on `String::from_utf8`: succeeds exactly on valid UTF-8, with the
/// characters it encodes.
#[verifier::external_body]
pub(crate) fn utf8_text(b: &[u8]) -> (r: Option<String>)
    ensures
        r is Some <==> valid_utf8(b@),
        r matches Some(s) ==> s@ == decode_utf8(b@),
{
    String::from_utf8(b.to_vec()).ok()
}

/// `k` is the first position where `pat` occurs in `s`.
pub open spec fn first_occurrence(s: Seq<char>, pat: Seq<char>, k: int) -> bool {
    occurs_at(s, pat, k) && forall|j: int| 0 <= j < k ==> !occurs_at(s, pat, j)
}

/// The value of the string field that `needle` (the key, colon and opening
/// quote) introduces first in `s`.
pub open spec fn field_value(d: Dialect, s: Seq<char>, needle: Seq<char>) -> Option<Seq<char>> {
    if exists|k: int| first_occurrence(s, needle, k) {
        let k = choose|k: int| first_occurrence(s, needle, k);
        unescape_from(d, s, k + needle.len())
    } else {
        None
    }
}

/// The value of the string field that `needle` introduces first in `cs`.
pub fn find_field_value(d: Dialect, cs: &Vec<char>, needle: &Vec<char>) -> (r: Option<String>)
    ensures
        match field_value(d, cs@, needle@) {
            Some(v) => r matches Some(s) && s@ == v,
            None => r is None,
        },
{
    match find_from(cs, needle, 0) {
        Some(k) => {
            proof {
                assert(first_occurrence(cs@, needle@, k as int));
                let k2 = choose|k2: int| first_occurrence(cs@, needle@, k2);
                assert(k2 == k);
            }
            if cs.len() - k < needle.len() {
                return None;
            }
            unescape_string(d, cs, k + needle.len())
        },
        None => {
            assert(!exists|k: int| first_occurrence(cs@, needle@, k));
            None
        },
    }
}

/// `"content":"`
pub open spec fn content_needle() -> Seq<char> {
    seq!['"', 'c', 'o', 'n', 't', 'e', 'n', 't', '"', ':', '"']
}

/// `"prompt":"`
pub open spec fn prompt_needle() -> Seq<char> {
    seq!['"', 'p', 'r', 'o', 'm', 'p', 't', '"', ':', '"']
}

/// The text of a UTF-8 body, if it is valid.
pub open spec fn body_text(b: Seq<u8>) -> Option<Seq<char>> {
    if valid_utf8(b) {
        Some(decode_utf8(b))
    } else {
        None
    }
}

/// The first `"content"` string of a chat-completion body, unescaped.
pub open spec fn completion_content(b: Seq<u8>) -> Option<Seq<char>> {
    match body_text(b) {
        Some(s) => field_value(Dialect::Completion, s, content_needle()),
        None => None,
    }
}

/// The first `"prompt"` string of a request body, unescaped.
pub open spec fn request_prompt(b: Seq<u8>) -> Option<Seq<char>> {
    match body_text(b) {
        Some(s) => field_value(Dialect::Prompt, s, prompt_needle()),
        None => None,
    }
}

/// Extracts the first `"content":"<value>"` from a chat-completion response.
pub fn extract_content(body: &[u8]) -> (r: Option<String>)
    ensures
        match completion_content(body@) {
            Some(v) => r matches Some(s) && s@ == v,
            None => r is None,
        },
{
    let s = match utf8_text(body) {
        Some(s) => s,
        None => return None,
    };
    let cs = chars_of(s.as_str());
    let needle = chars_of("\"content\":\"");
    proof {
        reveal_strlit("\"content\":\"");
        assert(needle@ =~= content_needle());
    }
    find_field_value(Dialect::Completion, &cs, &needle)
}

/// Extracts `"prompt":"<value>"` from a request body.
pub fn extract_prompt(body: &[u8]) -> (r: Option<String>)
    ensures
        match request_prompt(body@) {
            Some(v) => r matches Some(s) && s@ == v,
            None => r is None,
        },
{
    let s = match utf8_text(body) {
        Some(s) => s,
        None => return None,
    };
    let cs = chars_of(s.as_str());
    let needle = chars_of("\"prompt\":\"");
    proof {
        reveal_strlit("\"prompt\":\"");
        assert(needle@ =~= prompt_needle());
    }
    find_field_value(Dialect::Prompt, &cs, &needle)
}

/// The first position of `pat` in `s`, if it occurs.
pub open spec fn find_first(s: Seq<char>, pat: Seq<char>) -> Option<int> {
    if exists|k: int| first_occurrence(s, pat, k) {
        Some(choose|k: int| first_occurrence(s, pat, k))
    } else {
        None
    }
}

/// Finds the first position of `pat` in `cs`.
pub fn find_first_exec(cs: &Vec<char>, pat: &Vec<char>) -> (r: Option<usize>)
    ensures
        match find_first(cs@, pat@) {
            Some(k) => r == Some(k as usize) && k + pat@.len() <= cs@.len(),
            None => r is None,
        },
        r matches Some(x) ==> x + pat@.len() <= cs@.len(),
{
    let n = cs.len();
    match find_from(cs, pat, 0) {
        Some(k) => {
            proof {
                assert(first_occurrence(cs@, pat@, k as int));
                let k2 = choose|k2: int| first_occurrence(cs@, pat@, k2);
                assert(k2 == k);
            }
            Some(k)
        },
        None => {
            assert(!exists|k: int| first_occurrence(cs@, pat@, k));
            None
        },
    }
}

} // verus!
