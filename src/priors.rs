//! The behavioural priors tier: a turn count and three integer moving
//! averages, kept as `n=<count>|al=<avgLen>|qr=<questionRate>|cr=<codeRate>`
//! and updated on every user message without any outside call.

use vstd::prelude::*;
use crate::codec::text_fits;
use crate::records::{PicoState, PicoStateModel};
use crate::text::{
    chars_of, contains, contains_chars, lemma_split_on_step,
    push_char, split_on, trim, trim_bounds, truncate_utf8, truncated, utf8_len,
};

verus! {

broadcast use vstd::string::group_string_axioms, vstd::utf8::group_utf8_lib;

/// Byte budget of the priors tier.
pub const MAX_PRIORS_CHARS: usize = 128;

/// Turn count, average length, question rate and code rate.
pub type PriorCounts = (u32, u32, u32, u32);

pub open spec fn is_digit(c: char) -> bool {
    '0' <= c <= '9'
}

pub open spec fn digit_value(c: char) -> nat {
    (c as u32 - '0' as u32) as nat
}

/// The number that a string of decimal digits writes.
pub open spec fn digits_value(d: Seq<char>) -> nat
    decreases d.len(),
{
    if d.len() == 0 {
        0
    } else {
        digits_value(d.drop_last()) * 10 + digit_value(d.last())
    }
}

/// `s` without one leading `+`.
pub open spec fn unsigned_digits(s: Seq<char>) -> Seq<char> {
    if s.len() > 0 && s[0] == '+' {
        s.drop_first()
    } else {
        s
    }
}

pub open spec fn all_digits(d: Seq<char>) -> bool {
    forall|i: int| 0 <= i < d.len() ==> is_digit(#[trigger] d[i])
}

/// What `str::parse::<u32>` accepts: an optional `+`, then one or more
/// decimal digits whose value fits.
pub open spec fn parse_u32_spec(s: Seq<char>) -> Option<u32> {
    let d = unsigned_digits(s);
    if d.len() > 0 && all_digits(d) && digits_value(d) <= u32::MAX {
        Some(digits_value(d) as u32)
    } else {
        None
    }
}

proof fn lemma_digits_value_mono(d: Seq<char>, k: int)
    requires
        0 <= k <= d.len(),
    ensures
        digits_value(d.subrange(0, k)) <= digits_value(d),
    decreases d.len() - k,
{
    if k < d.len() {
        assert(d.drop_last().subrange(0, k) =~= d.subrange(0, k));
        lemma_digits_value_mono(d.drop_last(), k);
    } else {
        assert(d.subrange(0, k) =~= d);
    }
}

/// Parses `cs[from..to]` as a `u32`.
pub fn parse_u32(cs: &Vec<char>, from: usize, to: usize) -> (r: Option<u32>)
    requires
        from <= to <= cs@.len(),
    ensures
        r == parse_u32_spec(cs@.subrange(from as int, to as int)),
{
    let ghost s = cs@.subrange(from as int, to as int);
    let mut a = from;
    if a < to && cs[a] == '+' {
        a = a + 1;
    }
    let ghost d = cs@.subrange(a as int, to as int);
    proof {
        if s.len() > 0 && s[0] == '+' {
            assert(s.drop_first() =~= d);
        } else {
            assert(s =~= d);
        }
    }
    if a == to {
        return None;
    }
    let mut v: u64 = 0;
    let mut i = a;
    while i < to
        invariant
            from <= a <= i <= to <= cs@.len(),
            d == cs@.subrange(a as int, to as int),
            s == cs@.subrange(from as int, to as int),
            d == unsigned_digits(s),
            forall|j: int| a <= j < i ==> is_digit(#[trigger] cs@[j]),
            v == digits_value(cs@.subrange(a as int, i as int)),
            v <= u32::MAX,
        decreases to - i,
    {
        let c = cs[i];
        if !('0' <= c && c <= '9') {
            assert(!is_digit(d[i - a]));
            return None;
        }
        let ghost p = cs@.subrange(a as int, i + 1);
        assert(p.drop_last() =~= cs@.subrange(a as int, i as int));
        v = v * 10 + (c as u32 - '0' as u32) as u64;
        if v > 0xFFFF_FFFF {
            proof {
                assert(p =~= d.subrange(0, i + 1 - a));
                lemma_digits_value_mono(d, i + 1 - a);
            }
            return None;
        }
        i = i + 1;
    }
    assert(cs@.subrange(a as int, i as int) =~= d);
    assert forall|j: int| 0 <= j < d.len() implies is_digit(#[trigger] d[j]) by {
        assert(d[j] == cs@[a + j]);
    }
    Some(v as u32)
}

/// `k` is the first position of `c` in `s`.
pub open spec fn first_at(s: Seq<char>, c: char, k: int) -> bool {
    0 <= k < s.len() && s[k] == c && forall|j: int| 0 <= j < k ==> s[j] != c
}

/// One `key=value` field applied to the counts; a field without `=` or with
/// another key changes nothing, and a value that does not parse counts as 0.
pub open spec fn prior_field(acc: PriorCounts, seg: Seq<char>) -> PriorCounts {
    if exists|k: int| first_at(seg, '=', k) {
        let k = choose|k: int| first_at(seg, '=', k);
        let key = trim(seg.subrange(0, k));
        let v = match parse_u32_spec(seg.subrange(k + 1, seg.len() as int)) {
            Some(x) => x,
            None => 0,
        };
        if key == seq!['n'] {
            (v, acc.1, acc.2, acc.3)
        } else if key == seq!['a', 'l'] {
            (acc.0, v, acc.2, acc.3)
        } else if key == seq!['q', 'r'] {
            (acc.0, acc.1, v, acc.3)
        } else if key == seq!['c', 'r'] {
            (acc.0, acc.1, acc.2, v)
        } else {
            acc
        }
    } else {
        acc
    }
}

pub open spec fn fold_prior_fields(segs: Seq<Seq<char>>) -> PriorCounts
    decreases segs.len(),
{
    if segs.len() == 0 {
        (0, 0, 0, 0)
    } else {
        prior_field(fold_prior_fields(segs.drop_last()), segs.last())
    }
}

/// The counts that a priors text holds, fields separated by `|`.
pub open spec fn priors_of(s: Seq<char>) -> PriorCounts {
    fold_prior_fields(split_on(s, '|'))
}

fn apply_prior_field(acc: PriorCounts, cs: &Vec<char>, from: usize, to: usize) -> (r: PriorCounts)
    requires
        from <= to <= cs@.len(),
    ensures
        r == prior_field(acc, cs@.subrange(from as int, to as int)),
{
    let ghost seg = cs@.subrange(from as int, to as int);
    let mut k = from;
    while k < to && cs[k] != '='
        invariant
            from <= k <= to <= cs@.len(),
            forall|j: int| from <= j < k ==> cs@[j] != '=',
        decreases to - k,
    {
        k = k + 1;
    }
    if k == to {
        assert forall|k2: int| !first_at(seg, '=', k2) by {
            if 0 <= k2 < seg.len() {
                assert(seg[k2] == cs@[from + k2]);
            }
        }
        return acc;
    }
    proof {
        assert(first_at(seg, '=', k - from)) by {
            assert forall|j: int| 0 <= j < k - from implies seg[j] != '=' by {
                assert(seg[j] == cs@[from + j]);
            }
        }
        let k2 = choose|k2: int| first_at(seg, '=', k2);
        if k2 < k - from {
            assert(seg[k2] == cs@[from + k2]);
        } else if k2 > k - from {
        }
        assert(k2 == k - from);
        assert(seg.subrange(0, k - from) =~= cs@.subrange(from as int, k as int));
        assert(seg.subrange(k - from + 1, seg.len() as int) =~= cs@.subrange(k + 1, to as int));
    }
    let (a, b) = trim_bounds(cs, from, k);
    let v = match parse_u32(cs, k + 1, to) {
        Some(x) => x,
        None => 0,
    };
    let ghost key = cs@.subrange(a as int, b as int);
    if b - a == 1 && cs[a] == 'n' {
        assert(key =~= seq!['n']);
        (v, acc.1, acc.2, acc.3)
    } else if b - a == 2 && cs[a] == 'a' && cs[a + 1] == 'l' {
        assert(key =~= seq!['a', 'l']);
        (acc.0, v, acc.2, acc.3)
    } else if b - a == 2 && cs[a] == 'q' && cs[a + 1] == 'r' {
        assert(key =~= seq!['q', 'r']);
        (acc.0, acc.1, v, acc.3)
    } else if b - a == 2 && cs[a] == 'c' && cs[a + 1] == 'r' {
        assert(key =~= seq!['c', 'r']);
        (acc.0, acc.1, acc.2, v)
    } else {
        assert(key != seq!['n'] && key != seq!['a', 'l'] && key != seq!['q', 'r'] && key != seq![
            'c',
            'r',
        ]) by {
            if key.len() == 1 {
                assert(key[0] == cs@[a as int]);
            } else if key.len() == 2 {
                assert(key[0] == cs@[a as int]);
                assert(key[1] == cs@[a + 1]);
            }
        }
        acc
    }
}

/// Reads the counts from a priors text.
pub fn parse_priors(s: &str) -> (r: PriorCounts)
    ensures
        r == priors_of(s@),
{
    let cs = chars_of(s);
    let mut acc: PriorCounts = (0, 0, 0, 0);
    let mut start: usize = 0;
    let mut i: usize = 0;
    let ghost mut done: Seq<Seq<char>> = Seq::empty();
    assert(cs@.subrange(0, 0) =~= Seq::<char>::empty());
    assert(split_on(Seq::<char>::empty(), '|') == done.push(cs@.subrange(0, 0)));
    while i < cs.len()
        invariant
            cs@ == s@,
            start <= i <= cs@.len(),
            split_on(cs@.subrange(0, i as int), '|') == done.push(cs@.subrange(start as int, i as int)),
            acc == fold_prior_fields(done),
        decreases cs@.len() - i,
    {
        proof {
            lemma_split_on_step(cs@, '|', i as int, start as int, done);
        }
        if cs[i] == '|' {
            acc = apply_prior_field(acc, &cs, start, i);
            proof {
                assert(done.push(cs@.subrange(start as int, i as int)).drop_last() =~= done);
                done = done.push(cs@.subrange(start as int, i as int));
            }
            start = i + 1;
        }
        i = i + 1;
    }
    let r = apply_prior_field(acc, &cs, start, i);
    proof {
        let segs = done.push(cs@.subrange(start as int, i as int));
        assert(segs.drop_last() =~= done);
        assert(cs@.subrange(0, i as int) =~= s@);
    }
    r
}

/// Writes `v` in decimal.
pub open spec fn decimal(v: nat) -> Seq<char>
    decreases v,
{
    if v < 10 {
        seq![digit_char(v)]
    } else {
        decimal(v / 10).push(digit_char(v % 10))
    }
}

pub open spec fn digit_char(d: nat) -> char {
    ((d + 48) as u8) as char
}

/// Appends `v` in decimal.
pub fn push_decimal(s: &mut String, v: u128)
    ensures
        final(s)@ == old(s)@ + decimal(v as nat),
    decreases v,
{
    if v >= 10 {
        push_decimal(s, v / 10);
    }
    let d = (v % 10) as u8 + 48u8;
    push_char(s, d as char);
    assert(final(s)@ =~= old(s)@ + decimal(v as nat));
}

/// The priors text for the given counts.
pub open spec fn priors_text(p: PriorCounts) -> Seq<char> {
    seq!['n', '='] + decimal(p.0 as nat) + seq!['|', 'a', 'l', '='] + decimal(p.1 as nat) + seq![
        '|',
        'q',
        'r',
        '=',
    ] + decimal(p.2 as nat) + seq!['|', 'c', 'r', '='] + decimal(p.3 as nat)
}

fn push_lit(s: &mut String, a: char, b: char, c: char, d: char, n: usize)
    requires
        1 <= n <= 4,
    ensures
        final(s)@ == old(s)@ + seq![a, b, c, d].subrange(0, n as int),
{
    push_char(s, a);
    if n > 1 {
        push_char(s, b);
    }
    if n > 2 {
        push_char(s, c);
    }
    if n > 3 {
        push_char(s, d);
    }
    assert(final(s)@ =~= old(s)@ + seq![a, b, c, d].subrange(0, n as int));
}

/// Writes the counts as a priors text.
pub fn format_priors(p: PriorCounts) -> (r: String)
    ensures
        r@ == priors_text(p),
{
    let mut s = String::new();
    push_lit(&mut s, 'n', '=', ' ', ' ', 2);
    push_decimal(&mut s, p.0 as u128);
    push_lit(&mut s, '|', 'a', 'l', '=', 4);
    push_decimal(&mut s, p.1 as u128);
    push_lit(&mut s, '|', 'q', 'r', '=', 4);
    push_decimal(&mut s, p.2 as u128);
    push_lit(&mut s, '|', 'c', 'r', '=', 4);
    push_decimal(&mut s, p.3 as u128);
    assert(seq!['n', '=', ' ', ' '].subrange(0, 2) =~= seq!['n', '=']);
    assert(seq!['|', 'a', 'l', '='].subrange(0, 4) =~= seq!['|', 'a', 'l', '=']);
    assert(seq!['|', 'q', 'r', '='].subrange(0, 4) =~= seq!['|', 'q', 'r', '=']);
    assert(seq!['|', 'c', 'r', '='].subrange(0, 4) =~= seq!['|', 'c', 'r', '=']);
    assert(s@ =~= priors_text(p));
    s
}

/// Integer moving average: `(old * 85 + sample * 15) / 100`, truncating.
pub open spec fn ema(old: u32, sample: u32) -> u32 {
    ((old * 85 + sample * 15) / 100) as u32
}

/// Whether a message carries code: it holds a fenced block marker. The
/// signal is deliberately language-neutral; no keyword of any one
/// programming language counts.
pub open spec fn code_signal(msg: Seq<char>) -> bool {
    contains(msg, seq!['`', '`', '`'])
}

/// The counts after observing one user message. The first observation seeds
/// the averages with the raw samples; the count stops at its maximum.
pub open spec fn observe(p: PriorCounts, msg: Seq<char>) -> PriorCounts {
    let len = utf8_len(msg) as u32;
    let q: u32 = if msg.contains('?') {
        100
    } else {
        0
    };
    let c: u32 = if code_signal(msg) {
        100
    } else {
        0
    };
    let n = if p.0 < u32::MAX {
        (p.0 + 1) as u32
    } else {
        p.0
    };
    if p.0 == 0 {
        (n, len, q, c)
    } else {
        (n, ema(p.1, len), ema(p.2, q), ema(p.3, c))
    }
}

/// The priors tier after a user message.
pub open spec fn priors_after(old: Seq<char>, msg: Seq<char>) -> Seq<char> {
    truncated(priors_text(observe(priors_of(old), msg)), MAX_PRIORS_CHARS as nat)
}

fn ema_exec(old: u32, sample: u32) -> (r: u32)
    ensures
        r == ema(old, sample),
{
    let v = (old as u64 * 85 + sample as u64 * 15) / 100;
    assert(v <= u32::MAX) by (nonlinear_arith)
        requires
            v == (old as u64 * 85 + sample as u64 * 15) / 100,
            old <= u32::MAX,
            sample <= u32::MAX,
    ;
    v as u32
}

fn lit4(a: char, b: char, c: char, d: char, n: usize) -> (r: Vec<char>)
    requires
        1 <= n <= 4,
    ensures
        r@ == seq![a, b, c, d].subrange(0, n as int),
{
    let mut v: Vec<char> = Vec::new();
    v.push(a);
    if n > 1 {
        v.push(b);
    }
    if n > 2 {
        v.push(c);
    }
    if n > 3 {
        v.push(d);
    }
    assert(v@ =~= seq![a, b, c, d].subrange(0, n as int));
    v
}

/// The counts after observing `msg`.
pub fn observe_message(p: PriorCounts, msg: &str) -> (r: PriorCounts)
    requires
        text_fits(msg@),
    ensures
        r == observe(p, msg@),
{
    let cs = chars_of(msg);
    let len = msg.len() as u32;
    let mut has_q = false;
    let mut i: usize = 0;
    while i < cs.len()
        invariant
            cs@ == msg@,
            i <= cs@.len(),
            has_q == (exists|j: int| 0 <= j < i && cs@[j] == '?'),
        decreases cs@.len() - i,
    {
        if cs[i] == '?' {
            has_q = true;
        }
        i = i + 1;
    }
    let q: u32 = if has_q {
        100
    } else {
        0
    };
    let code = contains_chars(&cs, &lit4('`', '`', '`', ' ', 3));
    assert(seq!['`', '`', '`', ' '].subrange(0, 3) =~= seq!['`', '`', '`']);
    let c: u32 = if code {
        100
    } else {
        0
    };
    let n = if p.0 < u32::MAX {
        p.0 + 1
    } else {
        p.0
    };
    if p.0 == 0 {
        (n, len, q, c)
    } else {
        (n, ema_exec(p.1, len), ema_exec(p.2, q), ema_exec(p.3, c))
    }
}

/// Updates the priors tier of `state` for one user message; every other
/// tier and field stays as it was.
pub fn update_priors(state: &mut PicoState, user_msg: &str)
    requires
        text_fits(user_msg@),
    ensures
        final(state)@ == (PicoStateModel { priors: priors_after(old(state)@.priors, user_msg@), ..old(state)@ }),
{
    let counts = parse_priors(state.priors.as_str());
    let next = observe_message(counts, user_msg);
    let text = format_priors(next);
    state.priors = truncate_utf8(text.as_str(), MAX_PRIORS_CHARS);
}

} // verus!
