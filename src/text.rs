//! Text helpers over `Seq<char>` models: UTF-8 byte budgets, whitespace
//! trimming and building strings one character at a time.

use vstd::prelude::*;
use vstd::utf8::*;

verus! {

broadcast use vstd::string::group_string_axioms, vstd::utf8::group_utf8_lib;

/// Number of bytes in the UTF-8 encoding of `s`.
pub open spec fn utf8_len(s: Seq<char>) -> nat {
    encode_utf8(s).len()
}

/// UTF-8 encoding distributes over concatenation.
pub proof fn lemma_encode_utf8_concat(a: Seq<char>, b: Seq<char>)
    ensures
        encode_utf8(a + b) == encode_utf8(a) + encode_utf8(b),
    decreases a.len(),
{
    if a.len() == 0 {
        assert(a + b =~= b);
        assert(encode_utf8(a) + encode_utf8(b) =~= encode_utf8(b));
    } else {
        assert((a + b).drop_first() =~= a.drop_first() + b);
        lemma_encode_utf8_concat(a.drop_first(), b);
        assert((a + b)[0] == a[0]);
        assert(encode_utf8(a + b) =~= encode_scalar(a[0] as u32) + encode_utf8(a.drop_first() + b));
        assert(encode_utf8(a) + encode_utf8(b) =~= encode_scalar(a[0] as u32) + (encode_utf8(
            a.drop_first(),
        ) + encode_utf8(b)));
    }
}

/// Byte length of the first `k + 1` characters from that of the first `k`.
pub proof fn lemma_utf8_len_step(s: Seq<char>, k: int)
    requires
        0 <= k < s.len(),
    ensures
        utf8_len(s.subrange(0, k + 1)) == utf8_len(s.subrange(0, k)) + encode_scalar(
            s[k] as u32,
        ).len(),
{
    let a = s.subrange(0, k);
    let b = seq![s[k]];
    assert(s.subrange(0, k + 1) =~= a + b);
    lemma_encode_utf8_concat(a, b);
    assert(b.drop_first() =~= Seq::<char>::empty());
    assert(encode_utf8(Seq::<char>::empty()) =~= Seq::<u8>::empty());
    assert(encode_utf8(b) =~= encode_scalar(s[k] as u32));
}

/// Byte length of a prefix never exceeds that of a longer prefix.
pub proof fn lemma_utf8_len_mono(s: Seq<char>, j: int, k: int)
    requires
        0 <= j <= k <= s.len(),
    ensures
        utf8_len(s.subrange(0, j)) <= utf8_len(s.subrange(0, k)),
    decreases k - j,
{
    if j < k {
        lemma_utf8_len_step(s, k - 1);
        lemma_utf8_len_mono(s, j, k - 1);
    }
}

/// Number of bytes that `c` takes in UTF-8.
pub fn char_width(c: char) -> (r: usize)
    ensures
        r == encode_scalar(c as u32).len(),
        1 <= r <= 4,
{
    let v = c as u32;
    proof {
        char_is_scalar(c);
    }
    if v < 0x80 {
        1
    } else if v < 0x800 {
        2
    } else if v < 0x10000 {
        3
    } else {
        4
    }
}

/// The characters of `s`, in order.
pub fn chars_of(s: &str) -> (r: Vec<char>)
    ensures
        r@ == s@,
{
    let mut out: Vec<char> = Vec::new();
    for c in it: s.chars()
        invariant
            out@ == it.seq().subrange(0, it.index() as int),
            it.seq() == s@,
    {
        out.push(c);
    }
    out
}

/// Relies on `String::push`: appends one character at the end.
#[verifier::external_body]
pub(crate) fn push_char(s: &mut String, c: char)
    ensures
        final(s)@ == old(s)@.push(c),
{
    s.push(c);
}

/// Relies on `String::push_str`: appends a string slice at the end.
#[verifier::external_body]
pub(crate) fn push_text(s: &mut String, t: &str)
    ensures
        final(s)@ == old(s)@ + t@,
{
    s.push_str(t);
}

/// Appends the characters `cs[from..to]` to `s`.
pub fn push_chars(s: &mut String, cs: &Vec<char>, from: usize, to: usize)
    requires
        from <= to <= cs@.len(),
    ensures
        final(s)@ == old(s)@ + cs@.subrange(from as int, to as int),
{
    let mut i = from;
    while i < to
        invariant
            from <= i <= to <= cs@.len(),
            s@ == old(s)@ + cs@.subrange(from as int, i as int),
        decreases to - i,
    {
        push_char(s, cs[i]);
        assert(cs@.subrange(from as int, i + 1) =~= cs@.subrange(from as int, i as int).push(
            cs@[i as int],
        ));
        i = i + 1;
    }
}

/// A string holding the characters `cs[from..to]`.
pub fn string_of(cs: &Vec<char>, from: usize, to: usize) -> (r: String)
    requires
        from <= to <= cs@.len(),
    ensures
        r@ == cs@.subrange(from as int, to as int),
{
    let mut r = String::new();
    push_chars(&mut r, cs, from, to);
    assert(Seq::<char>::empty() + cs@.subrange(from as int, to as int) =~= cs@.subrange(
        from as int,
        to as int,
    ));
    r
}

/// How many leading characters of `s` fit in `max` bytes of UTF-8.
pub open spec fn fit_count(s: Seq<char>, max: nat) -> nat
    decreases s.len(),
{
    if utf8_len(s) <= max || s.len() == 0 {
        s.len()
    } else {
        fit_count(s.drop_last(), max)
    }
}

/// The longest character prefix of `s` whose UTF-8 encoding fits in `max` bytes.
pub open spec fn truncated(s: Seq<char>, max: nat) -> Seq<char> {
    s.subrange(0, fit_count(s, max) as int)
}

/// `fit_count` is the largest count whose prefix fits.
pub proof fn lemma_fit_count(s: Seq<char>, max: nat)
    ensures
        fit_count(s, max) <= s.len(),
        utf8_len(s.subrange(0, fit_count(s, max) as int)) <= max,
        fit_count(s, max) < s.len() ==> utf8_len(s.subrange(0, (fit_count(s, max) + 1) as int)) > max,
    decreases s.len(),
{
    assert(s.subrange(0, s.len() as int) =~= s);
    if utf8_len(s) <= max || s.len() == 0 {
        assert(s.subrange(0, 0) =~= Seq::<char>::empty());
    } else {
        let t = s.drop_last();
        lemma_fit_count(t, max);
        let k = fit_count(t, max);
        assert(t.subrange(0, k as int) =~= s.subrange(0, k as int));
        if k < t.len() {
            assert(t.subrange(0, (k + 1) as int) =~= s.subrange(0, (k + 1) as int));
        } else {
            assert(t =~= s.subrange(0, k as int));
        }
    }
}

/// A truncated text fits its budget and is a prefix of the text.
pub proof fn lemma_truncated_fits(s: Seq<char>, max: nat)
    ensures
        utf8_len(truncated(s, max)) <= max,
        truncated(s, max).is_prefix_of(s),
{
    lemma_fit_count(s, max);
}

/// A prefix count with the two properties of `fit_count` is `fit_count`.
pub proof fn lemma_fit_count_unique(s: Seq<char>, max: nat, k: nat)
    requires
        k <= s.len(),
        utf8_len(s.subrange(0, k as int)) <= max,
        k < s.len() ==> utf8_len(s.subrange(0, (k + 1) as int)) > max,
    ensures
        fit_count(s, max) == k,
{
    lemma_fit_count(s, max);
    let f = fit_count(s, max);
    if f < k {
        lemma_utf8_len_mono(s, (f + 1) as int, k as int);
    } else if k < f {
        lemma_utf8_len_mono(s, (k + 1) as int, f as int);
    }
}

/// Cuts `s` to at most `max_bytes` bytes of UTF-8, on a character boundary,
/// keeping as many leading characters as fit.
pub fn truncate_utf8(s: &str, max_bytes: usize) -> (r: String)
    ensures
        r@ == truncated(s@, max_bytes as nat),
        utf8_len(r@) <= max_bytes,
        r@.is_prefix_of(s@),
        r@ == s@ <==> utf8_len(s@) <= max_bytes,
{
    let cs = chars_of(s);
    let mut k: usize = 0;
    let mut used: usize = 0;
    let mut full = false;
    while k < cs.len() && !full
        invariant
            cs@ == s@,
            k <= cs@.len(),
            used == utf8_len(cs@.subrange(0, k as int)),
            used <= max_bytes,
            full ==> k < cs@.len() && utf8_len(cs@.subrange(0, k + 1)) > max_bytes,
        decreases cs@.len() - k + (if full { 0int } else { 1int }),
    {
        let w = char_width(cs[k]);
        proof {
            lemma_utf8_len_step(cs@, k as int);
        }
        if w > max_bytes - used {
            full = true;
        } else {
            used = used + w;
            k = k + 1;
        }
    }
    proof {
        lemma_fit_count_unique(s@, max_bytes as nat, k as nat);
        lemma_fit_count(s@, max_bytes as nat);
        assert(s@.subrange(0, s@.len() as int) =~= s@);
    }
    string_of(&cs, 0, k)
}

/// Unicode `White_Space`, the set that `char::is_whitespace` tests.
pub open spec fn is_ws(c: char) -> bool {
    let v = c as u32;
    (0x09 <= v <= 0x0D) || v == 0x20 || v == 0x85 || v == 0xA0 || v == 0x1680 || (0x2000 <= v
        <= 0x200A) || v == 0x2028 || v == 0x2029 || v == 0x202F || v == 0x205F || v == 0x3000
}

pub fn is_whitespace(c: char) -> (r: bool)
    ensures
        r == is_ws(c),
{
    let v = c as u32;
    (0x09 <= v && v <= 0x0D) || v == 0x20 || v == 0x85 || v == 0xA0 || v == 0x1680 || (0x2000
        <= v && v <= 0x200A) || v == 0x2028 || v == 0x2029 || v == 0x202F || v == 0x205F || v
        == 0x3000
}

/// `s` without leading whitespace.
pub open spec fn trim_start(s: Seq<char>) -> Seq<char>
    decreases s.len(),
{
    if s.len() > 0 && is_ws(s[0]) {
        trim_start(s.drop_first())
    } else {
        s
    }
}

/// `s` without trailing whitespace.
pub open spec fn trim_end(s: Seq<char>) -> Seq<char>
    decreases s.len(),
{
    if s.len() > 0 && is_ws(s.last()) {
        trim_end(s.drop_last())
    } else {
        s
    }
}

/// `s` without leading or trailing whitespace.
pub open spec fn trim(s: Seq<char>) -> Seq<char> {
    trim_end(trim_start(s))
}

pub proof fn lemma_trim_start_from(s: Seq<char>, i: int)
    requires
        0 <= i <= s.len(),
        forall|j: int| 0 <= j < i ==> is_ws(#[trigger] s[j]),
    ensures
        trim_start(s) == trim_start(s.subrange(i, s.len() as int)),
    decreases i,
{
    if i > 0 {
        assert(s.drop_first().subrange(i - 1, s.drop_first().len() as int) =~= s.subrange(
            i,
            s.len() as int,
        ));
        lemma_trim_start_from(s.drop_first(), i - 1);
    } else {
        assert(s.subrange(0, s.len() as int) =~= s);
    }
}

proof fn lemma_trim_end_to(s: Seq<char>, k: int)
    requires
        0 <= k <= s.len(),
        forall|j: int| k <= j < s.len() ==> is_ws(#[trigger] s[j]),
    ensures
        trim_end(s) == trim_end(s.subrange(0, k)),
    decreases s.len() - k,
{
    if k < s.len() {
        assert(s.drop_last().subrange(0, k) =~= s.subrange(0, k));
        lemma_trim_end_to(s.drop_last(), k);
    } else {
        assert(s.subrange(0, s.len() as int) =~= s);
    }
}

/// The bounds `[a, b)` of `cs[from..to]` once whitespace is trimmed from both ends.
pub fn trim_bounds(cs: &Vec<char>, from: usize, to: usize) -> (r: (usize, usize))
    requires
        from <= to <= cs@.len(),
    ensures
        from <= r.0 <= r.1 <= to,
        cs@.subrange(r.0 as int, r.1 as int) == trim(cs@.subrange(from as int, to as int)),
{
    let ghost s = cs@.subrange(from as int, to as int);
    let mut a = from;
    while a < to && is_whitespace(cs[a])
        invariant
            from <= a <= to <= cs@.len(),
            forall|j: int| from <= j < a ==> is_ws(#[trigger] cs@[j]),
        decreases to - a,
    {
        a = a + 1;
    }
    proof {
        assert forall|j: int| 0 <= j < a - from implies is_ws(#[trigger] s[j]) by {
            assert(s[j] == cs@[from + j]);
        }
        lemma_trim_start_from(s, a - from);
        assert(s.subrange(a - from, s.len() as int) =~= cs@.subrange(a as int, to as int));
        if a < to {
            assert(cs@.subrange(a as int, to as int)[0] == cs@[a as int]);
        }
    }
    let mut b = to;
    while b > a && is_whitespace(cs[b - 1])
        invariant
            from <= a <= b <= to <= cs@.len(),
            forall|j: int| b <= j < to ==> is_ws(#[trigger] cs@[j]),
        decreases b - a,
    {
        b = b - 1;
    }
    proof {
        let t = cs@.subrange(a as int, to as int);
        assert forall|j: int| b - a <= j < t.len() implies is_ws(#[trigger] t[j]) by {
            assert(t[j] == cs@[a + j]);
        }
        lemma_trim_end_to(t, b - a);
        assert(t.subrange(0, b - a) =~= cs@.subrange(a as int, b as int));
        if b > a {
            assert(cs@.subrange(a as int, b as int).last() == cs@[b - 1]);
        }
    }
    (a, b)
}

/// The pieces of `s` between occurrences of `sep`, as `str::split` gives them.
pub open spec fn split_on(s: Seq<char>, sep: char) -> Seq<Seq<char>>
    decreases s.len(),
{
    if s.len() == 0 {
        seq![Seq::empty()]
    } else {
        let init = split_on(s.drop_last(), sep);
        if s.last() == sep {
            init.push(Seq::empty())
        } else {
            init.update(init.len() - 1, init.last().push(s.last()))
        }
    }
}

/// How `split_on` grows by one character, seen from the piece being built.
pub proof fn lemma_split_on_step(cs: Seq<char>, sep: char, i: int, start: int, done: Seq<Seq<char>>)
    requires
        0 <= start <= i < cs.len(),
        split_on(cs.subrange(0, i), sep) == done.push(cs.subrange(start, i)),
    ensures
        cs[i] == sep ==> split_on(cs.subrange(0, i + 1), sep) == done.push(
            cs.subrange(start, i),
        ).push(cs.subrange(i + 1, i + 1)),
        cs[i] != sep ==> split_on(cs.subrange(0, i + 1), sep) == done.push(
            cs.subrange(start, i + 1),
        ),
{
    let s = cs.subrange(0, i + 1);
    assert(s.drop_last() =~= cs.subrange(0, i));
    assert(s.last() == cs[i]);
    assert(cs.subrange(i + 1, i + 1) =~= Seq::<char>::empty());
    if cs[i] != sep {
        assert(cs.subrange(start, i).push(cs[i]) =~= cs.subrange(start, i + 1));
        assert(done.push(cs.subrange(start, i)).update(done.len() as int, cs.subrange(start, i + 1))
            =~= done.push(cs.subrange(start, i + 1)));
    }
}

/// Whether `pat` occurs in `s` starting at `i`.
pub open spec fn occurs_at(s: Seq<char>, pat: Seq<char>, i: int) -> bool {
    0 <= i && i + pat.len() <= s.len() && s.subrange(i, i + pat.len()) == pat
}

/// Whether `pat` occurs anywhere in `s`.
pub open spec fn contains(s: Seq<char>, pat: Seq<char>) -> bool {
    exists|i: int| occurs_at(s, pat, i)
}

pub fn matches_at(s: &Vec<char>, pat: &Vec<char>, i: usize) -> (r: bool)
    ensures
        r == occurs_at(s@, pat@, i as int),
{
    if i > s.len() || s.len() - i < pat.len() {
        return false;
    }
    let n = s.len();
    let mut k: usize = 0;
    while k < pat.len()
        invariant
            n == s@.len(),
            i + pat@.len() <= s@.len(),
            k <= pat@.len(),
            forall|j: int| 0 <= j < k ==> s@[i + j] == pat@[j],
        decreases pat@.len() - k,
    {
        if s[i + k] != pat[k] {
            assert(s@.subrange(i as int, i + pat@.len())[k as int] != pat@[k as int]);
            return false;
        }
        k = k + 1;
    }
    assert(s@.subrange(i as int, i + pat@.len()) =~= pat@);
    true
}

/// The first position at or after `from` where `pat` occurs.
pub fn find_from(s: &Vec<char>, pat: &Vec<char>, from: usize) -> (r: Option<usize>)
    ensures
        r matches Some(i) ==> from <= i && occurs_at(s@, pat@, i as int) && forall|j: int|
            from <= j < i ==> !occurs_at(s@, pat@, j),
        r is None ==> forall|j: int| from <= j ==> !occurs_at(s@, pat@, j),
{
    let mut i = from;
    while i < s.len()
        invariant
            from <= i,
            forall|j: int| from <= j < i ==> !occurs_at(s@, pat@, j),
        decreases s@.len() - i,
    {
        if matches_at(s, pat, i) {
            return Some(i);
        }
        i = i + 1;
    }
    if matches_at(s, pat, i) {
        return Some(i);
    }
    None
}

/// Whether `pat` occurs in `s`.
pub fn contains_chars(s: &Vec<char>, pat: &Vec<char>) -> (r: bool)
    ensures
        r == contains(s@, pat@),
{
    match find_from(s, pat, 0) {
        Some(i) => true,
        None => false,
    }
}

/// Whether two texts hold the same characters.
pub fn text_eq(a: &str, b: &str) -> (r: bool)
    ensures
        r == (a@ == b@),
{
    let x = chars_of(a);
    let y = chars_of(b);
    if x.len() != y.len() {
        return false;
    }
    let mut i: usize = 0;
    while i < x.len()
        invariant
            x@ == a@,
            y@ == b@,
            x@.len() == y@.len(),
            i <= x@.len(),
            forall|j: int| 0 <= j < i ==> x@[j] == y@[j],
        decreases x@.len() - i,
    {
        if x[i] != y[i] {
            return false;
        }
        i = i + 1;
    }
    assert(x@ =~= y@);
    true
}

/// The first position at or after `from` that is not whitespace, or `to`.
pub fn skip_whitespace(cs: &Vec<char>, from: usize, to: usize) -> (r: usize)
    requires
        from <= to <= cs@.len(),
    ensures
        from <= r <= to,
        cs@.subrange(r as int, to as int) == trim_start(cs@.subrange(from as int, to as int)),
{
    let ghost s = cs@.subrange(from as int, to as int);
    let mut a = from;
    while a < to && is_whitespace(cs[a])
        invariant
            from <= a <= to <= cs@.len(),
            forall|j: int| from <= j < a ==> is_ws(#[trigger] cs@[j]),
        decreases to - a,
    {
        a = a + 1;
    }
    proof {
        assert forall|j: int| 0 <= j < a - from implies is_ws(#[trigger] s[j]) by {
            assert(s[j] == cs@[from + j]);
        }
        lemma_trim_start_from(s, a - from);
        let t = s.subrange(a - from, s.len() as int);
        assert(t =~= cs@.subrange(a as int, to as int));
        if a < to {
            assert(t[0] == cs@[a as int]);
        }
        assert(trim_start(t) == t);
    }
    a
}

/// A copy of `cs[from..to]`.
pub fn sub_chars(cs: &Vec<char>, from: usize, to: usize) -> (r: Vec<char>)
    requires
        from <= to <= cs@.len(),
    ensures
        r@ == cs@.subrange(from as int, to as int),
{
    let mut out: Vec<char> = Vec::new();
    let mut i = from;
    while i < to
        invariant
            from <= i <= to <= cs@.len(),
            out@ == cs@.subrange(from as int, i as int),
        decreases to - i,
    {
        out.push(cs[i]);
        assert(out@ =~= cs@.subrange(from as int, i + 1));
        i = i + 1;
    }
    out
}

/// Whether the UTF-8 encoding of `s` takes at most `max` bytes.
pub fn fits_bytes(s: &str, max: usize) -> (r: bool)
    ensures
        r == (utf8_len(s@) <= max),
{
    let t = truncate_utf8(s, max);
    text_eq(t.as_str(), s)
}

/// Whether `s` starts with `prefix`.
pub fn starts_with_text(s: &str, prefix: &str) -> (r: bool)
    ensures
        r == occurs_at(s@, prefix@, 0),
{
    matches_at(&chars_of(s), &chars_of(prefix), 0)
}

} // verus!
