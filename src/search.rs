//! The news-feed fallback of a web search: the query as a feed URL, and
//! the numbered headlines read back from the feed.

use vstd::prelude::*;
use crate::priors::{decimal, push_decimal};
use crate::text::{chars_of, find_from, occurs_at, push_char, push_chars, push_text};

verus! {

broadcast use vstd::string::group_string_axioms, vstd::utf8::group_utf8_lib;

/// Most headlines a search reports.
pub const MAX_HEADLINES: u32 = 10;

pub open spec fn hex_upper(d: nat) -> char {
    if d < 10 {
        ((d + 48) as u8) as char
    } else {
        ((d + 55) as u8) as char
    }
}

/// `v` in uppercase hexadecimal, without leading zeros.
pub open spec fn upper_hex(v: nat) -> Seq<char>
    decreases v,
{
    if v < 16 {
        seq![hex_upper(v)]
    } else {
        upper_hex(v / 16).push(hex_upper(v % 16))
    }
}

/// How one query character is written in the feed URL: unreserved ASCII as
/// itself, a space as `+`, anything else as `%` and its code point in
/// uppercase hex, at least two digits.
pub open spec fn encode_query_char(c: char) -> Seq<char> {
    let v = c as u32;
    if ('a' <= c <= 'z') || ('A' <= c <= 'Z') || ('0' <= c <= '9') || c == '-' || c == '_' || c
        == '.' || c == '~' {
        seq![c]
    } else if c == ' ' {
        seq!['+']
    } else if v < 16 {
        seq!['%', '0', hex_upper(v as nat)]
    } else {
        seq!['%'] + upper_hex(v as nat)
    }
}

pub open spec fn encode_query(q: Seq<char>) -> Seq<char>
    decreases q.len(),
{
    if q.len() == 0 {
        Seq::empty()
    } else {
        encode_query(q.drop_last()) + encode_query_char(q.last())
    }
}

/// The feed URL for a query.
pub open spec fn feed_url(q: Seq<char>) -> Seq<char> {
    "https://news.google.com/rss/search?q="@ + encode_query(q) + "&hl=en-US&gl=US&ceid=US:en"@
}

fn push_upper_hex(out: &mut String, v: u32)
    ensures
        final(out)@ == old(out)@ + upper_hex(v as nat),
    decreases v,
{
    if v >= 16 {
        push_upper_hex(out, v / 16);
    }
    let d = (v % 16) as u8;
    let c = if d < 10 {
        (d + 48u8) as char
    } else {
        (d + 55u8) as char
    };
    push_char(out, c);
    assert(final(out)@ =~= old(out)@ + upper_hex(v as nat));
}

/// The news-feed search URL for `query`.
pub fn rss_search_url(query: &str) -> (r: String)
    ensures
        r@ == feed_url(query@),
{
    let cs = chars_of(query);
    let mut out = String::new();
    push_text(&mut out, "https://news.google.com/rss/search?q=");
    let ghost head = out@;
    let mut i: usize = 0;
    while i < cs.len()
        invariant
            cs@ == query@,
            i <= cs@.len(),
            out@ == head + encode_query(cs@.subrange(0, i as int)),
        decreases cs@.len() - i,
    {
        assert(cs@.subrange(0, i + 1).drop_last() =~= cs@.subrange(0, i as int));
        let c = cs[i];
        let v = c as u32;
        let ghost before = out@;
        if ('a' <= c && c <= 'z') || ('A' <= c && c <= 'Z') || ('0' <= c && c <= '9') || c == '-'
            || c == '_' || c == '.' || c == '~' {
            push_char(&mut out, c);
        } else if c == ' ' {
            push_char(&mut out, '+');
        } else if v < 16 {
            push_char(&mut out, '%');
            push_char(&mut out, '0');
            push_upper_hex(&mut out, v);
            assert(upper_hex(v as nat) =~= seq![hex_upper(v as nat)]);
        } else {
            push_char(&mut out, '%');
            push_upper_hex(&mut out, v);
        }
        assert(out@ =~= before + encode_query_char(c));
        i = i + 1;
    }
    assert(cs@.subrange(0, i as int) =~= query@);
    push_text(&mut out, "&hl=en-US&gl=US&ceid=US:en");
    assert(out@ =~= feed_url(query@));
    out
}

/// `k` is the first position at or after `from` where `pat` occurs.
pub open spec fn next_at(s: Seq<char>, pat: Seq<char>, from: int, k: int) -> bool {
    from <= k && occurs_at(s, pat, k) && forall|j: int| from <= j < k ==> !occurs_at(s, pat, j)
}

pub open spec fn title_open() -> Seq<char> {
    seq!['<', 't', 'i', 't', 'l', 'e', '>']
}

pub open spec fn title_close() -> Seq<char> {
    seq!['<', '/', 't', 'i', 't', 'l', 'e', '>']
}

/// The headline lines from position `pos` on, `seen` titles having been
/// read: the first two titles (the feed's own) are skipped, and at most ten
/// headlines are reported, numbered from 1.
pub open spec fn headlines_from(x: Seq<char>, pos: int, seen: nat) -> Seq<char>
    decreases x.len() + 1 - pos,
{
    if pos < 0 || pos > x.len() || seen > MAX_HEADLINES + 2 {
        Seq::empty()
    } else if exists|s: int| next_at(x, title_open(), pos, s) {
        let s = choose|s: int| next_at(x, title_open(), pos, s);
        let a = s + 7;
        if exists|e: int| next_at(x, title_close(), a, e) {
            let e = choose|e: int| next_at(x, title_close(), a, e);
            let c = seen + 1;
            if c <= 2 {
                headlines_from(x, e + 8, c)
            } else if c > MAX_HEADLINES + 2 {
                Seq::empty()
            } else {
                decimal((c - 2) as nat) + ". "@ + x.subrange(a, e) + "\n"@ + headlines_from(
                    x,
                    e + 8,
                    c,
                )
            }
        } else {
            Seq::empty()
        }
    } else {
        Seq::empty()
    }
}

/// The search results text of a feed.
pub open spec fn rss_results_text(xml: Seq<char>) -> Seq<char> {
    let h = headlines_from(xml, 0, 0);
    if h.len() == 0 {
        "No results found."@
    } else {
        h
    }
}

fn find_next(cs: &Vec<char>, pat: &Vec<char>, from: usize) -> (r: Option<usize>)
    ensures
        r matches Some(k) ==> next_at(cs@, pat@, from as int, k as int) && k + pat@.len() <= cs@.len(),
        r is None ==> !exists|k: int| next_at(cs@, pat@, from as int, k),
{
    match find_from(cs, pat, from) {
        Some(k) => Some(k),
        None => None,
    }
}

proof fn lemma_next_unique(s: Seq<char>, pat: Seq<char>, from: int, k1: int, k2: int)
    requires
        next_at(s, pat, from, k1),
        next_at(s, pat, from, k2),
    ensures
        k1 == k2,
{
}

/// Reads the headlines of a news feed into numbered lines.
pub fn rss_results(xml: &str) -> (r: String)
    ensures
        r@ == rss_results_text(xml@),
{
    let cs = chars_of(xml);
    let open = chars_of("<title>");
    let close = chars_of("</title>");
    proof {
        reveal_strlit("<title>");
        reveal_strlit("</title>");
        assert(open@ =~= title_open());
        assert(close@ =~= title_close());
    }
    let n = cs.len();
    let mut out = String::new();
    let mut pos: usize = 0;
    let mut seen: u32 = 0;
    let mut done = false;
    while !done
        invariant
            cs@ == xml@,
            open@ == title_open(),
            close@ == title_close(),
            n == cs@.len(),
            pos <= cs@.len(),
            seen <= MAX_HEADLINES + 2,
            !done ==> headlines_from(cs@, 0, 0) == out@ + headlines_from(cs@, pos as int, seen as nat),
            done ==> headlines_from(cs@, 0, 0) == out@,
        decreases cs@.len() + 1 - pos + (if done { 0int } else { 1int }),
    {
        let ghost before = out@;
        match find_next(&cs, &open, pos) {
            None => {
                done = true;
                assert(out@ =~= out@ + Seq::<char>::empty());
            },
            Some(s) => {
                proof {
                    let s2 = choose|s2: int| next_at(cs@, title_open(), pos as int, s2);
                    lemma_next_unique(cs@, title_open(), pos as int, s as int, s2);
                }
                let a = s + 7;
                match find_next(&cs, &close, a) {
                    None => {
                        done = true;
                        assert(out@ =~= out@ + Seq::<char>::empty());
                    },
                    Some(e) => {
                        proof {
                            let e2 = choose|e2: int| next_at(cs@, title_close(), a as int, e2);
                            lemma_next_unique(cs@, title_close(), a as int, e as int, e2);
                        }
                        let c = seen + 1;
                        if c <= 2 {
                            pos = e + 8;
                            seen = c;
                        } else if c > MAX_HEADLINES + 2 {
                            done = true;
                            assert(out@ =~= out@ + Seq::<char>::empty());
                        } else {
                            push_decimal(&mut out, (c - 2) as u128);
                            push_text(&mut out, ". ");
                            push_chars(&mut out, &cs, a, e);
                            push_text(&mut out, "\n");
                            assert(before + (decimal((c - 2) as nat) + ". "@ + cs@.subrange(
                                a as int,
                                e as int,
                            ) + "\n"@ + headlines_from(cs@, e + 8, c as nat)) =~= out@
                                + headlines_from(cs@, e + 8, c as nat));
                            pos = e + 8;
                            seen = c;
                        }
                    },
                }
            },
        }
    }
    if out.as_str().is_empty() {
        let mut none = String::new();
        push_text(&mut none, "No results found.");
        assert(none@ =~= "No results found."@);
        none
    } else {
        out
    }
}

} // verus!
