//! Parsing the summarizer's tagged output into the identity, thread and
//! episode tiers, and folding it into the memory under the tier budgets.

use vstd::prelude::*;
use crate::records::{PicoState, PicoStateModel};
use crate::priors::{first_at, observe, priors_after, priors_of, priors_text, MAX_PRIORS_CHARS};
use crate::text::{
    chars_of, lemma_split_on_step, lemma_truncated_fits, push_char, push_chars, split_on, string_of, sub_chars,
    trim, trim_bounds, truncate_utf8, truncated, utf8_len,
};

verus! {

broadcast use vstd::string::group_string_axioms, vstd::utf8::group_utf8_lib;

/// Byte budget of the identity tier.
pub const MAX_IDENTITY_CHARS: usize = 256;

/// Byte budget of the thread tier.
pub const MAX_THREAD_CHARS: usize = 600;

/// Byte budget of the episodes tier.
pub const MAX_EPISODES_CHARS: usize = 900;

/// Identity, thread, episodes, and the tier that continuation lines extend
/// (1, 2, 3; 0 for none).
pub type TierScan = (Seq<char>, Seq<char>, Seq<char>, u8);

pub open spec fn tagged(t: Seq<char>, tag: char) -> bool {
    t.len() >= 2 && t[0] == tag && t[1] == ':'
}

/// `tier` with `t` appended, separated by a space unless `tier` is empty.
pub open spec fn joined(tier: Seq<char>, t: Seq<char>) -> Seq<char> {
    if tier.len() > 0 {
        tier.push(' ') + t
    } else {
        t
    }
}

/// One line of output: a tagged line opens its tier with the trimmed rest;
/// another non-blank line continues the open tier; anything else is dropped.
pub open spec fn tier_line(acc: TierScan, line: Seq<char>) -> TierScan {
    let t = trim(line);
    let rest = trim(t.subrange(2, t.len() as int));
    if tagged(t, 'I') {
        (rest, acc.1, acc.2, 1)
    } else if tagged(t, 'T') {
        (acc.0, rest, acc.2, 2)
    } else if tagged(t, 'E') {
        (acc.0, acc.1, rest, 3)
    } else if t.len() > 0 && acc.3 == 1 {
        (joined(acc.0, t), acc.1, acc.2, acc.3)
    } else if t.len() > 0 && acc.3 == 2 {
        (acc.0, joined(acc.1, t), acc.2, acc.3)
    } else if t.len() > 0 && acc.3 == 3 {
        (acc.0, acc.1, joined(acc.2, t), acc.3)
    } else {
        acc
    }
}

pub open spec fn fold_tier_lines(lines: Seq<Seq<char>>) -> TierScan
    decreases lines.len(),
{
    if lines.len() == 0 {
        (Seq::empty(), Seq::empty(), Seq::empty(), 0)
    } else {
        tier_line(fold_tier_lines(lines.drop_last()), lines.last())
    }
}

/// The three tiers that an output text holds, line by line.
pub open spec fn tiers_of(s: Seq<char>) -> (Seq<char>, Seq<char>, Seq<char>) {
    let r = fold_tier_lines(split_on(s, '\n'));
    (r.0, r.1, r.2)
}

fn append_joined(tier: &mut String, cs: &Vec<char>, a: usize, b: usize)
    requires
        a <= b <= cs@.len(),
    ensures
        final(tier)@ == joined(old(tier)@, cs@.subrange(a as int, b as int)),
{
    if !tier.as_str().is_empty() {
        push_char(tier, ' ');
    }
    push_chars(tier, cs, a, b);
    proof {
        if old(tier)@.len() == 0 {
            assert(final(tier)@ =~= cs@.subrange(a as int, b as int));
        }
    }
}

fn apply_tier_line(
    identity: &mut String,
    thread: &mut String,
    episodes: &mut String,
    target: &mut u8,
    cs: &Vec<char>,
    from: usize,
    to: usize,
)
    requires
        from <= to <= cs@.len(),
    ensures
        (final(identity)@, final(thread)@, final(episodes)@, *final(target)) == tier_line(
            (old(identity)@, old(thread)@, old(episodes)@, *old(target)),
            cs@.subrange(from as int, to as int),
        ),
{
    let (a, b) = trim_bounds(cs, from, to);
    let ghost t = cs@.subrange(a as int, b as int);
    if b - a >= 2 && cs[a + 1] == ':' && (cs[a] == 'I' || cs[a] == 'T' || cs[a] == 'E') {
        let (c, d) = trim_bounds(cs, a + 2, b);
        assert(t.subrange(2, t.len() as int) =~= cs@.subrange(a + 2, b as int));
        assert(t[0] == cs@[a as int] && t[1] == cs@[a + 1]);
        let rest = string_of(cs, c, d);
        if cs[a] == 'I' {
            *identity = rest;
            *target = 1;
        } else if cs[a] == 'T' {
            *thread = rest;
            *target = 2;
        } else {
            *episodes = rest;
            *target = 3;
        }
    } else {
        assert(!tagged(t, 'I') && !tagged(t, 'T') && !tagged(t, 'E')) by {
            if t.len() >= 2 {
                assert(t[0] == cs@[a as int] && t[1] == cs@[a + 1]);
            }
        }
        if b > a {
            if *target == 1 {
                append_joined(identity, cs, a, b);
            } else if *target == 2 {
                append_joined(thread, cs, a, b);
            } else if *target == 3 {
                append_joined(episodes, cs, a, b);
            }
        }
    }
}

/// Splits the summarizer's output into identity, thread and episodes.
pub fn parse_tiers(output: &str) -> (r: (String, String, String))
    ensures
        (r.0@, r.1@, r.2@) == tiers_of(output@),
{
    let cs = chars_of(output);
    let mut identity = String::new();
    let mut thread = String::new();
    let mut episodes = String::new();
    let mut target: u8 = 0;
    let mut start: usize = 0;
    let mut i: usize = 0;
    let ghost mut done: Seq<Seq<char>> = Seq::empty();
    assert(cs@.subrange(0, 0) =~= Seq::<char>::empty());
    assert(split_on(Seq::<char>::empty(), '\n') == done.push(cs@.subrange(0, 0)));
    while i < cs.len()
        invariant
            cs@ == output@,
            start <= i <= cs@.len(),
            split_on(cs@.subrange(0, i as int), '\n') == done.push(
                cs@.subrange(start as int, i as int),
            ),
            (identity@, thread@, episodes@, target) == fold_tier_lines(done),
        decreases cs@.len() - i,
    {
        proof {
            lemma_split_on_step(cs@, '\n', i as int, start as int, done);
        }
        if cs[i] == '\n' {
            apply_tier_line(&mut identity, &mut thread, &mut episodes, &mut target, &cs, start, i);
            proof {
                assert(done.push(cs@.subrange(start as int, i as int)).drop_last() =~= done);
                done = done.push(cs@.subrange(start as int, i as int));
            }
            start = i + 1;
        }
        i = i + 1;
    }
    apply_tier_line(&mut identity, &mut thread, &mut episodes, &mut target, &cs, start, i);
    proof {
        let lines = done.push(cs@.subrange(start as int, i as int));
        assert(lines.drop_last() =~= done);
        assert(cs@.subrange(0, i as int) =~= output@);
    }
    (identity, thread, episodes)
}

/// The key of a `key=value` pair: what stands before its first `=`,
/// trimmed; a pair without `=` is its own key.
pub open spec fn pair_key(p: Seq<char>) -> Seq<char> {
    if exists|k: int| first_at(p, '=', k) {
        trim(p.subrange(0, choose|k: int| first_at(p, '=', k)))
    } else {
        trim(p)
    }
}

/// Whether one of `pairs` has this key.
pub open spec fn has_key(pairs: Seq<Seq<char>>, key: Seq<char>) -> bool
    decreases pairs.len(),
{
    if pairs.len() == 0 {
        false
    } else {
        has_key(pairs.drop_last(), key) || pair_key(pairs.last()) == key
    }
}

/// The non-blank pairs of `old` whose key none of `new_pairs` has, each
/// after a `|`.
pub open spec fn kept_pairs(old: Seq<Seq<char>>, new_pairs: Seq<Seq<char>>) -> Seq<char>
    decreases old.len(),
{
    if old.len() == 0 {
        Seq::empty()
    } else {
        kept_pairs(old.drop_last(), new_pairs) + kept_pair(old.last(), new_pairs)
    }
}

/// The identity after a new identity line: the new pairs, then every old
/// pair whose key the new line does not mention.
pub open spec fn merged_identity(old: Seq<char>, new: Seq<char>) -> Seq<char> {
    new + kept_pairs(split_on(old, '|'), split_on(new, '|'))
}

/// The bounds of the key of the pair `cs[from..to]`.
fn pair_key_bounds(cs: &Vec<char>, from: usize, to: usize) -> (r: (usize, usize))
    requires
        from <= to <= cs@.len(),
    ensures
        from <= r.0 <= r.1 <= to,
        cs@.subrange(r.0 as int, r.1 as int) == pair_key(cs@.subrange(from as int, to as int)),
{
    let ghost seg = cs@.subrange(from as int, to as int);
    let mut k = from;
    while k < to && cs[k] != '='
        invariant
            from <= k <= to <= cs@.len(),
            forall|j: int| from <= j < k ==> cs@[j] != '=',
        decreases to - k,
    {
        k = k + 1;
    }
    if k == to {
        assert forall|k2: int| !first_at(seg, '=', k2) by {
            if 0 <= k2 < seg.len() {
                assert(seg[k2] == cs@[from + k2]);
            }
        }
        return trim_bounds(cs, from, to);
    }
    proof {
        assert(first_at(seg, '=', k - from)) by {
            assert forall|j: int| 0 <= j < k - from implies seg[j] != '=' by {
                assert(seg[j] == cs@[from + j]);
            }
        }
        let k2 = choose|k2: int| first_at(seg, '=', k2);
        if k2 < k - from {
            assert(seg[k2] == cs@[from + k2]);
        }
        assert(k2 == k - from);
        assert(seg.subrange(0, k - from) =~= cs@.subrange(from as int, k as int));
    }
    trim_bounds(cs, from, k)
}

/// Whether `cs[a..b]` holds the characters of `key`.
fn range_eq(cs: &Vec<char>, a: usize, b: usize, key: &Vec<char>) -> (r: bool)
    requires
        a <= b <= cs@.len(),
    ensures
        r == (cs@.subrange(a as int, b as int) == key@),
{
    if b - a != key.len() {
        return false;
    }
    let mut i: usize = 0;
    while i < key.len()
        invariant
            a <= b <= cs@.len(),
            b - a == key@.len(),
            i <= key@.len(),
            forall|j: int| 0 <= j < i ==> cs@[a + j] == key@[j],
        decreases key@.len() - i,
    {
        if cs[a + i] != key[i] {
            assert(cs@.subrange(a as int, b as int)[i as int] != key@[i as int]);
            return false;
        }
        i = i + 1;
    }
    assert(cs@.subrange(a as int, b as int) =~= key@);
    true
}

/// Whether some `|`-separated pair of `cs` has this key.
fn has_key_exec(cs: &Vec<char>, key: &Vec<char>) -> (r: bool)
    ensures
        r == has_key(split_on(cs@, '|'), key@),
{
    let mut found = false;
    let mut start: usize = 0;
    let mut i: usize = 0;
    let ghost mut done: Seq<Seq<char>> = Seq::empty();
    assert(cs@.subrange(0, 0) =~= Seq::<char>::empty());
    assert(split_on(Seq::<char>::empty(), '|') == done.push(cs@.subrange(0, 0)));
    while i < cs.len()
        invariant
            start <= i <= cs@.len(),
            split_on(cs@.subrange(0, i as int), '|') == done.push(
                cs@.subrange(start as int, i as int),
            ),
            found == has_key(done, key@),
        decreases cs@.len() - i,
    {
        proof {
            lemma_split_on_step(cs@, '|', i as int, start as int, done);
        }
        if cs[i] == '|' {
            let (a, b) = pair_key_bounds(cs, start, i);
            found = found || range_eq(cs, a, b, key);
            proof {
                assert(done.push(cs@.subrange(start as int, i as int)).drop_last() =~= done);
                done = done.push(cs@.subrange(start as int, i as int));
            }
            start = i + 1;
        }
        i = i + 1;
    }
    let (a, b) = pair_key_bounds(cs, start, i);
    let r = found || range_eq(cs, a, b, key);
    proof {
        let segs = done.push(cs@.subrange(start as int, i as int));
        assert(segs.drop_last() =~= done);
        assert(cs@.subrange(0, i as int) =~= cs@);
    }
    r
}

/// What `kept_pairs` adds for one old pair.
pub open spec fn kept_pair(seg: Seq<char>, new_pairs: Seq<Seq<char>>) -> Seq<char> {
    if trim(seg).len() > 0 && !has_key(new_pairs, pair_key(seg)) {
        seq!['|'] + seg
    } else {
        Seq::empty()
    }
}

fn push_kept_pair(out: &mut String, ocs: &Vec<char>, start: usize, end: usize, ncs: &Vec<char>)
    requires
        start <= end <= ocs@.len(),
    ensures
        final(out)@ == old(out)@ + kept_pair(
            ocs@.subrange(start as int, end as int),
            split_on(ncs@, '|'),
        ),
{
    let (a, b) = trim_bounds(ocs, start, end);
    let key_b = pair_key_bounds(ocs, start, end);
    let key = sub_chars(ocs, key_b.0, key_b.1);
    if b > a && !has_key_exec(ncs, &key) {
        push_char(out, '|');
        push_chars(out, ocs, start, end);
    }
    assert(final(out)@ =~= old(out)@ + kept_pair(
        ocs@.subrange(start as int, end as int),
        split_on(ncs@, '|'),
    ));
}

/// Merges a new identity line into the old identity: the new pairs, then
/// each old pair whose key the new line lacks.
pub fn merge_identity(old: &str, new: &str) -> (r: String)
    ensures
        r@ == merged_identity(old@, new@),
{
    let ocs = chars_of(old);
    let ncs = chars_of(new);
    let mut out = String::new();
    push_chars(&mut out, &ncs, 0, ncs.len());
    assert(Seq::<char>::empty() + ncs@.subrange(0, ncs@.len() as int) =~= new@);
    let ghost head = out@;
    let ghost np = split_on(new@, '|');
    let mut start: usize = 0;
    let mut i: usize = 0;
    let ghost mut done: Seq<Seq<char>> = Seq::empty();
    assert(ocs@.subrange(0, 0) =~= Seq::<char>::empty());
    assert(split_on(Seq::<char>::empty(), '|') == done.push(ocs@.subrange(0, 0)));
    assert(head + kept_pairs(done, np) =~= head);
    while i < ocs.len()
        invariant
            ocs@ == old@,
            ncs@ == new@,
            np == split_on(new@, '|'),
            start <= i <= ocs@.len(),
            split_on(ocs@.subrange(0, i as int), '|') == done.push(
                ocs@.subrange(start as int, i as int),
            ),
            out@ == head + kept_pairs(done, np),
        decreases ocs@.len() - i,
    {
        proof {
            lemma_split_on_step(ocs@, '|', i as int, start as int, done);
        }
        if ocs[i] == '|' {
            let ghost seg = ocs@.subrange(start as int, i as int);
            push_kept_pair(&mut out, &ocs, start, i, &ncs);
            proof {
                let segs = done.push(seg);
                assert(segs.drop_last() =~= done);
                assert(out@ =~= head + kept_pairs(segs, np));
                done = segs;
            }
            start = i + 1;
        }
        i = i + 1;
    }
    let ghost seg = ocs@.subrange(start as int, i as int);
    push_kept_pair(&mut out, &ocs, start, i, &ncs);
    proof {
        let segs = done.push(seg);
        assert(segs.drop_last() =~= done);
        assert(out@ =~= head + kept_pairs(segs, np));
        assert(ocs@.subrange(0, i as int) =~= old@);
    }
    out
}

/// The identity, thread and episodes after a compression whose summarizer
/// returned `raw`. Without any recognised tag, `raw` becomes the thread and
/// identity and episodes stay; otherwise each tier that parsed to something
/// takes it, cut to its budget, and each other tier keeps its value; a new
/// identity line is merged into the old identity, so no known key is lost
/// before the cut.
pub open spec fn compressed_tiers(m: PicoStateModel, raw: Seq<char>) -> (
    Seq<char>,
    Seq<char>,
    Seq<char>,
) {
    let (i, t, e) = tiers_of(raw);
    if i.len() == 0 && t.len() == 0 && e.len() == 0 {
        (m.identity, truncated(raw, MAX_THREAD_CHARS as nat), m.episodes)
    } else {
        (
            if i.len() == 0 {
                m.identity
            } else {
                truncated(merged_identity(m.identity, i), MAX_IDENTITY_CHARS as nat)
            },
            if t.len() == 0 {
                m.thread
            } else {
                truncated(t, MAX_THREAD_CHARS as nat)
            },
            if e.len() == 0 {
                m.episodes
            } else {
                truncated(e, MAX_EPISODES_CHARS as nat)
            },
        )
    }
}

/// The memory after a compression up to transcript sequence `upto` at time
/// `now`: the tiers of `compressed_tiers`, the priors untouched.
pub open spec fn compressed(m: PicoStateModel, raw: Seq<char>, upto: u64, now: u64) -> PicoStateModel {
    let (i, t, e) = compressed_tiers(m, raw);
    PicoStateModel {
        identity: i,
        thread: t,
        episodes: e,
        priors: m.priors,
        updated_at: now,
        msg_id_at_compress: upto,
    }
}

/// Folds the summarizer's output `raw` into `state`.
pub fn apply_tiers(state: &PicoState, raw: &str, upto: u64, now: u64) -> (r: PicoState)
    ensures
        r@ == compressed(state@, raw@, upto, now),
{
    let (new_i, new_t, new_e) = parse_tiers(raw);
    let (identity, thread, episodes) = if new_i.as_str().is_empty() && new_t.as_str().is_empty() && new_e.as_str().is_empty()
        {
        (state.identity.clone(), truncate_utf8(raw, MAX_THREAD_CHARS), state.episodes.clone())
    } else {
        (
            if new_i.as_str().is_empty() {
                state.identity.clone()
            } else {
                let merged = merge_identity(state.identity.as_str(), new_i.as_str());
                truncate_utf8(merged.as_str(), MAX_IDENTITY_CHARS)
            },
            if new_t.as_str().is_empty() {
                state.thread.clone()
            } else {
                truncate_utf8(new_t.as_str(), MAX_THREAD_CHARS)
            },
            if new_e.as_str().is_empty() {
                state.episodes.clone()
            } else {
                truncate_utf8(new_e.as_str(), MAX_EPISODES_CHARS)
            },
        )
    };
    PicoState {
        identity,
        thread,
        episodes,
        priors: state.priors.clone(),
        updated_at: now,
        msg_id_at_compress: upto,
    }
}

/// Whether some line of `raw` opens a tier.
pub open spec fn has_tag(raw: Seq<char>) -> bool {
    exists|i: int|
        0 <= i < split_on(raw, '\n').len() && {
            let t = trim(#[trigger] split_on(raw, '\n')[i]);
            tagged(t, 'I') || tagged(t, 'T') || tagged(t, 'E')
        }
}

proof fn lemma_untagged_lines(lines: Seq<Seq<char>>)
    requires
        forall|i: int|
            0 <= i < lines.len() ==> {
                let t = trim(#[trigger] lines[i]);
                !tagged(t, 'I') && !tagged(t, 'T') && !tagged(t, 'E')
            },
    ensures
        fold_tier_lines(lines) == (Seq::<char>::empty(), Seq::<char>::empty(), Seq::<char>::empty(), 0u8),
    decreases lines.len(),
{
    if lines.len() > 0 {
        let init = lines.drop_last();
        assert forall|i: int| 0 <= i < init.len() implies {
            let t = trim(#[trigger] init[i]);
            !tagged(t, 'I') && !tagged(t, 'T') && !tagged(t, 'E')
        } by {
            assert(init[i] == lines[i]);
        }
        lemma_untagged_lines(init);
        let t = trim(lines[lines.len() - 1]);
        assert(!tagged(t, 'I') && !tagged(t, 'T') && !tagged(t, 'E'));
    }
}

/// A compression whose output opens no tier keeps identity, episodes and
/// priors as they were, and takes the whole output, cut to the thread's
/// budget, as the thread.
pub proof fn lemma_untagged_output_becomes_thread(m: PicoStateModel, raw: Seq<char>, upto: u64, now: u64)
    requires
        !has_tag(raw),
    ensures
        compressed(m, raw, upto, now).identity == m.identity,
        compressed(m, raw, upto, now).episodes == m.episodes,
        compressed(m, raw, upto, now).priors == m.priors,
        compressed(m, raw, upto, now).thread == truncated(raw, MAX_THREAD_CHARS as nat),
{
    let lines = split_on(raw, '\n');
    assert forall|i: int| 0 <= i < lines.len() implies {
        let t = trim(#[trigger] lines[i]);
        !tagged(t, 'I') && !tagged(t, 'T') && !tagged(t, 'E')
    } by {}
    lemma_untagged_lines(lines);
}

/// Every tier within its byte budget.
pub open spec fn within_budgets(m: PicoStateModel) -> bool {
    &&& utf8_len(m.identity) <= MAX_IDENTITY_CHARS
    &&& utf8_len(m.thread) <= MAX_THREAD_CHARS
    &&& utf8_len(m.episodes) <= MAX_EPISODES_CHARS
    &&& utf8_len(m.priors) <= MAX_PRIORS_CHARS
}

/// A compression keeps every tier within its budget, whatever the
/// summarizer returned.
pub proof fn lemma_compression_keeps_budgets(m: PicoStateModel, raw: Seq<char>, upto: u64, now: u64)
    requires
        within_budgets(m),
    ensures
        within_budgets(compressed(m, raw, upto, now)),
{
    let (i, t, e) = tiers_of(raw);
    lemma_truncated_fits(raw, MAX_THREAD_CHARS as nat);
    lemma_truncated_fits(merged_identity(m.identity, i), MAX_IDENTITY_CHARS as nat);
    lemma_truncated_fits(t, MAX_THREAD_CHARS as nat);
    lemma_truncated_fits(e, MAX_EPISODES_CHARS as nat);
}

/// Observing a user message keeps every tier within its budget.
pub proof fn lemma_priors_keep_budgets(m: PicoStateModel, msg: Seq<char>)
    requires
        within_budgets(m),
    ensures
        within_budgets(PicoStateModel { priors: priors_after(m.priors, msg), ..m }),
{
    lemma_truncated_fits(
        priors_text(observe(priors_of(m.priors), msg)),
        MAX_PRIORS_CHARS as nat,
    );
}

} // verus!
