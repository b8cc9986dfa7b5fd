//! The transcript log: messages keyed by a strictly increasing sequence
//! number that a counter assigns, appended only, cleared only as a whole.

use vstd::prelude::*;
use crate::records::{Message, MessageModel};

verus! {

broadcast use vstd::string::group_string_axioms;

/// The messages of `entries` whose sequence number lies in `(lo, hi]`, in order.
pub open spec fn messages_in(entries: Seq<(u64, MessageModel)>, lo: u64, hi: u64) -> Seq<
    MessageModel,
>
    decreases entries.len(),
{
    if entries.len() == 0 {
        Seq::empty()
    } else {
        let init = messages_in(entries.drop_last(), lo, hi);
        let e = entries.last();
        if lo < e.0 && e.0 <= hi {
            init.push(e.1)
        } else {
            init
        }
    }
}

/// The newest message of `entries` with this role whose number lies in `[lo, hi)`.
pub open spec fn last_with_role_in(
    entries: Seq<(u64, MessageModel)>,
    role: Seq<char>,
    lo: u64,
    hi: u64,
) -> Option<MessageModel>
    decreases entries.len(),
{
    if entries.len() == 0 {
        None
    } else {
        let e = entries.last();
        if lo <= e.0 && e.0 < hi && e.1.role == role {
            Some(e.1)
        } else {
            last_with_role_in(entries.drop_last(), role, lo, hi)
        }
    }
}

/// The message log and its sequence counter.
pub struct Transcript {
    seqs: Vec<u64>,
    messages: Vec<Message>,
    counter: u64,
}

pub struct TranscriptModel {
    pub entries: Seq<(u64, MessageModel)>,
    pub counter: u64,
}

impl View for Transcript {
    type V = TranscriptModel;

    closed spec fn view(&self) -> TranscriptModel {
        TranscriptModel {
            entries: Seq::new(self.seqs@.len(), |i: int| (self.seqs@[i], self.messages@[i]@)),
            counter: self.counter,
        }
    }
}

impl TranscriptModel {
    /// Sequence numbers strictly increase, start above 0 and never pass the counter.
    pub open spec fn wf(self) -> bool {
        &&& forall|i: int, j: int|
            0 <= i < j < self.entries.len() ==> #[trigger] self.entries[i].0
                < #[trigger] self.entries[j].0
        &&& forall|i: int|
            0 <= i < self.entries.len() ==> 0 < #[trigger] self.entries[i].0 <= self.counter
    }
}

impl Transcript {
    pub closed spec fn inv(&self) -> bool {
        &&& self.seqs@.len() == self.messages@.len()
        &&& self@.wf()
    }

    /// An empty log whose counter is 0.
    pub fn new() -> (r: Transcript)
        ensures
            r.inv(),
            r@.entries.len() == 0,
            r@.counter == 0,
    {
        let r = Transcript { seqs: Vec::new(), messages: Vec::new(), counter: 0 };
        assert(r@.entries.len() == 0);
        r
    }

    pub fn counter(&self) -> (r: u64)
        ensures
            r == self@.counter,
    {
        self.counter
    }

    pub fn len(&self) -> (r: usize)
        requires
            self.inv(),
        ensures
            r == self@.entries.len(),
    {
        self.seqs.len()
    }

    /// An empty log whose counter stands at `counter`, for a caller that
    /// keeps the messages elsewhere.
    pub fn with_counter(counter: u64) -> (r: Transcript)
        ensures
            r.inv(),
            r@.entries.len() == 0,
            r@.counter == counter,
    {
        let r = Transcript { seqs: Vec::new(), messages: Vec::new(), counter };
        assert(r@.entries.len() == 0);
        r
    }

    /// Appends a message under the next sequence number and returns it.
    pub fn append(&mut self, role: String, content: String, timestamp: u64) -> (r: u64)
        requires
            old(self).inv(),
            old(self)@.counter < u64::MAX,
        ensures
            final(self).inv(),
            r == old(self)@.counter + 1,
            final(self)@.counter == r,
            final(self)@.entries == old(self)@.entries.push(
                (r, MessageModel { role: role@, content: content@, timestamp }),
            ),
    {
        let id = next_msg_id(&mut self.counter);
        self.seqs.push(id);
        self.messages.push(Message { role, content, timestamp });
        assert(self@.entries =~= old(self)@.entries.push(
            (id, MessageModel { role: role@, content: content@, timestamp }),
        ));
        id
    }

    /// Adds back an entry read from storage, whose number must follow every
    /// entry already present; the counter moves up to it if it is below.
    /// Returns whether the entry was taken.
    pub fn restore_entry(&mut self, seq: u64, message: Message) -> (r: bool)
        requires
            old(self).inv(),
        ensures
            final(self).inv(),
            r == (seq > 0 && (old(self)@.entries.len() == 0 || old(self)@.entries.last().0 < seq)),
            r ==> final(self)@.entries == old(self)@.entries.push((seq, message@))
                && final(self)@.counter == (if seq > old(self)@.counter {
                seq
            } else {
                old(self)@.counter
            }),
            !r ==> final(self)@ == old(self)@,
    {
        let n = self.seqs.len();
        if seq == 0 || (n > 0 && self.seqs[n - 1] >= seq) {
            return false;
        }
        let ghost m = message@;
        proof {
            assert forall|i: int| 0 <= i < old(self)@.entries.len() implies #[trigger] old(
                self,
            )@.entries[i].0 < seq by {
                if i < n - 1 {
                    assert(old(self)@.entries[i].0 < old(self)@.entries[n - 1].0);
                }
            }
        }
        self.seqs.push(seq);
        self.messages.push(message);
        if seq > self.counter {
            self.counter = seq;
        }
        assert(self@.entries =~= old(self)@.entries.push((seq, m)));
        true
    }

    /// The messages numbered in `(from_exclusive, to_inclusive]`, in order.
    pub fn range(&self, from_exclusive: u64, to_inclusive: u64) -> (r: Vec<Message>)
        requires
            self.inv(),
        ensures
            r@.map_values(|m: Message| m@) == messages_in(
                self@.entries,
                from_exclusive,
                to_inclusive,
            ),
    {
        let mut out: Vec<Message> = Vec::new();
        let mut i: usize = 0;
        while i < self.seqs.len()
            invariant
                self.inv(),
                i <= self@.entries.len(),
                out@.map_values(|m: Message| m@) == messages_in(
                    self@.entries.subrange(0, i as int),
                    from_exclusive,
                    to_inclusive,
                ),
            decreases self@.entries.len() - i,
        {
            let s = self.seqs[i];
            proof {
                assert(self@.entries.subrange(0, i + 1).drop_last() =~= self@.entries.subrange(
                    0,
                    i as int,
                ));
                assert(self@.entries[i as int] == (s, self.messages@[i as int]@));
            }
            if from_exclusive < s && s <= to_inclusive {
                let m = self.messages[i].duplicate();
                let ghost before = out@;
                out.push(m);
                assert(out@.map_values(|m: Message| m@) =~= before.map_values(|m: Message| m@).push(
                    m@,
                ));
            }
            i = i + 1;
        }
        assert(self@.entries.subrange(0, i as int) =~= self@.entries);
        out
    }

    /// The newest message with this role among the `within` numbers just
    /// below the counter.
    pub fn last_with_role(&self, role: &str, within: u64) -> (r: Option<Message>)
        requires
            self.inv(),
        ensures
            match last_with_role_in(
                self@.entries,
                role@,
                if self@.counter >= within {
                    (self@.counter - within) as u64
                } else {
                    0
                },
                self@.counter,
            ) {
                Some(m) => r matches Some(x) && x@ == m,
                None => r is None,
            },
    {
        let lo = if self.counter >= within {
            self.counter - within
        } else {
            0
        };
        let mut i = self.seqs.len();
        assert(self@.entries.subrange(0, i as int) =~= self@.entries);
        while i > 0
            invariant
                self.inv(),
                i <= self@.entries.len(),
                lo == (if self@.counter >= within {
                    (self@.counter - within) as u64
                } else {
                    0
                }),
                last_with_role_in(self@.entries, role@, lo, self@.counter) == last_with_role_in(
                    self@.entries.subrange(0, i as int),
                    role@,
                    lo,
                    self@.counter,
                ),
            decreases i,
        {
            let s = self.seqs[i - 1];
            proof {
                assert(self@.entries.subrange(0, i as int).drop_last() =~= self@.entries.subrange(
                    0,
                    i - 1,
                ));
                assert(self@.entries.subrange(0, i as int).last() == (s, self.messages@[i - 1]@));
            }
            if lo <= s && s < self.counter && crate::text::text_eq(
                self.messages[i - 1].role.as_str(),
                role,
            ) {
                let m = self.messages[i - 1].duplicate();
                assert(m@ == self@.entries.subrange(0, i as int).last().1);
                assert(last_with_role_in(self@.entries.subrange(0, i as int), role@, lo, self@.counter)
                    == Some(m@));
                return Some(m);
            }
            i = i - 1;
        }
        None
    }

    /// Removes every message and sets the counter back to 0; returns how
    /// many were removed.
    pub fn clear(&mut self) -> (r: u64)
        requires
            old(self).inv(),
        ensures
            final(self).inv(),
            r == old(self)@.entries.len(),
            final(self)@.entries.len() == 0,
            final(self)@.counter == 0,
    {
        let n = self.seqs.len() as u64;
        proof {
            if self.seqs@.len() > 0 {
                lemma_count_bound(self@);
            }
        }
        self.seqs = Vec::new();
        self.messages = Vec::new();
        self.counter = 0;
        assert(self@.entries.len() == 0);
        n
    }
}

/// A well-formed log has no more entries than its counter.
pub proof fn lemma_count_bound(t: TranscriptModel)
    requires
        t.wf(),
    ensures
        t.entries.len() <= t.counter,
{
    if t.entries.len() > 0 {
        assert forall|i: int| 0 <= i < t.entries.len() implies #[trigger] t.entries[i].0 >= i + 1 by {
            lemma_seq_at_least(t, i);
        }
        assert(t.entries[t.entries.len() - 1].0 >= t.entries.len());
    }
}

proof fn lemma_seq_at_least(t: TranscriptModel, i: int)
    requires
        t.wf(),
        0 <= i < t.entries.len(),
    ensures
        t.entries[i].0 >= i + 1,
    decreases i,
{
    if i > 0 {
        lemma_seq_at_least(t, i - 1);
        assert(t.entries[i - 1].0 < t.entries[i].0);
    }
}

/// Advances a message counter and returns the new number.
pub fn next_msg_id(counter: &mut u64) -> (r: u64)
    requires
        *old(counter) < u64::MAX,
    ensures
        r == *old(counter) + 1,
        *final(counter) == r,
{
    *counter = *counter + 1;
    *counter
}

/// Advances a task counter and returns the new number.
pub fn next_task_id(counter: &mut u64) -> (r: u64)
    requires
        *old(counter) < u64::MAX,
    ensures
        r == *old(counter) + 1,
        *final(counter) == r,
{
    *counter = *counter + 1;
    *counter
}

/// The largest of `keys`, or 0 when there are none.
pub open spec fn max_key(keys: Seq<u64>) -> u64
    decreases keys.len(),
{
    if keys.len() == 0 {
        0
    } else {
        let m = max_key(keys.drop_last());
        if keys.last() > m {
            keys.last()
        } else {
            m
        }
    }
}

fn max_of(keys: &Vec<u64>) -> (r: u64)
    ensures
        r == max_key(keys@),
{
    let mut m: u64 = 0;
    let mut i: usize = 0;
    while i < keys.len()
        invariant
            i <= keys@.len(),
            m == max_key(keys@.subrange(0, i as int)),
        decreases keys@.len() - i,
    {
        assert(keys@.subrange(0, i + 1).drop_last() =~= keys@.subrange(0, i as int));
        if keys[i] > m {
            m = keys[i];
        }
        i = i + 1;
    }
    assert(keys@.subrange(0, i as int) =~= keys@);
    m
}

/// The message and task counters after a restart: each resumes from the
/// largest key still stored, or 0.
pub fn restore_counters(message_keys: &Vec<u64>, task_keys: &Vec<u64>) -> (r: (u64, u64))
    ensures
        r == (max_key(message_keys@), max_key(task_keys@)),
{
    (max_of(message_keys), max_of(task_keys))
}

} // verus!
