//! Opt-in execution provenance for receipts: which resolved words ran (and
//! how often), and which host capabilities were required. Recording is
//! observational and off by default.
use crate::order::{lemma_seq_lt_irreflexive, lemma_seq_lt_total, lemma_seq_lt_transitive, seq_lt, str_lt};
use crate::text::str_equal;
use vstd::prelude::*;

verus! {

/// A capability a host may grant to hosted words.
#[derive(Clone, Copy, Debug, PartialEq, Eq, PartialOrd, Ord, Hash, Structural)]
pub enum HostCapability {
    ConsoleWrite,
    ConsoleRead,
    Clock,
    Randomness,
    FileSystem,
    Network,
    Audio,
    Serial,
}

/// The position of a capability in the stable listing order.
pub open spec fn capability_rank(c: HostCapability) -> int {
    match c {
        HostCapability::ConsoleWrite => 0,
        HostCapability::ConsoleRead => 1,
        HostCapability::Clock => 2,
        HostCapability::Randomness => 3,
        HostCapability::FileSystem => 4,
        HostCapability::Network => 5,
        HostCapability::Audio => 6,
        HostCapability::Serial => 7,
    }
}

pub fn capability_rank_of(c: HostCapability) -> (r: u8)
    ensures
        r as int == capability_rank(c),
{
    match c {
        HostCapability::ConsoleWrite => 0,
        HostCapability::ConsoleRead => 1,
        HostCapability::Clock => 2,
        HostCapability::Randomness => 3,
        HostCapability::FileSystem => 4,
        HostCapability::Network => 5,
        HostCapability::Audio => 6,
        HostCapability::Serial => 7,
    }
}

/// Every capability, in the stable listing order.
pub fn all_host_capabilities() -> (r: Vec<HostCapability>)
    ensures
        r@.len() == 8,
        forall|i: int| 0 <= i < 8 ==> capability_rank(#[trigger] r@[i]) == i,
{
    vec![
        HostCapability::ConsoleWrite,
        HostCapability::ConsoleRead,
        HostCapability::Clock,
        HostCapability::Randomness,
        HostCapability::FileSystem,
        HostCapability::Network,
        HostCapability::Audio,
        HostCapability::Serial,
    ]
}

/// Aggregated provenance for one executed word.
#[derive(Clone, Copy, Debug, Default, PartialEq, Eq, Structural)]
pub struct ExecutedWord {
    /// 0-based position of this word's first execution among distinct words.
    pub first_seen_order: u64,
    /// How many times the word was invoked.
    pub call_count: u64,
}

/// Records execution provenance while enabled. The executed words are kept
/// in ascending name order, each name once; the capabilities in their
/// listing order, each once.
#[derive(Debug)]
pub struct ReceiptRecorder {
    recording: bool,
    next_order: u64,
    executed_words: Vec<(String, ExecutedWord)>,
    required_capabilities: Vec<HostCapability>,
}

pub open spec fn entry_names(e: Seq<(String, ExecutedWord)>) -> Seq<Seq<char>> {
    e.map_values(|p: (String, ExecutedWord)| p.0@)
}

pub open spec fn names_sorted(n: Seq<Seq<char>>) -> bool {
    forall|i: int, j: int| 0 <= i < j < n.len() ==> seq_lt(#[trigger] n[i], #[trigger] n[j])
}

pub open spec fn caps_sorted(c: Seq<HostCapability>) -> bool {
    forall|i: int, j: int|
        0 <= i < j < c.len() ==> capability_rank(#[trigger] c[i]) < capability_rank(#[trigger] c[j])
}

impl ReceiptRecorder {
    pub closed spec fn recording_spec(&self) -> bool {
        self.recording
    }

    pub closed spec fn next_order_spec(&self) -> u64 {
        self.next_order
    }

    /// The recorded names, in ascending order.
    pub closed spec fn names(&self) -> Seq<Seq<char>> {
        entry_names(self.executed_words@)
    }

    /// The recorded provenance entries, parallel to [`Self::names`].
    pub closed spec fn entries(&self) -> Seq<ExecutedWord> {
        self.executed_words@.map_values(|p: (String, ExecutedWord)| p.1)
    }

    pub closed spec fn capabilities(&self) -> Seq<HostCapability> {
        self.required_capabilities@
    }

    pub open spec fn wf(&self) -> bool {
        &&& names_sorted(self.names())
        &&& self.entries().len() == self.names().len()
        &&& self.next_order_spec() as int == self.names().len()
        &&& caps_sorted(self.capabilities())
    }

    pub fn new() -> (r: ReceiptRecorder)
        ensures
            r.wf(),
            !r.recording_spec(),
            r.names().len() == 0,
            r.capabilities().len() == 0,
    {
        ReceiptRecorder {
            recording: false,
            next_order: 0,
            executed_words: Vec::new(),
            required_capabilities: Vec::new(),
        }
    }

    pub fn set_recording(&mut self, on: bool)
        ensures
            final(self).recording_spec() == on,
            final(self).names() == old(self).names(),
            final(self).entries() == old(self).entries(),
            final(self).capabilities() == old(self).capabilities(),
            final(self).next_order_spec() == old(self).next_order_spec(),
    {
        self.recording = on;
    }

    pub fn is_recording(&self) -> (r: bool)
        ensures
            r == self.recording_spec(),
    {
        self.recording
    }

    /// Record one execution of `resolved_name`. Nothing happens unless
    /// recording is on. A name already recorded has its call count raised by
    /// one; a new name is added in name order with the next first-seen
    /// position and a count of one.
    pub fn record_executed(&mut self, resolved_name: &str)
        requires
            old(self).wf(),
            old(self).names().len() < u64::MAX,
        ensures
            final(self).wf(),
            final(self).recording_spec() == old(self).recording_spec(),
            final(self).capabilities() == old(self).capabilities(),
            !old(self).recording_spec() ==> final(self).names() == old(self).names()
                && final(self).entries() == old(self).entries(),
            old(self).recording_spec() ==> (exists|i: int|
                0 <= i < old(self).names().len() && old(self).names()[i] == resolved_name@) ==> ({
                let i = choose|i: int|
                    0 <= i < old(self).names().len() && old(self).names()[i] == resolved_name@;
                &&& final(self).names() == old(self).names()
                &&& final(self).entries() == old(self).entries().update(
                    i,
                    ExecutedWord {
                        first_seen_order: old(self).entries()[i].first_seen_order,
                        call_count: if old(self).entries()[i].call_count < u64::MAX {
                            (old(self).entries()[i].call_count + 1) as u64
                        } else {
                            old(self).entries()[i].call_count
                        },
                    },
                )
            }),
            old(self).recording_spec() ==> !(exists|i: int|
                0 <= i < old(self).names().len() && old(self).names()[i] == resolved_name@) ==> (
            exists|p: int|
                0 <= p <= old(self).names().len() && final(self).names() == old(self).names().insert(
                    p,
                    resolved_name@,
                ) && final(self).entries() == old(self).entries().insert(
                    p,
                    ExecutedWord { first_seen_order: old(self).next_order_spec(), call_count: 1 },
                )),
    {
        if !self.recording {
            return;
        }
        let n = self.executed_words.len();
        let mut i: usize = 0;
        while i < n
            invariant
                n == self.executed_words@.len(),
                0 <= i <= n,
                self.wf(),
                self.recording_spec(),
                old(self).recording_spec(),
                self.names() == old(self).names(),
                self.entries() == old(self).entries(),
                self.capabilities() == old(self).capabilities(),
                self.next_order_spec() == old(self).next_order_spec(),
                forall|j: int| 0 <= j < i ==> self.names()[j] != resolved_name@,
            decreases n - i,
        {
            if str_equal(self.executed_words[i].0.as_str(), resolved_name) {
                let old_entry = self.executed_words[i].1;
                let count = if old_entry.call_count < u64::MAX {
                    old_entry.call_count + 1
                } else {
                    old_entry.call_count
                };
                let name = crate::value::copy_string(&self.executed_words[i].0);
                proof {
                    assert(name@ == resolved_name@);
                    assert(old(self).names()[i as int] == resolved_name@);
                }
                self.executed_words.set(
                    i,
                    (name, ExecutedWord { first_seen_order: old_entry.first_seen_order, call_count: count }),
                );
                proof {
                    let k = choose|k: int|
                        0 <= k < old(self).names().len() && old(self).names()[k] == resolved_name@;
                    lemma_sorted_unique(old(self).names(), k, i as int);
                    assert(self.names() =~= old(self).names());
                    assert(self.entries() =~= old(self).entries().update(
                        i as int,
                        ExecutedWord { first_seen_order: old_entry.first_seen_order, call_count: count },
                    ));
                }
                return;
            }
            i = i + 1;
        }
        // A new name: insert it before the first name it sorts before.
        let mut p: usize = 0;
        while p < n && str_lt(self.executed_words[p].0.as_str(), resolved_name)
            invariant
                n == self.executed_words@.len(),
                0 <= p <= n,
                forall|j: int| 0 <= j < p ==> seq_lt(#[trigger] self.names()[j], resolved_name@),
            decreases n - p,
        {
            p = p + 1;
        }
        let order = self.next_order;
        self.next_order = self.next_order + 1;
        let ghost old_names = self.names();
        let ghost old_entries = self.entries();
        self.executed_words.insert(
            p,
            (String::from_str(resolved_name), ExecutedWord { first_seen_order: order, call_count: 1 }),
        );
        proof {
            assert(self.names() =~= old_names.insert(p as int, resolved_name@));
            assert(self.entries() =~= old_entries.insert(
                p as int,
                ExecutedWord { first_seen_order: order, call_count: 1 },
            ));
            lemma_insert_sorted(old_names, p as int, resolved_name@);
        }
    }

    /// Record that `capability` was required. Nothing happens unless
    /// recording is on; a capability is listed once.
    pub fn record_required(&mut self, capability: HostCapability)
        requires
            old(self).wf(),
        ensures
            final(self).wf(),
            final(self).recording_spec() == old(self).recording_spec(),
            final(self).names() == old(self).names(),
            final(self).entries() == old(self).entries(),
            !old(self).recording_spec() ==> final(self).capabilities() == old(self).capabilities(),
            old(self).recording_spec() ==> final(self).capabilities().to_set() == old(
                self,
            ).capabilities().to_set().insert(capability),
    {
        if !self.recording {
            return;
        }
        let rank = capability_rank_of(capability);
        let n = self.required_capabilities.len();
        let mut p: usize = 0;
        while p < n && capability_rank_of(self.required_capabilities[p]) < rank
            invariant
                n == self.required_capabilities@.len(),
                0 <= p <= n,
                forall|j: int|
                    0 <= j < p ==> capability_rank(#[trigger] self.required_capabilities@[j])
                        < rank,
            decreases n - p,
        {
            p = p + 1;
        }
        if p < n && self.required_capabilities[p] == capability {
            proof {
                assert(old(self).capabilities().to_set().insert(capability) =~= old(
                    self,
                ).capabilities().to_set());
            }
            return;
        }
        let ghost old_caps = self.required_capabilities@;
        self.required_capabilities.insert(p, capability);
        proof {
            assert forall|i: int, j: int|
                0 <= i < j < self.required_capabilities@.len() implies capability_rank(
                #[trigger] self.required_capabilities@[i],
            ) < capability_rank(#[trigger] self.required_capabilities@[j]) by {
                if p < n {
                    assert(capability_rank(old_caps[p as int]) != rank);
                }
            }
            assert(self.required_capabilities@.to_set() =~= old_caps.to_set().insert(capability))
                by {
                assert forall|c: HostCapability| #[trigger]
                    self.required_capabilities@.to_set().contains(c) implies old_caps.to_set().insert(
                    capability,
                ).contains(c) by {
                    let k = choose|k: int|
                        0 <= k < self.required_capabilities@.len()
                            && self.required_capabilities@[k] == c;
                    if k < p {
                        assert(old_caps[k] == c);
                    } else if k > p {
                        assert(old_caps[k - 1] == c);
                    }
                }
                assert forall|c: HostCapability| #[trigger]
                    old_caps.to_set().insert(capability).contains(
                        c,
                    ) implies self.required_capabilities@.to_set().contains(c) by {
                    if c == capability {
                        assert(self.required_capabilities@[p as int] == c);
                    } else {
                        let k = choose|k: int| 0 <= k < old_caps.len() && old_caps[k] == c;
                        if k < p {
                            assert(self.required_capabilities@[k] == c);
                        } else {
                            assert(self.required_capabilities@[k + 1] == c);
                        }
                    }
                }
            }
        }
    }

    /// The recorded words, in ascending name order.
    pub fn executed_words(&self) -> (r: &Vec<(String, ExecutedWord)>)
        ensures
            entry_names(r@) == self.names(),
            r@.map_values(|p: (String, ExecutedWord)| p.1) == self.entries(),
    {
        &self.executed_words
    }

    /// The required capabilities, in their listing order.
    pub fn required_capabilities(&self) -> (r: &Vec<HostCapability>)
        ensures
            r@ == self.capabilities(),
    {
        &self.required_capabilities
    }

    /// Clear recorded data; the recording flag is kept.
    pub fn clear(&mut self)
        ensures
            final(self).wf(),
            final(self).recording_spec() == old(self).recording_spec(),
            final(self).names().len() == 0,
            final(self).capabilities().len() == 0,
    {
        self.next_order = 0;
        self.executed_words.clear();
        self.required_capabilities.clear();
        proof {
            assert(self.names() =~= Seq::<Seq<char>>::empty());
        }
    }
}

proof fn lemma_sorted_unique(n: Seq<Seq<char>>, a: int, b: int)
    requires
        names_sorted(n),
        0 <= a < n.len(),
        0 <= b < n.len(),
        n[a] == n[b],
    ensures
        a == b,
{
    if a < b {
        lemma_seq_lt_irreflexive(n[a]);
    } else if b < a {
        lemma_seq_lt_irreflexive(n[a]);
    }
}

proof fn lemma_insert_sorted(n: Seq<Seq<char>>, p: int, x: Seq<char>)
    requires
        names_sorted(n),
        0 <= p <= n.len(),
        forall|j: int| 0 <= j < p ==> seq_lt(#[trigger] n[j], x),
        forall|j: int| 0 <= j < n.len() ==> n[j] != x,
        p < n.len() ==> !seq_lt(n[p], x),
    ensures
        names_sorted(n.insert(p, x)),
{
    let m = n.insert(p, x);
    if p < n.len() {
        lemma_seq_lt_total(n[p], x);
    }
    assert forall|i: int, j: int| 0 <= i < j < m.len() implies seq_lt(
        #[trigger] m[i],
        #[trigger] m[j],
    ) by {
        if i < p && j < p {
        } else if i < p && j == p {
        } else if i < p && j > p {
            assert(m[j] == n[j - 1]);
            if j - 1 > i {
            }
        } else if i == p {
            assert(m[j] == n[j - 1]);
            if j - 1 > p {
                lemma_seq_lt_transitive(x, n[p], n[j - 1]);
            }
        } else {
            assert(m[i] == n[i - 1]);
            assert(m[j] == n[j - 1]);
        }
    }
}

} // verus!
