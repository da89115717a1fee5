//! Replay protection: the record of the messages that were processed.
//!
//! The guard keeps the fingerprints of the processed messages in the order
//! in which they were recorded, each with the text of its message.  A
//! fingerprint is recorded at most once, and nothing that was recorded is
//! ever removed or overwritten.

use vstd::prelude::*;

use crate::bytes::same_bytes;
use crate::error::BridgeError;

verus! {

/// One processed message: its fingerprint and the text it carried.
#[derive(Debug)]
pub struct ProcessedMessage {
    /// Hash of the encoded message.
    pub fingerprint: Vec<u8>,
    /// The decoded text.
    pub body: String,
}

/// What a [`ReplayGuard`] holds, as mathematics.
#[verifier::ext_equal]
pub struct ReplayLog {
    /// The fingerprints, oldest first.
    pub order: Seq<Seq<u8>>,
    /// The text recorded for each fingerprint.
    pub bodies: Map<Seq<u8>, Seq<char>>,
}

impl ReplayLog {
    /// The log in which nothing has been recorded.
    pub open spec fn empty() -> ReplayLog {
        ReplayLog { order: Seq::empty(), bodies: Map::empty() }
    }

    /// Whether `fingerprint` was recorded.
    pub open spec fn has_seen(self, fingerprint: Seq<u8>) -> bool {
        self.order.contains(fingerprint)
    }

    /// Number of fingerprints that were recorded.
    pub open spec fn count(self) -> nat {
        self.order.len()
    }

    /// The log after `fingerprint` is recorded with `body`.
    pub open spec fn record(self, fingerprint: Seq<u8>, body: Seq<char>) -> ReplayLog {
        ReplayLog {
            order: self.order.push(fingerprint),
            bodies: self.bodies.insert(fingerprint, body),
        }
    }

    /// The invariant of the log: no fingerprint occurs twice in the order,
    /// and the fingerprints that have a text are those in the order.
    pub open spec fn valid(self) -> bool {
        &&& self.order.no_duplicates()
        &&& forall|fingerprint: Seq<u8>|
            self.bodies.contains_key(fingerprint) <==> self.order.contains(fingerprint)
    }

    /// Whether `self` can have grown out of `earlier`: what was recorded
    /// then is still there, at its place and with its text.
    pub open spec fn extends(self, earlier: ReplayLog) -> bool {
        &&& earlier.order.is_prefix_of(self.order)
        &&& forall|fingerprint: Seq<u8>| #[trigger]
            earlier.bodies.contains_key(fingerprint) ==> self.bodies.contains_key(fingerprint)
                && self.bodies[fingerprint] == earlier.bodies[fingerprint]
    }
}

/// The fingerprints of `entries`, in order.
spec fn fingerprints_of(entries: Seq<ProcessedMessage>) -> Seq<Seq<u8>> {
    Seq::new(entries.len(), |i: int| entries[i].fingerprint@)
}

/// The texts of `entries`, by fingerprint; a later entry would win over an
/// earlier one with the same fingerprint.
spec fn bodies_of(entries: Seq<ProcessedMessage>) -> Map<Seq<u8>, Seq<char>>
    decreases entries.len(),
{
    if entries.len() == 0 {
        Map::empty()
    } else {
        bodies_of(entries.drop_last()).insert(entries.last().fingerprint@, entries.last().body@)
    }
}

/// The texts of `entries` are kept for exactly the fingerprints of `entries`.
proof fn lemma_bodies_domain(entries: Seq<ProcessedMessage>)
    ensures
        forall|fingerprint: Seq<u8>|
            bodies_of(entries).contains_key(fingerprint) <==> fingerprints_of(entries).contains(
                fingerprint,
            ),
    decreases entries.len(),
{
    if entries.len() > 0 {
        let front = entries.drop_last();
        let last = entries.last().fingerprint@;
        lemma_bodies_domain(front);
        assert forall|fingerprint: Seq<u8>|
            bodies_of(entries).contains_key(fingerprint) <==> fingerprints_of(entries).contains(
                fingerprint,
            ) by {
            if fingerprints_of(entries).contains(fingerprint) && fingerprint != last {
                let i = choose|i: int|
                    0 <= i < entries.len() && fingerprints_of(entries)[i] == fingerprint;
                assert(fingerprints_of(front)[i] == fingerprint);
                assert(fingerprints_of(front).contains(fingerprint));
            }
            if bodies_of(entries).contains_key(fingerprint) {
                if fingerprint == last {
                    assert(fingerprints_of(entries)[entries.len() - 1] == fingerprint);
                } else {
                    assert(bodies_of(front).contains_key(fingerprint));
                    assert(fingerprints_of(front).contains(fingerprint));
                    let i = choose|i: int|
                        0 <= i < front.len() && fingerprints_of(front)[i] == fingerprint;
                    assert(fingerprints_of(entries)[i] == fingerprint);
                }
            }
        }
    }
}

/// With distinct fingerprints, the text kept for the fingerprint of an entry
/// is the text of that entry.
proof fn lemma_body_of_entry(entries: Seq<ProcessedMessage>, i: int)
    requires
        fingerprints_of(entries).no_duplicates(),
        0 <= i < entries.len(),
    ensures
        bodies_of(entries).contains_key(entries[i].fingerprint@),
        bodies_of(entries)[entries[i].fingerprint@] == entries[i].body@,
    decreases entries.len(),
{
    let front = entries.drop_last();
    let last = entries.len() - 1;
    if i < last {
        assert(fingerprints_of(entries)[i] != fingerprints_of(entries)[last]);
        assert forall|j: int, k: int|
            0 <= j < front.len() && 0 <= k < front.len() && j != k implies fingerprints_of(
            front,
        )[j] != fingerprints_of(front)[k] by {
            assert(fingerprints_of(entries)[j] != fingerprints_of(entries)[k]);
        }
        lemma_body_of_entry(front, i);
    }
}

/// Recording a fingerprint that was not seen keeps the log valid, makes the
/// fingerprint seen with its text, raises the count by exactly one, and
/// removes or overwrites nothing that was recorded before.
pub proof fn lemma_record_grows(log: ReplayLog, fingerprint: Seq<u8>, body: Seq<char>)
    requires
        log.valid(),
        !log.has_seen(fingerprint),
    ensures
        log.record(fingerprint, body).valid(),
        log.record(fingerprint, body).has_seen(fingerprint),
        log.record(fingerprint, body).bodies[fingerprint] == body,
        log.record(fingerprint, body).count() == log.count() + 1,
        log.record(fingerprint, body).extends(log),
{
    let next = log.record(fingerprint, body);
    assert(next.order.last() == fingerprint);
    assert forall|other: Seq<u8>| next.bodies.contains_key(other) <==> next.order.contains(
        other,
    ) by {
        if log.order.contains(other) {
            let i = choose|i: int| 0 <= i < log.order.len() && log.order[i] == other;
            assert(next.order[i] == other);
        }
        if next.order.contains(other) && other != fingerprint {
            let i = choose|i: int| 0 <= i < next.order.len() && next.order[i] == other;
            assert(log.order[i] == other);
        }
    }
    assert(next.order.no_duplicates()) by {
        assert forall|i: int, j: int|
            0 <= i < next.order.len() && 0 <= j < next.order.len() && i != j implies next.order[i]
            != next.order[j] by {
            if i < log.order.len() && j < log.order.len() {
                assert(log.order[i] != log.order[j]);
            } else if i < log.order.len() {
                assert(log.order.contains(log.order[i]));
            } else {
                assert(log.order.contains(log.order[j]));
            }
        }
    }
}

/// A log that extends another has seen all that the other has seen, and
/// counts at least as many.
pub proof fn lemma_extends_keeps(later: ReplayLog, earlier: ReplayLog, fingerprint: Seq<u8>)
    requires
        later.extends(earlier),
    ensures
        earlier.count() <= later.count(),
        earlier.has_seen(fingerprint) ==> later.has_seen(fingerprint),
{
    if earlier.has_seen(fingerprint) {
        let i = choose|i: int| 0 <= i < earlier.order.len() && earlier.order[i] == fingerprint;
        assert(later.order[i] == fingerprint);
    }
}

/// The set of processed messages, with the order in which they came.
pub struct ReplayGuard {
    entries: Vec<ProcessedMessage>,
}

impl View for ReplayGuard {
    type V = ReplayLog;

    closed spec fn view(&self) -> ReplayLog {
        ReplayLog { order: fingerprints_of(self.entries@), bodies: bodies_of(self.entries@) }
    }
}

impl ReplayGuard {
    #[verifier::type_invariant]
    spec fn distinct(&self) -> bool {
        fingerprints_of(self.entries@).no_duplicates()
    }

    /// A guard that has seen nothing.
    pub fn new() -> (guard: ReplayGuard)
        ensures
            guard@ == ReplayLog::empty(),
            guard@.valid(),
    {
        let guard = ReplayGuard { entries: Vec::new() };
        assert(guard@.order =~= Seq::empty());
        guard
    }

    /// Whether `fingerprint` was recorded before.
    pub fn has_seen(&self, fingerprint: &[u8]) -> (seen: bool)
        ensures
            seen == self@.has_seen(fingerprint@),
    {
        let mut i: usize = 0;
        while i < self.entries.len()
            invariant
                i <= self.entries.len(),
                forall|j: int| 0 <= j < i ==> fingerprints_of(self.entries@)[j] != fingerprint@,
            decreases self.entries.len() - i,
        {
            if same_bytes(self.entries[i].fingerprint.as_slice(), fingerprint) {
                assert(fingerprints_of(self.entries@)[i as int] == fingerprint@);
                return true;
            }
            i += 1;
        }
        false
    }

    /// Records `fingerprint` with the text of its message.
    ///
    /// Fails with `AlreadyProcessed`, and changes nothing, if the fingerprint
    /// was recorded before.  Otherwise the fingerprint goes to the end of the
    /// order and its text into the table, both or neither.
    pub fn record(&mut self, fingerprint: Vec<u8>, body: String) -> (outcome: Result<
        (),
        BridgeError,
    >)
        ensures
            final(self)@.valid(),
            final(self)@.extends(old(self)@),
            old(self)@.has_seen(fingerprint@) ==> outcome == Err::<(), BridgeError>(
                BridgeError::AlreadyProcessed,
            ) && final(self)@ == old(self)@,
            !old(self)@.has_seen(fingerprint@) ==> outcome is Ok && final(self)@ == old(
                self,
            )@.record(fingerprint@, body@),
    {
        proof {
            use_type_invariant(&*self);
            lemma_bodies_domain(self.entries@);
        }
        if self.has_seen(fingerprint.as_slice()) {
            return Err(BridgeError::AlreadyProcessed);
        }
        let ghost before = self.entries@;
        let ghost added = fingerprint@;
        let mut entries: Vec<ProcessedMessage> = Vec::new();
        std::mem::swap(&mut entries, &mut self.entries);
        entries.push(ProcessedMessage { fingerprint, body });
        proof {
            assert(entries@.drop_last() == before);
            assert(fingerprints_of(entries@) == fingerprints_of(before).push(added));
            lemma_bodies_domain(entries@);
        }
        self.entries = entries;
        Ok(())
    }

    /// The text that was recorded for `fingerprint`; `None` if the
    /// fingerprint was never recorded.
    pub fn body_of(&self, fingerprint: &[u8]) -> (body: Option<&String>)
        ensures
            body is Some <==> self@.has_seen(fingerprint@),
            body matches Some(text) ==> self@.bodies.contains_key(fingerprint@)
                && self@.bodies[fingerprint@] == text@,
    {
        proof {
            use_type_invariant(self);
        }
        let mut i: usize = 0;
        while i < self.entries.len()
            invariant
                i <= self.entries.len(),
                fingerprints_of(self.entries@).no_duplicates(),
                forall|j: int| 0 <= j < i ==> fingerprints_of(self.entries@)[j] != fingerprint@,
            decreases self.entries.len() - i,
        {
            if same_bytes(self.entries[i].fingerprint.as_slice(), fingerprint) {
                proof {
                    assert(fingerprints_of(self.entries@)[i as int] == fingerprint@);
                    lemma_body_of_entry(self.entries@, i as int);
                }
                return Some(&self.entries[i].body);
            }
            i += 1;
        }
        None
    }

    /// The `index`-th processed message, oldest first; `None` from
    /// [`ReplayGuard::count`] on.
    pub fn entry(&self, index: u64) -> (entry: Option<&ProcessedMessage>)
        ensures
            entry is Some <==> index < self@.count(),
            entry matches Some(e) ==> e.fingerprint@ == self@.order[index as int]
                && self@.bodies.contains_key(e.fingerprint@) && self@.bodies[e.fingerprint@]
                == e.body@,
    {
        proof {
            use_type_invariant(self);
        }
        if index < self.entries.len() as u64 {
            let i: usize = index as usize;
            proof {
                lemma_body_of_entry(self.entries@, i as int);
            }
            Some(&self.entries[i])
        } else {
            None
        }
    }

    /// Number of distinct fingerprints that were recorded.
    pub fn count(&self) -> (count: u64)
        ensures
            count == self@.count(),
            self@.valid(),
    {
        proof {
            use_type_invariant(self);
            lemma_bodies_domain(self.entries@);
        }
        self.entries.len() as u64
    }
}

} // verus!
