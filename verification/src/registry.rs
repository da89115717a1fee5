//! The registry of trusted emitters: for each remote chain, the one address
//! whose messages the bridge accepts.
//!
//! A registry belongs to one local chain.  It never holds a record for chain
//! `0` or for the local chain, nor an empty address.  Registering a chain
//! again replaces its address; nothing is ever deleted.

use vstd::prelude::*;

use crate::bytes::same_bytes;
use crate::error::BridgeError;

verus! {

/// The trusted emitter of one remote chain.
struct EmitterRecord {
    /// Identifier of the remote chain.
    chain_id: u16,
    /// Address of the trusted sender on that chain.
    address: Vec<u8>,
}

/// What an [`EmitterRegistry`] holds, as mathematics.
#[verifier::ext_equal]
pub struct EmitterTable {
    /// The chain that the registry belongs to.
    pub local_chain_id: u16,
    /// The trusted address of each registered chain.
    pub emitters: Map<u16, Seq<u8>>,
}

impl EmitterTable {
    /// The table of `local_chain_id` with no emitter.
    pub open spec fn empty(local_chain_id: u16) -> EmitterTable {
        EmitterTable { local_chain_id, emitters: Map::empty() }
    }

    /// Whether `(chain_id, address)` may be registered: the chain is neither
    /// `0` nor the local chain, and the address is not empty.
    pub open spec fn admits(self, chain_id: u16, address: Seq<u8>) -> bool {
        chain_id != 0 && chain_id != self.local_chain_id && address.len() > 0
    }

    /// The trusted address of `chain_id`, if one is registered.
    pub open spec fn lookup(self, chain_id: u16) -> Option<Seq<u8>> {
        if self.emitters.contains_key(chain_id) {
            Some(self.emitters[chain_id])
        } else {
            None
        }
    }

    /// Whether `address` is the trusted emitter of `chain_id`.
    pub open spec fn trusts(self, chain_id: u16, address: Seq<u8>) -> bool {
        self.lookup(chain_id) == Some(address)
    }

    /// The table after `address` is registered for `chain_id`, whatever was
    /// registered for that chain before.
    pub open spec fn register(self, chain_id: u16, address: Seq<u8>) -> EmitterTable {
        EmitterTable {
            local_chain_id: self.local_chain_id,
            emitters: self.emitters.insert(chain_id, address),
        }
    }

    /// The invariant of the table: every record could have been registered.
    pub open spec fn valid(self) -> bool {
        forall|chain_id: u16| #[trigger]
            self.emitters.contains_key(chain_id) ==> self.admits(chain_id, self.emitters[chain_id])
    }
}

/// Registering what the table admits keeps the table valid, makes the
/// address the trusted one of its chain, and leaves every other chain as it
/// was.  Registering the same record twice is the same as registering it once.
pub proof fn lemma_register_upserts(table: EmitterTable, chain_id: u16, address: Seq<u8>)
    requires
        table.valid(),
        table.admits(chain_id, address),
    ensures
        table.register(chain_id, address).valid(),
        table.register(chain_id, address).trusts(chain_id, address),
        forall|other: u16|
            other != chain_id ==> table.register(chain_id, address).lookup(other) == table.lookup(
                other,
            ),
        table.register(chain_id, address).register(chain_id, address) == table.register(
            chain_id,
            address,
        ),
{
    let once = table.register(chain_id, address);
    assert(once.register(chain_id, address).emitters =~= once.emitters);
}

/// A valid table trusts nobody on chain `0` or on its own chain, and never
/// an empty address.
pub proof fn lemma_valid_table_trusts_only_remote(
    table: EmitterTable,
    chain_id: u16,
    address: Seq<u8>,
)
    requires
        table.valid(),
        table.trusts(chain_id, address),
    ensures
        table.admits(chain_id, address),
{
}

/// Whether some record of `records` is for `chain_id`.
spec fn has_chain(records: Seq<EmitterRecord>, chain_id: u16) -> bool {
    exists|i: int| 0 <= i < records.len() && #[trigger] records[i].chain_id == chain_id
}

/// Where the record of `chain_id` stands in `records`.
spec fn position_of(records: Seq<EmitterRecord>, chain_id: u16) -> int
    recommends
        has_chain(records, chain_id),
{
    choose|i: int| 0 <= i < records.len() && #[trigger] records[i].chain_id == chain_id
}

/// The table that `records` spell out.
spec fn table_of(records: Seq<EmitterRecord>) -> Map<u16, Seq<u8>> {
    Map::new(
        |chain_id: u16| has_chain(records, chain_id),
        |chain_id: u16| records[position_of(records, chain_id)].address@,
    )
}

/// Whether no two records of `records` are for the same chain.
spec fn distinct_chains(records: Seq<EmitterRecord>) -> bool {
    forall|i: int, j: int|
        0 <= i < records.len() && 0 <= j < records.len() && i != j ==> #[trigger] records[i].chain_id
            != #[trigger] records[j].chain_id
}

/// The registry of trusted emitters of one local chain.
pub struct EmitterRegistry {
    local_chain_id: u16,
    records: Vec<EmitterRecord>,
}

impl View for EmitterRegistry {
    type V = EmitterTable;

    closed spec fn view(&self) -> EmitterTable {
        EmitterTable { local_chain_id: self.local_chain_id, emitters: table_of(self.records@) }
    }
}

impl EmitterRegistry {
    #[verifier::type_invariant]
    spec fn well_formed(&self) -> bool {
        &&& distinct_chains(self.records@)
        &&& forall|i: int|
            0 <= i < self.records@.len() ==> {
                &&& (#[trigger] self.records@[i]).chain_id != 0
                &&& self.records@[i].chain_id != self.local_chain_id
                &&& self.records@[i].address@.len() > 0
            }
    }

    /// The registry of `local_chain_id`, with no emitter yet.
    pub fn new(local_chain_id: u16) -> (registry: EmitterRegistry)
        ensures
            registry@ == EmitterTable::empty(local_chain_id),
            registry@.valid(),
    {
        let registry = EmitterRegistry { local_chain_id, records: Vec::new() };
        assert(registry@.emitters =~= Map::empty());
        registry
    }

    /// The chain that the registry belongs to.
    pub fn local_chain_id(&self) -> (chain_id: u16)
        ensures
            chain_id == self@.local_chain_id,
            self@.valid(),
    {
        proof {
            use_type_invariant(self);
            Self::lemma_table_valid(self.local_chain_id, self.records@);
        }
        self.local_chain_id
    }

    /// Index of the record of `chain_id` in `records`, if there is one.
    fn find(records: &Vec<EmitterRecord>, chain_id: u16) -> (found: Option<usize>)
        ensures
            found is Some <==> has_chain(records@, chain_id),
            found matches Some(i) ==> i < records@.len() && records@[i as int].chain_id == chain_id,
    {
        let mut i: usize = 0;
        while i < records.len()
            invariant
                i <= records.len(),
                forall|j: int| 0 <= j < i ==> (#[trigger] records@[j]).chain_id != chain_id,
            decreases records.len() - i,
        {
            if records[i].chain_id == chain_id {
                return Some(i);
            }
            i += 1;
        }
        None
    }

    /// Registers `address` as the trusted emitter of `chain_id`.
    ///
    /// Fails with `InvalidEmitter`, and changes nothing, if `chain_id` is `0`
    /// or the local chain, or if `address` is empty.  Otherwise the record of
    /// `chain_id` is created or overwritten; the other records stay.
    pub fn register(&mut self, chain_id: u16, address: Vec<u8>) -> (outcome: Result<
        (),
        BridgeError,
    >)
        ensures
            final(self)@.valid(),
            old(self)@.admits(chain_id, address@) ==> outcome is Ok && final(self)@ == old(
                self,
            )@.register(chain_id, address@),
            !old(self)@.admits(chain_id, address@) ==> outcome == Err::<(), BridgeError>(
                BridgeError::InvalidEmitter,
            ) && final(self)@ == old(self)@,
    {
        proof {
            use_type_invariant(&*self);
            Self::lemma_table_valid(self.local_chain_id, self.records@);
        }
        if chain_id == 0 || chain_id == self.local_chain_id || address.len() == 0 {
            return Err(BridgeError::InvalidEmitter);
        }
        let ghost before = self.records@;
        let ghost added = address@;
        let mut records: Vec<EmitterRecord> = Vec::new();
        std::mem::swap(&mut records, &mut self.records);
        match Self::find(&records, chain_id) {
            Some(i) => {
                records.set(i, EmitterRecord { chain_id, address });
                proof {
                    Self::lemma_replace(before, records@, i as int);
                }
            },
            None => {
                records.push(EmitterRecord { chain_id, address });
                proof {
                    assert(records@.drop_last() =~= before);
                    Self::lemma_append(before, records@);
                }
            },
        }
        proof {
            assert(table_of(records@) =~= table_of(before).insert(chain_id, added));
            Self::lemma_table_valid(self.local_chain_id, records@);
        }
        self.records = records;
        Ok(())
    }

    /// The trusted emitter of `chain_id`; `None` if the chain is not
    /// registered.
    pub fn lookup(&self, chain_id: u16) -> (address: Option<&Vec<u8>>)
        ensures
            address is Some <==> self@.lookup(chain_id) is Some,
            address matches Some(a) ==> self@.lookup(chain_id) == Some(a@),
    {
        proof {
            use_type_invariant(self);
        }
        match Self::find(&self.records, chain_id) {
            Some(i) => {
                proof {
                    Self::lemma_position(self.records@, i as int);
                }
                Some(&self.records[i].address)
            },
            None => None,
        }
    }

    /// Whether `address` is the trusted emitter of `chain_id`.
    pub fn trusts(&self, chain_id: u16, address: &[u8]) -> (trusted: bool)
        ensures
            trusted == self@.trusts(chain_id, address@),
    {
        match self.lookup(chain_id) {
            Some(registered) => same_bytes(registered.as_slice(), address),
            None => false,
        }
    }

    /// The chains that have an emitter, each once.
    pub fn chains(&self) -> (chains: Vec<u16>)
        ensures
            chains@.no_duplicates(),
            forall|chain_id: u16|
                chains@.contains(chain_id) <==> self@.emitters.contains_key(chain_id),
    {
        proof {
            use_type_invariant(self);
        }
        let mut chains: Vec<u16> = Vec::new();
        let mut i: usize = 0;
        while i < self.records.len()
            invariant
                i <= self.records.len(),
                chains@.len() == i,
                forall|j: int| 0 <= j < i ==> chains@[j] == (#[trigger] self.records@[j]).chain_id,
            decreases self.records.len() - i,
        {
            chains.push(self.records[i].chain_id);
            i += 1;
        }
        proof {
            assert forall|j: int, k: int|
                0 <= j < chains@.len() && 0 <= k < chains@.len() && j != k implies chains@[j]
                != chains@[k] by {
                assert(self.records@[j].chain_id != self.records@[k].chain_id);
            }
            assert forall|chain_id: u16|
                chains@.contains(chain_id) <==> self@.emitters.contains_key(chain_id) by {
                if chains@.contains(chain_id) {
                    let j = choose|j: int| 0 <= j < chains@.len() && chains@[j] == chain_id;
                    assert(self.records@[j].chain_id == chain_id);
                }
                if has_chain(self.records@, chain_id) {
                    let j = position_of(self.records@, chain_id);
                    assert(chains@[j] == chain_id);
                }
            }
        }
        chains
    }

    /// With distinct chains, the record found for a chain is the record at
    /// any index that holds the chain.
    proof fn lemma_position(records: Seq<EmitterRecord>, i: int)
        requires
            distinct_chains(records),
            0 <= i < records.len(),
        ensures
            has_chain(records, records[i].chain_id),
            position_of(records, records[i].chain_id) == i,
            table_of(records).contains_key(records[i].chain_id),
            table_of(records)[records[i].chain_id] == records[i].address@,
    {
        assert(has_chain(records, records[i].chain_id));
    }

    /// Records that satisfy the registry's invariant spell out a valid table.
    proof fn lemma_table_valid(local_chain_id: u16, records: Seq<EmitterRecord>)
        requires
            distinct_chains(records),
            forall|i: int|
                0 <= i < records.len() ==> {
                    &&& (#[trigger] records[i]).chain_id != 0
                    &&& records[i].chain_id != local_chain_id
                    &&& records[i].address@.len() > 0
                },
        ensures
            (EmitterTable { local_chain_id, emitters: table_of(records) }).valid(),
    {
        let table = EmitterTable { local_chain_id, emitters: table_of(records) };
        assert forall|chain_id: u16| #[trigger] table.emitters.contains_key(chain_id) implies table.admits(
            chain_id,
            table.emitters[chain_id],
        ) by {
            let i = position_of(records, chain_id);
            assert(records[i].chain_id == chain_id);
        }
    }

    /// Replacing the record of a chain by another record of the same chain
    /// overwrites that chain's entry of the table.
    proof fn lemma_replace(before: Seq<EmitterRecord>, after: Seq<EmitterRecord>, i: int)
        requires
            distinct_chains(before),
            0 <= i < before.len(),
            after.len() == before.len(),
            after[i].chain_id == before[i].chain_id,
            forall|j: int| 0 <= j < before.len() && j != i ==> after[j] == before[j],
        ensures
            distinct_chains(after),
            table_of(after) =~= table_of(before).insert(after[i].chain_id, after[i].address@),
    {
        assert forall|j: int| 0 <= j < after.len() implies (#[trigger] after[j]).chain_id
            == before[j].chain_id by {}
        assert(distinct_chains(after)) by {
            assert forall|j: int, k: int|
                0 <= j < after.len() && 0 <= k < after.len() && j != k implies #[trigger] after[j].chain_id
                != #[trigger] after[k].chain_id by {
                assert(before[j].chain_id != before[k].chain_id);
            }
        }
        let chain = after[i].chain_id;
        assert forall|c: u16| has_chain(after, c) <==> has_chain(before, c) by {
            if has_chain(after, c) {
                let j = position_of(after, c);
                assert(before[j].chain_id == c);
            }
            if has_chain(before, c) {
                let j = position_of(before, c);
                assert(after[j].chain_id == c);
            }
        }
        assert forall|c: u16| has_chain(after, c) implies #[trigger] table_of(after)[c] == table_of(
            before,
        ).insert(chain, after[i].address@)[c] by {
            let j = position_of(after, c);
            Self::lemma_position(after, j);
            Self::lemma_position(before, j);
        }
    }

    /// Appending the record of a chain that has none adds that chain's entry
    /// to the table.
    proof fn lemma_append(before: Seq<EmitterRecord>, after: Seq<EmitterRecord>)
        requires
            distinct_chains(before),
            after.len() == before.len() + 1,
            after.drop_last() == before,
            !has_chain(before, after.last().chain_id),
        ensures
            distinct_chains(after),
            table_of(after) =~= table_of(before).insert(
                after.last().chain_id,
                after.last().address@,
            ),
    {
        let n = before.len() as int;
        let chain = after[n].chain_id;
        assert forall|j: int| 0 <= j < n implies #[trigger] after[j] == before[j] by {}
        assert(distinct_chains(after)) by {
            assert forall|j: int, k: int|
                0 <= j < after.len() && 0 <= k < after.len() && j != k implies #[trigger] after[j].chain_id
                != #[trigger] after[k].chain_id by {
                if j < n && k < n {
                    assert(before[j].chain_id != before[k].chain_id);
                } else if j < n {
                    assert(before[j].chain_id != chain);
                } else {
                    assert(before[k].chain_id != chain);
                }
            }
        }
        assert forall|c: u16| has_chain(after, c) <==> (c == chain || has_chain(before, c)) by {
            if has_chain(after, c) && c != chain {
                let j = position_of(after, c);
                assert(before[j].chain_id == c);
            }
            if has_chain(before, c) {
                let j = position_of(before, c);
                assert(after[j].chain_id == c);
            }
            if c == chain {
                assert(after[n].chain_id == c);
            }
        }
        assert forall|c: u16| has_chain(after, c) implies #[trigger] table_of(after)[c] == table_of(
            before,
        ).insert(chain, after[n].address@)[c] by {
            let j = position_of(after, c);
            Self::lemma_position(after, j);
            if j < n {
                Self::lemma_position(before, j);
            }
        }
    }
}

} // verus!
