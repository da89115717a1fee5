//! The bridge gateway: configuration, the send path and the receive path.
//!
//! The gateway owns the whole state of one deployment: who owns it, which
//! transport it talks to, the registry of trusted emitters and the record of
//! processed messages.  Every call either commits all of its changes or
//! rejects the call and changes nothing.
//!
//! The state is described by [`BridgeState`], and each operation by a spec
//! function on it that gives the next state or the reason for the rejection.
//! The executable operations of [`Main`] are proved to follow those
//! functions.

use vstd::prelude::*;

use crate::bytes::same_text;
use crate::codec::{
    decode_message, decoded_text, encode_message, encoding, fits_frame, is_canonical,
    CrossChainMessage, GENERIC_TEXT,
};
use crate::error::BridgeError;
use crate::registry::{EmitterRegistry, EmitterTable};
use crate::replay::{lemma_record_grows, ReplayGuard, ReplayLog};

verus! {

/// The transport's entry point for publishing a message.
pub const PUBLISH_METHOD: &'static str = "publish_message";

/// A call that the gateway asks its host to dispatch to the transport.  The
/// gateway does not wait for the call's outcome, and nothing in its state
/// depends on it.
#[derive(Debug)]
pub struct Dispatch {
    /// Account of the transport.
    pub receiver: String,
    /// Name of the entry point to call.
    pub method: String,
    /// The encoded message.
    pub arguments: Vec<u8>,
    /// Value to attach to the call.
    pub deposit: u128,
    /// Execution budget to hand to the call.
    pub gas: u64,
}

/// A [`Dispatch`] as mathematics.
pub struct DispatchOrder {
    pub receiver: Seq<char>,
    pub method: Seq<char>,
    pub arguments: Seq<u8>,
    pub deposit: u128,
    pub gas: u64,
}

impl View for Dispatch {
    type V = DispatchOrder;

    open spec fn view(&self) -> DispatchOrder {
        DispatchOrder {
            receiver: self.receiver@,
            method: self.method@,
            arguments: self.arguments@,
            deposit: self.deposit,
            gas: self.gas,
        }
    }
}

/// The state of a deployed bridge, as mathematics.
#[verifier::ext_equal]
pub struct BridgeState {
    /// Who may register emitters.
    pub owner: Seq<char>,
    /// Account of the transport.
    pub wormhole: Seq<char>,
    /// Confirmation depth asked of the source chain.
    pub wormhole_finality: u8,
    /// The trusted emitters; the table also holds the local chain.
    pub emitters: EmitterTable,
    /// The processed messages.
    pub received: ReplayLog,
}

impl BridgeState {
    /// Identifier of the chain that the bridge runs on.
    pub open spec fn chain_id(self) -> u16 {
        self.emitters.local_chain_id
    }

    /// The invariant of the state: chain and finality are not zero, no
    /// emitter is registered for chain `0` or for the local chain or with an
    /// empty address, and no fingerprint is recorded twice.
    pub open spec fn valid(self) -> bool {
        &&& self.chain_id() != 0
        &&& self.wormhole_finality != 0
        &&& self.emitters.valid()
        &&& self.received.valid()
    }

    /// The state right after configuration.
    pub open spec fn initial(
        owner: Seq<char>,
        wormhole: Seq<char>,
        chain_id: u16,
        wormhole_finality: u8,
    ) -> BridgeState {
        BridgeState {
            owner,
            wormhole,
            wormhole_finality,
            emitters: EmitterTable::empty(chain_id),
            received: ReplayLog::empty(),
        }
    }

    /// Registration of an emitter by `caller`: only the owner may register,
    /// and only what the table admits.
    pub open spec fn register_emitter(
        self,
        caller: Seq<char>,
        chain_id: u16,
        address: Seq<u8>,
    ) -> Result<BridgeState, BridgeError> {
        if caller != self.owner {
            Err(BridgeError::Unauthorized)
        } else if !self.emitters.admits(chain_id, address) {
            Err(BridgeError::InvalidEmitter)
        } else {
            Ok(BridgeState { emitters: self.emitters.register(chain_id, address), ..self })
        }
    }

    /// Receipt of `encoded`, whose fingerprint is `fingerprint` and which the
    /// transport attests to come from `address` on chain `chain_id`.  The
    /// checks come in this order: replay, wire format, emitter.
    pub open spec fn receive(
        self,
        fingerprint: Seq<u8>,
        encoded: Seq<u8>,
        chain_id: u16,
        address: Seq<u8>,
    ) -> Result<BridgeState, BridgeError> {
        if self.received.has_seen(fingerprint) {
            Err(BridgeError::AlreadyProcessed)
        } else if !is_canonical(encoded) {
            Err(BridgeError::MalformedMessage)
        } else if !self.emitters.trusts(chain_id, address) {
            Err(BridgeError::UnknownEmitter)
        } else {
            Ok(
                BridgeState {
                    received: self.received.record(fingerprint, decoded_text(encoded)),
                    ..self
                },
            )
        }
    }

    /// Sending of `text` when the transport asks `required_fee`, the caller
    /// attached `deposit` and `remaining_gas` is left to spend: the deposit
    /// must be the fee exactly; the transport gets the encoded text, the
    /// deposit and half of the gas.
    pub open spec fn send(
        self,
        required_fee: u128,
        deposit: u128,
        remaining_gas: u64,
        text: Seq<char>,
    ) -> Result<DispatchOrder, BridgeError>
        recommends
            fits_frame(text),
    {
        if deposit != required_fee {
            Err(BridgeError::InsufficientDeposit)
        } else {
            Ok(
                DispatchOrder {
                    receiver: self.wormhole,
                    method: PUBLISH_METHOD@,
                    arguments: encoding(GENERIC_TEXT, text),
                    deposit,
                    gas: remaining_gas / 2,
                },
            )
        }
    }
}

/// Configuration of a bridge: allowed once, with a chain and a finality that
/// are not zero.
pub open spec fn initialize(
    already_initialized: bool,
    owner: Seq<char>,
    wormhole: Seq<char>,
    chain_id: u16,
    wormhole_finality: u8,
) -> Result<BridgeState, BridgeError> {
    if already_initialized {
        Err(BridgeError::AlreadyInitialized)
    } else if chain_id == 0 || wormhole_finality == 0 {
        Err(BridgeError::InvalidConfig)
    } else {
        Ok(BridgeState::initial(owner, wormhole, chain_id, wormhole_finality))
    }
}

/// Reassembly of a bridge from parts that were kept elsewhere: allowed with a
/// chain and a finality that are not zero.
pub open spec fn reassemble(
    owner: Seq<char>,
    wormhole: Seq<char>,
    wormhole_finality: u8,
    emitters: EmitterTable,
    received: ReplayLog,
) -> Result<BridgeState, BridgeError> {
    if emitters.local_chain_id == 0 || wormhole_finality == 0 {
        Err(BridgeError::InvalidConfig)
    } else {
        Ok(BridgeState { owner, wormhole, wormhole_finality, emitters, received })
    }
}

/// Whether a call that went from `before` to `after` with `outcome` did what
/// `step` says: on success `after` is the next state; on rejection the
/// outcome carries the reason and `after` is `before`.
pub open spec fn commits(
    before: BridgeState,
    step: Result<BridgeState, BridgeError>,
    outcome: Result<(), BridgeError>,
    after: BridgeState,
) -> bool {
    match step {
        Ok(next) => outcome is Ok && after == next,
        Err(reason) => outcome == Err::<(), BridgeError>(reason) && after == before,
    }
}

/// Every operation keeps a valid state valid and forgets nothing: a
/// registration leaves the processed messages alone, and a receipt leaves
/// the emitters alone and keeps every processed message at its place, with
/// its text.  Neither changes the configuration.
pub proof fn lemma_operations_keep_valid(
    state: BridgeState,
    caller: Seq<char>,
    chain_id: u16,
    address: Seq<u8>,
    fingerprint: Seq<u8>,
    encoded: Seq<u8>,
)
    requires
        state.valid(),
    ensures
        state.register_emitter(caller, chain_id, address) matches Ok(next) ==> {
            &&& next.valid()
            &&& next.received == state.received
            &&& next.owner == state.owner
            &&& next.wormhole == state.wormhole
            &&& next.chain_id() == state.chain_id()
            &&& next.wormhole_finality == state.wormhole_finality
        },
        state.receive(fingerprint, encoded, chain_id, address) matches Ok(next) ==> {
            &&& next.valid()
            &&& next.received.extends(state.received)
            &&& next.received.count() >= state.received.count()
            &&& next.emitters == state.emitters
            &&& next.owner == state.owner
            &&& next.wormhole == state.wormhole
            &&& next.wormhole_finality == state.wormhole_finality
        },
{
    if state.receive(fingerprint, encoded, chain_id, address) is Ok {
        lemma_record_grows(state.received, fingerprint, decoded_text(encoded));
    }
}

/// Configuration yields a valid state that has no emitter and has processed
/// nothing.
pub proof fn lemma_initialize_valid(
    owner: Seq<char>,
    wormhole: Seq<char>,
    chain_id: u16,
    wormhole_finality: u8,
)
    requires
        chain_id != 0,
        wormhole_finality != 0,
    ensures
        initialize(false, owner, wormhole, chain_id, wormhole_finality) matches Ok(state)
            && state.valid() && state.received.count() == 0 && state.chain_id() == chain_id,
        initialize(true, owner, wormhole, chain_id, wormhole_finality) == Err::<
            BridgeState,
            BridgeError,
        >(BridgeError::AlreadyInitialized),
{
}

/// A message is accepted at most once.  If a receipt is accepted, the count
/// of processed messages goes up by exactly one, and every later receipt of
/// the same fingerprint, whatever emitter it names, is rejected as already
/// processed.
pub proof fn lemma_receive_at_most_once(
    state: BridgeState,
    fingerprint: Seq<u8>,
    encoded: Seq<u8>,
    chain_id: u16,
    address: Seq<u8>,
    later_chain_id: u16,
    later_address: Seq<u8>,
)
    requires
        state.valid(),
        state.receive(fingerprint, encoded, chain_id, address) is Ok,
    ensures
        ({
            let next = state.receive(fingerprint, encoded, chain_id, address)->Ok_0;
            &&& next.valid()
            &&& next.received.count() == state.received.count() + 1
            &&& next.received.has_seen(fingerprint)
            &&& next.received.bodies[fingerprint] == decoded_text(encoded)
            &&& next.receive(fingerprint, encoded, later_chain_id, later_address) == Err::<
                BridgeState,
                BridgeError,
            >(BridgeError::AlreadyProcessed)
        }),
{
    lemma_record_grows(state.received, fingerprint, decoded_text(encoded));
}

/// A receipt is rejected unless the fingerprint is new, the bytes are a
/// canonical encoding and the emitter is the trusted one of its chain; the
/// reasons are told apart.
pub proof fn lemma_receive_rejections(
    state: BridgeState,
    fingerprint: Seq<u8>,
    encoded: Seq<u8>,
    chain_id: u16,
    address: Seq<u8>,
)
    ensures
        state.receive(fingerprint, encoded, chain_id, address) is Ok <==> !state.received.has_seen(
            fingerprint,
        ) && is_canonical(encoded) && state.emitters.trusts(chain_id, address),
        !state.received.has_seen(fingerprint) && !is_canonical(encoded) ==> state.receive(
            fingerprint,
            encoded,
            chain_id,
            address,
        ) == Err::<BridgeState, BridgeError>(BridgeError::MalformedMessage),
{
}

/// The fee is exact: whatever the transport asks, a send is accepted if and
/// only if the deposit equals the fee; a deposit of one unit more or one unit
/// less, like any other, is rejected as insufficient.  An accepted send hands
/// on the whole deposit.
pub proof fn lemma_exact_fee(
    state: BridgeState,
    required_fee: u128,
    deposit: u128,
    remaining_gas: u64,
    text: Seq<char>,
)
    ensures
        state.send(required_fee, deposit, remaining_gas, text) is Ok <==> deposit == required_fee,
        deposit != required_fee ==> state.send(required_fee, deposit, remaining_gas, text) == Err::<
            DispatchOrder,
            BridgeError,
        >(BridgeError::InsufficientDeposit),
        deposit == required_fee + 1 || deposit == required_fee - 1 ==> state.send(
            required_fee,
            deposit,
            remaining_gas,
            text,
        ) == Err::<DispatchOrder, BridgeError>(BridgeError::InsufficientDeposit),
        state.send(required_fee, deposit, remaining_gas, text) matches Ok(order) ==> order.deposit
            == required_fee,
{
}

/// The registry is guarded: a caller other than the owner is turned away as
/// unauthorized whatever the arguments are; the owner is turned away with an
/// invalid emitter for chain `0`, for the local chain and for an empty
/// address, and for nothing else.
pub proof fn lemma_registry_guard(
    state: BridgeState,
    caller: Seq<char>,
    chain_id: u16,
    address: Seq<u8>,
)
    ensures
        caller != state.owner ==> state.register_emitter(caller, chain_id, address) == Err::<
            BridgeState,
            BridgeError,
        >(BridgeError::Unauthorized),
        caller == state.owner && (chain_id == 0 || chain_id == state.chain_id() || address.len()
            == 0) ==> state.register_emitter(caller, chain_id, address) == Err::<
            BridgeState,
            BridgeError,
        >(BridgeError::InvalidEmitter),
        caller == state.owner && chain_id != 0 && chain_id != state.chain_id() && address.len()
            > 0 ==> state.register_emitter(caller, chain_id, address) is Ok,
        state.register_emitter(caller, chain_id, address) matches Ok(next) ==> next.emitters.trusts(
            chain_id,
            address,
        ) && next.received == state.received,
{
}

/// The gateway of one deployment.
pub struct Main {
    owner: String,
    wormhole: String,
    wormhole_finality: u8,
    registered_emitters: EmitterRegistry,
    received: ReplayGuard,
}

impl View for Main {
    type V = BridgeState;

    closed spec fn view(&self) -> BridgeState {
        BridgeState {
            owner: self.owner@,
            wormhole: self.wormhole@,
            wormhole_finality: self.wormhole_finality,
            emitters: self.registered_emitters@,
            received: self.received@,
        }
    }
}

impl Main {
    #[verifier::type_invariant]
    spec fn well_formed(&self) -> bool {
        self@.valid()
    }

    /// Configures a bridge that `owner` deploys on chain `chain_id`, with
    /// `wormhole` as its transport.
    ///
    /// `already_initialized` says whether the deployment holds a configured
    /// bridge already; configuring again is rejected with
    /// `AlreadyInitialized`.  A zero `chain_id` or `wormhole_finality` is
    /// rejected with `InvalidConfig`.
    pub fn new(
        already_initialized: bool,
        owner: String,
        wormhole: String,
        chain_id: u16,
        wormhole_finality: u8,
    ) -> (created: Result<Main, BridgeError>)
        ensures
            match initialize(already_initialized, owner@, wormhole@, chain_id, wormhole_finality) {
                Ok(state) => created matches Ok(bridge) && bridge@ == state && bridge@.valid(),
                Err(reason) => created matches Err(e) && e == reason,
            },
    {
        if already_initialized {
            return Err(BridgeError::AlreadyInitialized);
        }
        if chain_id == 0 || wormhole_finality == 0 {
            return Err(BridgeError::InvalidConfig);
        }
        Ok(
            Main {
                owner,
                wormhole,
                wormhole_finality,
                registered_emitters: EmitterRegistry::new(chain_id),
                received: ReplayGuard::new(),
            },
        )
    }

    /// Puts a bridge together from a configuration, a registry and a record
    /// of processed messages that were kept elsewhere.
    ///
    /// Rejected with `InvalidConfig` if the registry's local chain or
    /// `wormhole_finality` is zero.
    pub fn restore(
        owner: String,
        wormhole: String,
        wormhole_finality: u8,
        registered_emitters: EmitterRegistry,
        received: ReplayGuard,
    ) -> (restored: Result<Main, BridgeError>)
        ensures
            match reassemble(owner@, wormhole@, wormhole_finality, registered_emitters@, received@) {
                Ok(state) => restored matches Ok(bridge) && bridge@ == state && bridge@.valid(),
                Err(reason) => restored matches Err(e) && e == reason,
            },
    {
        // Both getters also tell that what they read from is valid.
        let chain_id = registered_emitters.local_chain_id();
        let _ = received.count();
        if chain_id == 0 || wormhole_finality == 0 {
            return Err(BridgeError::InvalidConfig);
        }
        Ok(Main { owner, wormhole, wormhole_finality, registered_emitters, received })
    }

    /// Who may register emitters.
    pub fn owner(&self) -> (owner: &String)
        ensures
            owner@ == self@.owner,
    {
        &self.owner
    }

    /// Account of the transport.
    pub fn wormhole(&self) -> (wormhole: &String)
        ensures
            wormhole@ == self@.wormhole,
    {
        &self.wormhole
    }

    /// Identifier of the chain that the bridge runs on; never zero.
    pub fn chain_id(&self) -> (chain_id: u16)
        ensures
            chain_id == self@.chain_id(),
            chain_id != 0,
    {
        proof {
            use_type_invariant(self);
        }
        self.registered_emitters.local_chain_id()
    }

    /// Confirmation depth asked of the source chain; never zero.
    pub fn wormhole_finality(&self) -> (finality: u8)
        ensures
            finality == self@.wormhole_finality,
            finality != 0,
    {
        proof {
            use_type_invariant(self);
        }
        self.wormhole_finality
    }

    /// The registry of trusted emitters.
    pub fn emitters(&self) -> (registry: &EmitterRegistry)
        ensures
            registry@ == self@.emitters,
    {
        &self.registered_emitters
    }

    /// The record of processed messages.
    pub fn processed(&self) -> (guard: &ReplayGuard)
        ensures
            guard@ == self@.received,
    {
        &self.received
    }

    /// Number of messages that were received and recorded.
    pub fn get_number_of_received_messages(&self) -> (count: u64)
        ensures
            count == self@.received.count(),
    {
        self.received.count()
    }

    /// Checks that `caller` is the owner; `Unauthorized` if not.
    pub fn assert_owner(&self, caller: &str) -> (outcome: Result<(), BridgeError>)
        ensures
            caller@ == self@.owner ==> outcome is Ok,
            caller@ != self@.owner ==> outcome == Err::<(), BridgeError>(BridgeError::Unauthorized),
    {
        if same_text(caller, self.owner.as_str()) {
            Ok(())
        } else {
            Err(BridgeError::Unauthorized)
        }
    }

    /// Prepares the publication of `message` through the transport.
    ///
    /// `required_fee` is the fee that the transport asks at present,
    /// `deposit` the value attached by the caller and `remaining_gas` the
    /// execution budget that is left.  The text must fit the frame.  The
    /// deposit must equal the fee, no more and no less; otherwise the call is
    /// rejected with `InsufficientDeposit`.  On success the result is the
    /// call that the host is to dispatch: the encoded message for the
    /// transport's publish entry point, with the whole deposit and half of
    /// the gas.  The state of the bridge does not change.
    pub fn send_message(
        &self,
        required_fee: u128,
        deposit: u128,
        remaining_gas: u64,
        message: String,
    ) -> (outcome: Result<Dispatch, BridgeError>)
        requires
            fits_frame(message@),
        ensures
            match self@.send(required_fee, deposit, remaining_gas, message@) {
                Ok(order) => outcome matches Ok(dispatch) && dispatch@ == order,
                Err(reason) => outcome matches Err(e) && e == reason,
            },
    {
        if deposit != required_fee {
            return Err(BridgeError::InsufficientDeposit);
        }
        let encoded_message = encode_message(
            &CrossChainMessage { payload_id: GENERIC_TEXT, message },
        );
        Ok(
            Dispatch {
                receiver: self.wormhole.clone(),
                method: PUBLISH_METHOD.to_owned(),
                arguments: encoded_message,
                deposit,
                gas: remaining_gas / 2,
            },
        )
    }

    /// Receives an encoded message that the transport attests to come from
    /// `emitter_address` on chain `emitter_chain_id`.  `fingerprint` is the
    /// hash of `encoded_message`, header and body, as the host computed it.
    ///
    /// Rejected with `AlreadyProcessed` if the fingerprint was recorded
    /// before; else with `MalformedMessage` if the bytes are not a canonical
    /// encoding; else with `UnknownEmitter` if `emitter_address` is not the
    /// trusted emitter of `emitter_chain_id`.  Otherwise the fingerprint is
    /// recorded with the decoded text, and the count of processed messages
    /// goes up by one.
    pub fn receive_message(
        &mut self,
        fingerprint: Vec<u8>,
        encoded_message: &[u8],
        emitter_chain_id: u16,
        emitter_address: &[u8],
    ) -> (outcome: Result<(), BridgeError>)
        ensures
            final(self)@.valid(),
            commits(
                old(self)@,
                old(self)@.receive(
                    fingerprint@,
                    encoded_message@,
                    emitter_chain_id,
                    emitter_address@,
                ),
                outcome,
                final(self)@,
            ),
    {
        proof {
            use_type_invariant(&*self);
        }
        if self.received.has_seen(fingerprint.as_slice()) {
            return Err(BridgeError::AlreadyProcessed);
        }
        let parsed_message = match decode_message(encoded_message) {
            Ok(parsed_message) => parsed_message,
            Err(reason) => {
                return Err(reason);
            },
        };
        if !self.registered_emitters.trusts(emitter_chain_id, emitter_address) {
            return Err(BridgeError::UnknownEmitter);
        }
        let mut received = ReplayGuard::new();
        std::mem::swap(&mut received, &mut self.received);
        let outcome = received.record(fingerprint, parsed_message.message);
        self.received = received;
        outcome
    }

    /// Registers `emitter_address` as the trusted emitter of
    /// `emitter_chain_id`, on behalf of `caller`.
    ///
    /// Rejected with `Unauthorized` if `caller` is not the owner, whatever the
    /// other arguments are; else with `InvalidEmitter` if the chain is `0` or
    /// the local chain, or if the address is empty.  Otherwise the record of
    /// the chain is created or overwritten.
    pub fn register_emitter(
        &mut self,
        caller: &str,
        emitter_chain_id: u16,
        emitter_address: Vec<u8>,
    ) -> (outcome: Result<(), BridgeError>)
        ensures
            final(self)@.valid(),
            commits(
                old(self)@,
                old(self)@.register_emitter(caller@, emitter_chain_id, emitter_address@),
                outcome,
                final(self)@,
            ),
    {
        proof {
            use_type_invariant(&*self);
        }
        match self.assert_owner(caller) {
            Ok(()) => {},
            Err(reason) => {
                return Err(reason);
            },
        }
        let mut registry = EmitterRegistry::new(self.registered_emitters.local_chain_id());
        std::mem::swap(&mut registry, &mut self.registered_emitters);
        let outcome = registry.register(emitter_chain_id, emitter_address);
        self.registered_emitters = registry;
        outcome
    }
}

} // verus!
