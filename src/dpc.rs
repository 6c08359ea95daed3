use vstd::prelude::*;

verus! {

/// A 256-bit identifier (a root, an address, a program id) as four little-endian limbs.
#[derive(Clone, Copy, Debug, PartialEq, Eq, Structural)]
pub struct Digest(pub u64, pub u64, pub u64, pub u64);

impl Digest {
    pub fn zero() -> (r: Digest)
        ensures
            r == Digest(0, 0, 0, 0),
    {
        Digest(0, 0, 0, 0)
    }
}

pub type Address = Digest;

pub type ProgramId = Digest;

pub type TransitionId = Digest;

pub type TransactionId = Digest;

pub type LedgerRoot = Digest;

/// An amount of credits, counted in the smallest unit; negative for a balance owed.
#[derive(Clone, Copy, Debug, PartialEq, Eq, Structural)]
pub struct AleoAmount(pub i64);

impl AleoAmount {
    pub fn from_i64(v: i64) -> (r: AleoAmount)
        ensures
            r.0 == v,
    {
        AleoAmount(v)
    }
}

/// The program data carried to a recipient.
#[derive(Clone, Debug)]
pub struct Payload {
    pub bytes: Vec<u8>,
}

/// What a network fixes for its transitions.
#[derive(Clone, Copy, Debug, PartialEq, Eq, Structural)]
pub struct NetworkParameters {
    /// The program that does nothing.
    pub noop_program_id: ProgramId,
}

/// A record to be created by a transition.
#[derive(Clone, Debug)]
pub struct Output {
    /// The address of the recipient.
    address: Address,
    /// The balance of the recipient.
    value: AleoAmount,
    /// The program data of the recipient.
    payload: Payload,
    /// The program that was run.
    program_id: ProgramId,
}

impl Output {
    pub closed spec fn address_spec(&self) -> Address {
        self.address
    }

    pub closed spec fn value_spec(&self) -> AleoAmount {
        self.value
    }

    pub closed spec fn payload_spec(&self) -> Seq<u8> {
        self.payload.bytes@
    }

    pub closed spec fn program_id_spec(&self) -> ProgramId {
        self.program_id
    }

    /// An output to `address`; without a program id it is the network's noop program.
    pub fn new(
        address: Address,
        value: AleoAmount,
        payload: Payload,
        program_id: Option<ProgramId>,
        network: &NetworkParameters,
    ) -> (r: Output)
        ensures
            r.address_spec() == address,
            r.value_spec() == value,
            r.payload_spec() == payload.bytes@,
            r.program_id_spec() == match program_id {
                Some(id) => id,
                None => network.noop_program_id,
            },
    {
        let program_id = match program_id {
            Some(program_id) => program_id,
            None => network.noop_program_id,
        };
        Output { address, value, payload, program_id }
    }

    /// `true` when the program is the network's noop program.
    pub fn is_noop(&self, network: &NetworkParameters) -> (r: bool)
        ensures
            r == (self.program_id_spec() == network.noop_program_id),
    {
        self.program_id == network.noop_program_id
    }

    pub fn address(&self) -> (r: Address)
        ensures
            r == self.address_spec(),
    {
        self.address
    }

    pub fn value(&self) -> (r: AleoAmount)
        ensures
            r == self.value_spec(),
    {
        self.value
    }

    pub fn payload(&self) -> (r: &Payload)
        ensures
            r.bytes@ == self.payload_spec(),
    {
        &self.payload
    }

    pub fn program_id(&self) -> (r: ProgramId)
        ensures
            r == self.program_id_spec(),
    {
        self.program_id
    }
}

/// The public inputs of the inner circuit of a transition.
#[derive(Clone, Copy, Debug, PartialEq, Eq, Structural)]
pub struct InnerPublicVariables {
    transition_id: TransitionId,
    value_balance: AleoAmount,
    ledger_root: LedgerRoot,
    local_transitions_root: TransactionId,
    /// Needed to verify an inner proof natively; the outer circuit takes it as a witness.
    program_id: Option<ProgramId>,
}

impl InnerPublicVariables {
    pub closed spec fn transition_id_spec(&self) -> TransitionId {
        self.transition_id
    }

    pub closed spec fn value_balance_spec(&self) -> AleoAmount {
        self.value_balance
    }

    pub closed spec fn ledger_root_spec(&self) -> LedgerRoot {
        self.ledger_root
    }

    pub closed spec fn local_transitions_root_spec(&self) -> TransactionId {
        self.local_transitions_root
    }

    pub closed spec fn program_id_spec(&self) -> Option<ProgramId> {
        self.program_id
    }

    /// Placeholder inputs for setting up the circuit: every identifier zero, a zero
    /// balance and the zero program id.
    pub fn blank() -> (r: InnerPublicVariables)
        ensures
            r.transition_id_spec() == Digest(0, 0, 0, 0),
            r.value_balance_spec() == AleoAmount(0),
            r.ledger_root_spec() == Digest(0, 0, 0, 0),
            r.local_transitions_root_spec() == Digest(0, 0, 0, 0),
            r.program_id_spec() == Some(Digest(0, 0, 0, 0)),
    {
        InnerPublicVariables {
            transition_id: Digest::zero(),
            value_balance: AleoAmount::from_i64(0),
            ledger_root: Digest::zero(),
            local_transitions_root: Digest::zero(),
            program_id: Some(Digest::zero()),
        }
    }

    pub fn new(
        transition_id: TransitionId,
        value_balance: AleoAmount,
        ledger_root: LedgerRoot,
        local_transitions_root: TransactionId,
        program_id: Option<ProgramId>,
    ) -> (r: InnerPublicVariables)
        ensures
            r.transition_id_spec() == transition_id,
            r.value_balance_spec() == value_balance,
            r.ledger_root_spec() == ledger_root,
            r.local_transitions_root_spec() == local_transitions_root,
            r.program_id_spec() == program_id,
    {
        InnerPublicVariables {
            transition_id,
            value_balance,
            ledger_root,
            local_transitions_root,
            program_id,
        }
    }

    pub fn transition_id(&self) -> (r: TransitionId)
        ensures
            r == self.transition_id_spec(),
    {
        self.transition_id
    }

    pub fn value_balance(&self) -> (r: AleoAmount)
        ensures
            r == self.value_balance_spec(),
    {
        self.value_balance
    }

    pub fn ledger_root(&self) -> (r: LedgerRoot)
        ensures
            r == self.ledger_root_spec(),
    {
        self.ledger_root
    }

    pub fn local_transitions_root(&self) -> (r: TransactionId)
        ensures
            r == self.local_transitions_root_spec(),
    {
        self.local_transitions_root
    }

    pub fn program_id(&self) -> (r: Option<ProgramId>)
        ensures
            r == self.program_id_spec(),
    {
        self.program_id
    }
}

} // verus!
