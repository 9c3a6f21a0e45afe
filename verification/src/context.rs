use vstd::prelude::*;
use std::collections::{HashMap, HashSet};
use crate::field::{LargeField, LargeFieldSer};
use crate::mult_state::MultState;
use crate::rand_mask::RandomOutputMaskStruct;

verus! {

/// The index of a party.
pub type Replica = usize;

/// A digest of 32 bytes.
pub type Hash = [u8; 32];

/// What the AVSS protocol hands out for one dealer: the serialized shares, the
/// nonce and the blinding nonce.
pub type AvssShare = (Vec<LargeFieldSer>, LargeFieldSer, LargeFieldSer);

/// Shares of one party, grouped by the instance (batch) that produced them.
pub type BatchShares = HashMap<usize, Vec<LargeField>>;

/// The messages of this protocol layer that a party broadcasts.
#[derive(Debug, PartialEq, Eq)]
pub enum ProtMsg {
    /// This party's shares of the random values whose square roots make the random bits.
    ReconstructRandBitShares(Vec<LargeFieldSer>),
    /// The AVSS share of `origin`'s output mask contribution held by the sender:
    /// shares, nonce, blinding nonce.
    ReconstructOutputMasks(Replica, Vec<LargeFieldSer>, LargeFieldSer, LargeFieldSer),
}

/// What a handler asks its caller to do, in order.
#[derive(Debug, PartialEq, Eq)]
pub enum Action {
    /// Send the message to every party.
    Broadcast(ProtMsg),
    /// Start an ACSS-with-abort instance with this id and these secrets.
    StartAcss(usize, Vec<LargeFieldSer>),
    /// Start a degree-2t sharing instance with this id and these secrets.
    StartSh2t(usize, Vec<LargeFieldSer>),
    /// A request to the AVSS protocol: whether this party deals, the secrets
    /// it deals, and a share to check for (origin, sender).
    AvssRequest(bool, Option<Vec<LargeFieldSer>>, Option<(Replica, Replica, AvssShare)>),
    /// Tell the agreement on a common subset that this party completed its sharings.
    AcsEvent(usize, Replica),
    /// Tell the synchronizer that the phase with this name terminated.
    Terminate(&'static str),
    /// Start the mixing circuit.
    InitMixing,
    /// Start preparing random shared bits.
    InitRandomSharedBitsPreparation,
    /// Reconstructed values of the random bit check, to be reported.
    ReportRandomBits(Vec<LargeField>),
    /// The unmasked output wires: the result of the computation.
    ReportOutput(Vec<LargeField>),
    /// The masks are reconstructed but the masked outputs are not known, so
    /// nothing can be unmasked.
    MaskedOutputsMissing,
}

/// Why a step of the protocol cannot go on: each is a point at which the
/// protocol aborts.
#[derive(Debug, Clone, Copy, PartialEq, Eq)]
pub enum ProtocolError {
    /// A party in the common subset has no shares of the named kind.
    MissingShares(Replica),
    /// A party sent more shares than the group layout holds.
    TooManyShares(Replica),
    /// Fewer sharings were produced than the coins take.
    TooFewSharings,
    /// A reconstructed value has no square root.
    NonSquare,
    /// A reconstructed value is zero and has no inverse.
    ZeroValue,
    /// The points handed to interpolation are not distinct or not matched.
    Interpolation,
}

/// State of the random sharing preprocessing.
pub struct RandSharingsState {
    pub shares: HashMap<Replica, BatchShares>,
    pub sh2t_shares: HashMap<Replica, BatchShares>,
    pub acss_completed_parties: HashSet<Replica>,
    pub acs_output: HashSet<Replica>,
    pub rand_sharings_inputs: (Vec<LargeField>, Vec<LargeField>),
    pub rand_sharings_mult: Vec<LargeField>,
    pub rand_sharings_coin: Vec<LargeField>,
    pub rand_2t_sharings_mult: Vec<LargeField>,
}

/// State of the mixing circuit's preprocessing: input sharings and random bits.
pub struct MixCircuitState {
    pub input_acss_shares: HashMap<Replica, BatchShares>,
    pub input_sharings: Vec<LargeField>,
    pub rand_bit_inp_shares: Vec<LargeField>,
    pub rand_bit_recon_shares: HashMap<Replica, Vec<LargeField>>,
    pub rand_bit_inverse_recon_values: Vec<LargeField>,
    pub rand_bit_reconstruction: HashMap<Replica, Vec<LargeField>>,
    pub rand_bit_sharings: Vec<LargeField>,
}

/// The state of one party of the protocol.
pub struct Context {
    pub myid: Replica,
    pub num_nodes: usize,
    pub num_faults: usize,
    pub tot_batches: usize,
    pub per_batch_maximum: usize,
    pub total_sharings: usize,
    pub total_sharings_for_coins: usize,
    pub output_mask_size: usize,
    pub input_acss_id_offset: usize,
    pub inputs: Vec<LargeField>,
    /// The point at which each party's share is an evaluation of the shared polynomial.
    pub evaluation_points: Vec<LargeField>,
    /// `(p - 1) / 2`, the threshold that picks one of two square roots.
    pub field_div_2: LargeField,
    pub rand_sharings_state: RandSharingsState,
    pub mix_circuit_state: MixCircuitState,
    pub output_mask_state: RandomOutputMaskStruct,
    pub mult_state: MultState,
}

impl Context {
    /// The configuration is within the machine's limits, and every party
    /// below `num_nodes` has an evaluation point.
    pub open spec fn wf(self) -> bool {
        &&& 3 * self.tot_batches <= usize::MAX
        &&& 3 * self.tot_batches * self.per_batch_maximum + self.output_mask_size <= usize::MAX
        &&& 2 * self.num_faults + 3 <= usize::MAX
        &&& self.input_acss_id_offset + self.inputs@.len() <= usize::MAX
        &&& self.evaluation_points@.len() >= self.num_nodes
    }

    /// The configuration of the two states is the same.
    pub open spec fn same_config(self, other: Context) -> bool {
        &&& self.myid == other.myid
        &&& self.num_nodes == other.num_nodes
        &&& self.num_faults == other.num_faults
        &&& self.tot_batches == other.tot_batches
        &&& self.per_batch_maximum == other.per_batch_maximum
        &&& self.total_sharings == other.total_sharings
        &&& self.total_sharings_for_coins == other.total_sharings_for_coins
        &&& self.output_mask_size == other.output_mask_size
        &&& self.input_acss_id_offset == other.input_acss_id_offset
        &&& self.inputs == other.inputs
        &&& self.evaluation_points == other.evaluation_points
        &&& self.field_div_2 == other.field_div_2
    }
}

} // verus!
