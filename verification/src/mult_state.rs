use vstd::prelude::*;
use std::collections::{HashMap, HashSet};
use crate::context::Replica;
use crate::field::LargeField;

verus! {

broadcast use vstd::std_specs::hash::group_hash_axioms;

/// State of the multiplication layers, one entry per circuit depth, and of
/// the output layer.
pub struct MultState {
    pub depth_share_map: HashMap<usize, SingleDepthState>,
    pub output_layer: OutputLayerState,
}

/// State of the multiplications at one depth of the circuit.
pub struct SingleDepthState {
    /// Each party sends one share from each group; sorted group-wise.
    pub l1_shares: Vec<(Vec<LargeField>, Vec<LargeField>)>,
    pub l1_shares_reconstructed: Vec<LargeField>,
    pub l2_shares: Vec<(Vec<LargeField>, Vec<LargeField>)>,
    pub l2_shares_reconstructed: Vec<LargeField>,
    pub util_rand_sharings: Vec<LargeField>,
    pub two_levels: bool,
    pub padding_shares: usize,
    pub recv_share_count_l1: usize,
    pub recv_share_count_l2: usize,
    pub recv_hash_set: HashSet<crate::context::Hash>,
    pub recv_hash_msgs: Vec<Replica>,
    pub depth_terminated: bool,
}

impl SingleDepthState {
    /// Nothing received yet; every collection is empty.
    pub open spec fn is_fresh(self, two_levels: bool) -> bool {
        &&& self.l1_shares@.len() == 0
        &&& self.l1_shares_reconstructed@.len() == 0
        &&& self.l2_shares@.len() == 0
        &&& self.l2_shares_reconstructed@.len() == 0
        &&& self.util_rand_sharings@.len() == 0
        &&& self.two_levels == two_levels
        &&& self.padding_shares == 0
        &&& self.recv_share_count_l1 == 0
        &&& self.recv_share_count_l2 == 0
        &&& self.recv_hash_set@ == Set::<crate::context::Hash>::empty()
        &&& self.recv_hash_msgs@.len() == 0
        &&& !self.depth_terminated
    }

    /// A fresh state whose share vectors hold `groups` empty pairs, one per group.
    pub open spec fn is_fresh_with_groups(self, two_levels: bool, groups: nat) -> bool {
        &&& self.l1_shares@.len() == groups
        &&& self.l2_shares@.len() == groups
        &&& forall|g: int| 0 <= g < groups ==> (#[trigger] self.l1_shares@[g]).0@.len() == 0 && self.l1_shares@[g].1@.len() == 0
        &&& forall|g: int| 0 <= g < groups ==> (#[trigger] self.l2_shares@[g]).0@.len() == 0 && self.l2_shares@[g].1@.len() == 0
        &&& self.l1_shares_reconstructed@.len() == 0
        &&& self.l2_shares_reconstructed@.len() == 0
        &&& self.util_rand_sharings@.len() == 0
        &&& self.two_levels == two_levels
        &&& self.padding_shares == 0
        &&& self.recv_share_count_l1 == 0
        &&& self.recv_share_count_l2 == 0
        &&& self.recv_hash_set@ == Set::<crate::context::Hash>::empty()
        &&& self.recv_hash_msgs@.len() == 0
        &&& !self.depth_terminated
    }

    /// A state at which nothing has been received.
    pub fn new(two_levels: bool) -> (s: Self)
        ensures
            s.is_fresh(two_levels),
    {
        SingleDepthState {
            l1_shares: Vec::new(),
            l1_shares_reconstructed: Vec::new(),
            l2_shares: Vec::new(),
            l2_shares_reconstructed: Vec::new(),
            util_rand_sharings: Vec::new(),
            two_levels,
            padding_shares: 0,
            recv_share_count_l1: 0,
            recv_share_count_l2: 0,
            recv_hash_set: HashSet::new(),
            recv_hash_msgs: Vec::new(),
            depth_terminated: false,
        }
    }
}

/// State of the output layer: output wire shares, the masked outputs and the
/// broadcast of them.
pub struct OutputLayerState {
    pub output_wire_shares: HashMap<usize, (LargeField, Vec<LargeField>)>,
    pub reconstructed_masked_outputs: Option<Vec<LargeField>>,
    pub broadcasted_masked_outputs: HashMap<Replica, Vec<u8>>,
    pub acs_output: Vec<Replica>,
    pub random_mask_shares: HashMap<usize, (LargeField, Vec<LargeField>)>,
}

impl OutputLayerState {
    /// Nothing received yet.
    pub open spec fn is_fresh(self) -> bool {
        &&& self.output_wire_shares@ == Map::<usize, (LargeField, Vec<LargeField>)>::empty()
        &&& self.reconstructed_masked_outputs is None
        &&& self.broadcasted_masked_outputs@ == Map::<Replica, Vec<u8>>::empty()
        &&& self.acs_output@.len() == 0
        &&& self.random_mask_shares@ == Map::<usize, (LargeField, Vec<LargeField>)>::empty()
    }

    /// An output layer at which nothing has been received.
    pub fn new() -> (s: Self)
        ensures
            s.is_fresh(),
    {
        OutputLayerState {
            output_wire_shares: HashMap::new(),
            reconstructed_masked_outputs: None,
            broadcasted_masked_outputs: HashMap::new(),
            acs_output: Vec::new(),
            random_mask_shares: HashMap::new(),
        }
    }
}

impl MultState {
    /// No depth started, a fresh output layer.
    pub fn new() -> (s: Self)
        ensures
            s.depth_share_map@ == Map::<usize, SingleDepthState>::empty(),
            s.output_layer.is_fresh(),
    {
        MultState { depth_share_map: HashMap::new(), output_layer: OutputLayerState::new() }
    }

    /// The state of `depth`, created with `tot_groups_in_level` empty groups
    /// if the depth has none yet; an existing state is handed back unchanged.
    pub fn get_single_depth_state(&mut self, depth: usize, two_levels: bool, tot_groups_in_level: usize) -> (r: &mut SingleDepthState)
        ensures
            old(self).depth_share_map@.contains_key(depth) ==> *r == old(self).depth_share_map@[depth],
            !old(self).depth_share_map@.contains_key(depth) ==> r.is_fresh_with_groups(two_levels, tot_groups_in_level as nat),
            final(self).depth_share_map@ == old(self).depth_share_map@.insert(depth, *final(r)),
            final(self).output_layer == old(self).output_layer,
    {
        let mut single_depth_state = SingleDepthState::new(two_levels);
        for _i in 0..tot_groups_in_level
            invariant
                single_depth_state.is_fresh_with_groups(two_levels, _i as nat),
        {
            single_depth_state.l1_shares.push((Vec::new(), Vec::new()));
            single_depth_state.l2_shares.push((Vec::new(), Vec::new()));
        }
        self.depth_share_map.entry(depth).or_insert(single_depth_state)
    }
}

} // verus!
