use vstd::prelude::*;
use std::collections::{HashMap, HashSet, VecDeque};
use crate::context::{Action, AvssShare, Context, ProtMsg, ProtocolError, Replica};
use crate::field::{LargeField, LargeFieldSer, be_nat, extends_canonically, distinct, evaluate_polynomial, fsub, interpolate, lagrange_at_zero, modulus, vals};
use crate::groups::{columns, combine_all, group_vals, lemma_columns_len, lemma_group_vals_add_column, mat_groups, new_groups, push_column, views};
use crate::rand_sh::{combination_matrix, combine_groups, lemma_mat_groups_vdm};
use vstd::std_specs::hash::spec_hash_keys_iter;
use vstd::std_specs::iter::IteratorSpec;

verus! {

broadcast use vstd::std_specs::hash::group_hash_axioms;

/// State of the random masks that hide the output wires.
pub struct RandomOutputMaskStruct {
    pub avss_shares: HashMap<Replica, AvssShare>,
    pub rand_sharings: VecDeque<LargeField>,
    pub acs_recon_set: HashSet<Replica>,
    pub recon_shares: HashMap<Replica, HashMap<Replica, Vec<LargeField>>>,
    pub public_reconstruction_outputs: HashMap<Replica, Vec<LargeField>>,
}

impl RandomOutputMaskStruct {
    /// Nothing received yet.
    pub open spec fn is_fresh(self) -> bool {
        &&& self.avss_shares@ == Map::<Replica, AvssShare>::empty()
        &&& self.rand_sharings@.len() == 0
        &&& self.acs_recon_set@ == Set::<Replica>::empty()
        &&& self.recon_shares@ == Map::<Replica, HashMap<Replica, Vec<LargeField>>>::empty()
        &&& self.public_reconstruction_outputs@ == Map::<Replica, Vec<LargeField>>::empty()
    }

    /// A state at which nothing has been received.
    pub fn new() -> (s: Self)
        ensures
            s.is_fresh(),
    {
        RandomOutputMaskStruct {
            avss_shares: HashMap::new(),
            rand_sharings: VecDeque::new(),
            acs_recon_set: HashSet::new(),
            recon_shares: HashMap::new(),
            public_reconstruction_outputs: HashMap::new(),
        }
    }
}

/// The elements of a set, each once, in the order in which the set yields them.
pub(crate) fn set_to_vec(s: &HashSet<Replica>) -> (r: Vec<Replica>)
    ensures
        r@.to_set() == s@,
        r@.no_duplicates(),
{
    let mut r: Vec<Replica> = Vec::new();
    proof {
        broadcast use vstd::std_specs::hash::axiom_spec_hash_keys_iter;
        assert(spec_hash_keys_iter(s).remaining().unref().to_set() == s@);
    }
    for p in it: s.iter()
        invariant
            r@ == it.seq().take(it.index()).unref(),
            it.seq().unref().to_set() == s@,
            it.seq().unref().no_duplicates(),
            it.index() == it.seq().len() ==> r@.to_set() == s@ && r@.no_duplicates(),
    {
        r.push(*p);
        proof {
            assert(r@ =~= it.seq().take(it.index() + 1).unref());
            assert(it.index() + 1 == it.seq().len() ==> it.seq().take(it.index() + 1) =~= it.seq());
        }
    }
    r
}


/// The field values of serialized elements.
pub open spec fn deser_vals(s: Seq<LargeFieldSer>) -> Seq<nat> {
    s.map_values(|b: LargeFieldSer| be_nat(b@) % modulus())
}

/// The values of the AVSS shares of the parties below `parties` in `acs`, one
/// sequence per party, in increasing party order.
pub open spec fn avss_columns(avss: Map<Replica, AvssShare>, acs: Set<Replica>, parties: nat) -> Seq<Seq<nat>>
    decreases parties,
{
    if parties == 0 {
        Seq::empty()
    } else {
        let p = (parties - 1) as nat;
        avss_columns(avss, acs, p) + (if acs.contains(p as usize) {
            seq![deser_vals(avss[p as usize].0@)]
        } else {
            Seq::empty()
        })
    }
}

/// Every party below `parties` in `acs` has an AVSS share of at most `size` elements.
pub open spec fn avss_fit(avss: Map<Replica, AvssShare>, acs: Set<Replica>, parties: nat, size: nat) -> bool {
    forall|p: nat|
        p < parties && #[trigger] acs.contains(p as usize) ==> avss.contains_key(p as usize)
            && avss[p as usize].0@.len() <= size
}

/// The field values of the shares of each sender.
pub open spec fn val_map(m: Map<Replica, Vec<LargeField>>) -> Map<Replica, Seq<nat>> {
    m.map_values(|v: Vec<LargeField>| vals(v@))
}

/// The evaluation points of the parties below `parties` that sent a share.
pub open spec fn recon_points(inner: Map<Replica, Seq<nat>>, points: Seq<LargeField>, parties: nat) -> Seq<nat>
    decreases parties,
{
    if parties == 0 {
        Seq::empty()
    } else {
        let p = (parties - 1) as nat;
        recon_points(inner, points, p) + (if inner.contains_key(p as usize) {
            seq![points[p as int].val()]
        } else {
            Seq::empty()
        })
    }
}

/// The share values of the parties below `parties` that sent a share, one
/// sequence per party, in increasing party order.
pub open spec fn recon_columns(inner: Map<Replica, Seq<nat>>, parties: nat) -> Seq<Seq<nat>>
    decreases parties,
{
    if parties == 0 {
        Seq::empty()
    } else {
        let p = (parties - 1) as nat;
        recon_columns(inner, p) + (if inner.contains_key(p as usize) {
            seq![inner[p as usize]]
        } else {
            Seq::empty()
        })
    }
}

/// Every party below `parties` that sent a share sent at most `size` elements.
pub open spec fn recon_fit(inner: Map<Replica, Seq<nat>>, parties: nat, size: nat) -> bool {
    forall|p: nat| p < parties && #[trigger] inner.contains_key(p as usize) ==> inner[p as usize].len() <= size
}

/// Each group can be interpolated through the points `xs`.
pub open spec fn interpolation_ok(xs: Seq<nat>, groups: Seq<Seq<nat>>) -> bool {
    forall|k: int| 0 <= k < groups.len() ==> (#[trigger] groups[k]).len() == xs.len() && distinct(xs)
}

/// The value at zero of the polynomial through `xs` and each group.
pub open spec fn interpolate_all(xs: Seq<nat>, groups: Seq<Seq<nat>>) -> Seq<nat> {
    Seq::new(groups.len(), |k: int| lagrange_at_zero(xs, groups[k]))
}

/// The public outputs of the parties in `order`, one sequence per party; the
/// groups are created at the first party.
pub open spec fn public_columns(outs: Map<Replica, Vec<LargeField>>, order: Seq<Replica>) -> Seq<Seq<nat>> {
    order.map_values(|p: Replica| vals(outs[p]@))
}

/// Every party of `order` has a public output of at most `size` elements.
pub open spec fn public_fit(outs: Map<Replica, Vec<LargeField>>, order: Seq<Replica>, size: nat) -> bool {
    forall|i: int| 0 <= i < order.len() ==> outs.contains_key(#[trigger] order[i]) && outs[order[i]]@.len() <= size
}

/// Subtracts the masks from the masked values, pairwise up to the shorter.
pub open spec fn unmask(masked: Seq<nat>, masks: Seq<nat>) -> Seq<nat> {
    Seq::new(
        if masked.len() <= masks.len() { masked.len() } else { masks.len() },
        |i: int| fsub(masked[i], masks[i]),
    )
}

/// The parties below `parties` that are in `acs`, in increasing order: the
/// order in which their contributions make the masks (see `avss_columns`).
pub open spec fn mask_parties(acs: Set<Replica>, parties: nat) -> Seq<Replica>
    decreases parties,
{
    if parties == 0 {
        Seq::empty()
    } else {
        let p = (parties - 1) as nat;
        mask_parties(acs, p) + (if acs.contains(p as usize) {
            seq![p as usize]
        } else {
            Seq::empty()
        })
    }
}

impl Context {
    /// The masks of the output wires combined from the public outputs of the
    /// parties of `order`, in that order: empty when `order` is empty.
    pub open spec fn combined_masks(self, order: Seq<Replica>) -> Seq<nat> {
        if order.len() == 0 {
            Seq::empty()
        } else {
            combine_groups(
                self.num_faults as nat,
                columns(public_columns(self.output_mask_state.public_reconstruction_outputs@, order), self.output_mask_size as nat),
            )
        }
    }

    /// What unmasking the outputs with the parties of `order` returns.
    pub open spec fn unmask_outcome(self, order: Seq<Replica>, r: Result<Vec<Action>, ProtocolError>) -> bool {
        &&& r is Err <==> !public_fit(self.output_mask_state.public_reconstruction_outputs@, order, self.output_mask_size as nat)
        &&& r is Ok && self.mult_state.output_layer.reconstructed_masked_outputs is None ==> r->Ok_0@ == seq![Action::MaskedOutputsMissing]
        &&& r is Ok && self.mult_state.output_layer.reconstructed_masked_outputs is Some ==> {
            &&& r->Ok_0@.len() == 1
            &&& r->Ok_0@[0] is ReportOutput
            &&& vals(r->Ok_0@[0]->ReportOutput_0@) == unmask(
                vals(self.mult_state.output_layer.reconstructed_masked_outputs->0@),
                self.combined_masks(order),
            )
            &&& forall|i: int| 0 <= i < r->Ok_0@[0]->ReportOutput_0@.len() ==> (#[trigger] r->Ok_0@[0]->ReportOutput_0@[i]).canonical()
        }
    }

    /// What the termination check of the output phase returns: nothing while
    /// some AVSS contribution is not reconstructed, else the unmasked outputs,
    /// the masks combined from the parties of the common subset below
    /// `num_nodes` in increasing order, the order in which the mask shares
    /// were made.
    pub open spec fn termination_outcome(self, r: Result<Vec<Action>, ProtocolError>) -> bool {
        if self.output_mask_state.acs_recon_set@.len() != 0 {
            r is Ok && r->Ok_0@.len() == 0
        } else {
            self.unmask_outcome(mask_parties(self.rand_sharings_state.acs_output@, self.num_nodes as nat), r)
        }
    }

    /// Records the AVSS share that this party holds of `origin`'s contribution.
    pub fn handle_avss_share_output(&mut self, origin: Replica, avss_share: AvssShare)
        ensures
            final(self).output_mask_state.avss_shares@ == old(self).output_mask_state.avss_shares@.insert(origin, avss_share),
            *final(self) == (Context {
                output_mask_state: RandomOutputMaskStruct {
                    avss_shares: final(self).output_mask_state.avss_shares,
                    ..old(self).output_mask_state
                },
                ..*old(self)
            }),
    {
        self.output_mask_state.avss_shares.insert(origin, avss_share);
    }

    /// Whether every party of the common subset below `num_nodes` has an AVSS
    /// share of at most `output_mask_size` elements; `Err` names the first
    /// party that has none or more.
    pub(crate) fn check_avss_fit(&self) -> (r: Result<(), ProtocolError>)
        ensures
            r is Ok <==> avss_fit(
                self.output_mask_state.avss_shares@,
                self.rand_sharings_state.acs_output@,
                self.num_nodes as nat,
                self.output_mask_size as nat,
            ),
    {
        let ghost acs = self.rand_sharings_state.acs_output@;
        let ghost avss = self.output_mask_state.avss_shares@;
        let size = self.output_mask_size;
        for rep in 0..self.num_nodes
            invariant
                acs == self.rand_sharings_state.acs_output@,
                avss == self.output_mask_state.avss_shares@,
                size == self.output_mask_size,
                avss_fit(avss, acs, rep as nat, size as nat),
        {
            if self.rand_sharings_state.acs_output.contains(&rep) {
                assert(acs.contains((rep as nat) as usize));
                match self.output_mask_state.avss_shares.get(&rep) {
                    None => {
                        return Err(ProtocolError::MissingShares(rep));
                    },
                    Some(sh) => {
                        if sh.0.len() > size {
                            return Err(ProtocolError::TooManyShares(rep));
                        }
                    },
                }
            }
        }
        Ok(())
    }

    /// Adds `acs_recon_set` to the contributions to reconstruct, and appends
    /// to the random mask sharings the product of `vdm_matrix` with each group
    /// of AVSS shares: group `k` holds the `k`-th share of each party of the
    /// common subset, in increasing party order. Nothing happens while the
    /// common subset is empty. `Err` where a party of the common subset has no
    /// AVSS share or more than `output_mask_size` shares.
    pub fn generate_random_mask_shares(&mut self, acs_recon_set: HashSet<Replica>, vdm_matrix: Vec<Vec<LargeField>>) -> (r: Result<(), ProtocolError>)
        ensures
            old(self).rand_sharings_state.acs_output@.len() == 0 ==> r is Ok && *final(self) == *old(self),
            old(self).rand_sharings_state.acs_output@.len() != 0 ==> (r is Err <==> !avss_fit(
                old(self).output_mask_state.avss_shares@,
                old(self).rand_sharings_state.acs_output@,
                old(self).num_nodes as nat,
                old(self).output_mask_size as nat,
            )),
            r is Err ==> *final(self) == *old(self),
            old(self).rand_sharings_state.acs_output@.len() != 0 && r is Ok ==> {
                &&& final(self).output_mask_state.acs_recon_set@ == old(self).output_mask_state.acs_recon_set@.union(acs_recon_set@)
                &&& extends_canonically(final(self).output_mask_state.rand_sharings@, old(self).output_mask_state.rand_sharings@)
                &&& vals(final(self).output_mask_state.rand_sharings@) == vals(old(self).output_mask_state.rand_sharings@) + mat_groups(
                    vdm_matrix@,
                    columns(
                        avss_columns(old(self).output_mask_state.avss_shares@, old(self).rand_sharings_state.acs_output@, old(self).num_nodes as nat),
                        old(self).output_mask_size as nat,
                    ),
                )
                &&& *final(self) == (Context {
                    output_mask_state: RandomOutputMaskStruct {
                        acs_recon_set: final(self).output_mask_state.acs_recon_set,
                        rand_sharings: final(self).output_mask_state.rand_sharings,
                        ..old(self).output_mask_state
                    },
                    ..*old(self)
                })
            },
    {
        if self.rand_sharings_state.acs_output.len() == 0 {
            return Ok(());
        }
        self.check_avss_fit()?;
        let ghost acs = self.rand_sharings_state.acs_output@;
        let ghost avss = self.output_mask_state.avss_shares@;
        let n = self.num_nodes;
        let size = self.output_mask_size;
        let added = set_to_vec(&acs_recon_set);
        for i in 0..added.len()
            invariant
                self.output_mask_state.acs_recon_set@ == old(self).output_mask_state.acs_recon_set@.union(added@.take(i as int).to_set()),
                *self == (Context {
                    output_mask_state: RandomOutputMaskStruct {
                        acs_recon_set: self.output_mask_state.acs_recon_set,
                        ..old(self).output_mask_state
                    },
                    ..*old(self)
                }),
        {
            self.output_mask_state.acs_recon_set.insert(added[i]);
            proof {
                lemma_take_to_set(added@, i as int);
                assert(self.output_mask_state.acs_recon_set@ =~= old(self).output_mask_state.acs_recon_set@.union(added@.take(i + 1).to_set()));
            }
        }
        proof {
            assert(added@.take(added@.len() as int) =~= added@);
        }
        let mut groups = new_groups(size);
        proof {
            assert forall|k: int| 0 <= k < size implies group_vals(views(groups@))[k] =~= Seq::<nat>::empty() by {}
            assert(group_vals(views(groups@)) =~= columns(avss_columns(avss, acs, 0), size as nat));
        }
        for rep in 0..n
            invariant
                acs == self.rand_sharings_state.acs_output@,
                avss == self.output_mask_state.avss_shares@,
                n == self.num_nodes,
                size == self.output_mask_size,
                avss_fit(avss, acs, n as nat, size as nat),
                group_vals(views(groups@)) == columns(avss_columns(avss, acs, rep as nat), size as nat),
                groups@.len() == size,
                self.output_mask_state.acs_recon_set@ == old(self).output_mask_state.acs_recon_set@.union(acs_recon_set@),
                *self == (Context {
                    output_mask_state: RandomOutputMaskStruct {
                        acs_recon_set: self.output_mask_state.acs_recon_set,
                        ..old(self).output_mask_state
                    },
                    ..*old(self)
                }),
        {
            if self.rand_sharings_state.acs_output.contains(&rep) {
                assert(acs.contains((rep as nat) as usize));
                let sh = self.output_mask_state.avss_shares.get(&rep).unwrap();
                let col = deser_all(&sh.0);
                assert(vals(col@).len() == col@.len());
                let ghost before = views(groups@);
                push_column(&mut groups, &col);
                proof {
                    lemma_group_vals_add_column(before, col@);
                    let cols = avss_columns(avss, acs, (rep + 1) as nat);
                    assert(cols == avss_columns(avss, acs, rep as nat) + seq![deser_vals(avss[rep].0@)]);
                    assert(cols.drop_last() =~= avss_columns(avss, acs, rep as nat));
                }
            } else {
                proof {
                    assert(avss_columns(avss, acs, (rep + 1) as nat) =~= avss_columns(avss, acs, rep as nat));
                }
            }
        }
        let combined = combine_all(&vdm_matrix, &groups);
        for i in 0..combined.len()
            invariant
                vals(self.output_mask_state.rand_sharings@) == vals(old(self).output_mask_state.rand_sharings@) + vals(combined@.take(i as int)),
                self.output_mask_state.rand_sharings@ == old(self).output_mask_state.rand_sharings@ + combined@.take(i as int),
                self.output_mask_state.acs_recon_set@ == old(self).output_mask_state.acs_recon_set@.union(acs_recon_set@),
                *self == (Context {
                    output_mask_state: RandomOutputMaskStruct {
                        acs_recon_set: self.output_mask_state.acs_recon_set,
                        rand_sharings: self.output_mask_state.rand_sharings,
                        ..old(self).output_mask_state
                    },
                    ..*old(self)
                }),
        {
            let ghost before = self.output_mask_state.rand_sharings@;
            self.output_mask_state.rand_sharings.push_back(combined[i]);
            proof {
                assert(vals(self.output_mask_state.rand_sharings@) =~= vals(before).push(combined@[i as int].val()));
                assert(self.output_mask_state.rand_sharings@ =~= old(self).output_mask_state.rand_sharings@ + combined@.take(i + 1));
                assert(combined@.take(i + 1) =~= combined@.take(i as int).push(combined@[i as int]));
                assert(vals(self.output_mask_state.rand_sharings@) =~= vals(old(self).output_mask_state.rand_sharings@) + vals(combined@.take(i + 1)));
            }
        }
        proof {
            assert(combined@.take(combined@.len() as int) =~= combined@);
            let pre = old(self).output_mask_state.rand_sharings@;
            let post = self.output_mask_state.rand_sharings@;
            assert(post.subrange(0, pre.len() as int) =~= pre);
            assert forall|i: int| pre.len() <= i < post.len() implies (#[trigger] post[i]).canonical() by {
                assert(post[i] == combined@[i - pre.len()]);
            }
        }
        Ok(())
    }
}

/// One more element of a sequence's prefix adds it to the prefix's set.
pub(crate) proof fn lemma_take_to_set(s: Seq<Replica>, i: int)
    requires
        0 <= i < s.len(),
    ensures
        s.take(i + 1).to_set() == s.take(i).to_set().insert(s[i]),
{
    let a = s.take(i + 1);
    let b = s.take(i);
    assert forall|x: Replica| #[trigger] a.contains(x) == (b.contains(x) || x == s[i]) by {
        if b.contains(x) {
            let j = choose|j: int| 0 <= j < b.len() && #[trigger] b[j] == x;
            assert(a[j] == x);
        }
        if x == s[i] {
            assert(a[i] == x);
        }
        if a.contains(x) {
            let j = choose|j: int| 0 <= j < a.len() && #[trigger] a[j] == x;
            if j < i {
                assert(b[j] == x);
            }
        }
    }
    assert(a.to_set() =~= b.to_set().insert(s[i]));
}


/// The parties below `parties` that are in `acs` and hold an AVSS share, in increasing order.
pub open spec fn mask_reveal_parties(avss: Map<Replica, AvssShare>, acs: Set<Replica>, parties: nat) -> Seq<Replica>
    decreases parties,
{
    if parties == 0 {
        Seq::empty()
    } else {
        let p = (parties - 1) as nat;
        mask_reveal_parties(avss, acs, p) + (if acs.contains(p as usize) && avss.contains_key(p as usize) {
            seq![p as usize]
        } else {
            Seq::empty()
        })
    }
}

/// A copy of serialized elements.
fn copy_ser(v: &Vec<LargeFieldSer>) -> (r: Vec<LargeFieldSer>)
    ensures
        r@ == v@,
{
    let mut r: Vec<LargeFieldSer> = Vec::new();
    for i in 0..v.len()
        invariant
            r@ == v@.take(i as int),
    {
        r.push(v[i]);
        proof {
            assert(r@ =~= v@.take(i + 1));
        }
    }
    proof {
        assert(v@.take(v@.len() as int) =~= v@);
    }
    r
}

impl Context {
    /// What revealing the mask shares returns (see `reconstruct_random_masks`).
    pub open spec fn mask_reveal_outcome(self, actions: Seq<Action>) -> bool {
        &&& self.rand_sharings_state.acs_output@.len() == 0 ==> actions.len() == 0
        &&& self.rand_sharings_state.acs_output@.len() != 0 ==> {
            let ps = mask_reveal_parties(self.output_mask_state.avss_shares@, self.rand_sharings_state.acs_output@, self.num_nodes as nat);
            &&& actions.len() == ps.len()
            &&& forall|i: int| 0 <= i < ps.len() ==> ((#[trigger] actions[i]) matches Action::Broadcast(ProtMsg::ReconstructOutputMasks(q, s0, s1, s2))
                && q == ps[i] && s0@ == self.output_mask_state.avss_shares@[q].0@
                && s1 == self.output_mask_state.avss_shares@[q].1 && s2 == self.output_mask_state.avss_shares@[q].2)
        }
    }

    /// Once the common subset is known, broadcasts, for each of its parties
    /// below `num_nodes` whose AVSS share this party holds, in increasing
    /// order, that share, so that the party's mask contribution can be
    /// reconstructed.
    pub fn reconstruct_random_masks(&self) -> (actions: Vec<Action>)
        ensures
            self.mask_reveal_outcome(actions@),
    {
        let mut actions: Vec<Action> = Vec::new();
        if self.rand_sharings_state.acs_output.len() == 0 {
            return actions;
        }
        let ghost avss = self.output_mask_state.avss_shares@;
        let ghost acs = self.rand_sharings_state.acs_output@;
        for party in 0..self.num_nodes
            invariant
                avss == self.output_mask_state.avss_shares@,
                acs == self.rand_sharings_state.acs_output@,
                actions@.len() == mask_reveal_parties(avss, acs, party as nat).len(),
                forall|i: int| 0 <= i < actions@.len() ==> ((#[trigger] actions@[i]) matches Action::Broadcast(ProtMsg::ReconstructOutputMasks(q, s0, s1, s2))
                    && q == mask_reveal_parties(avss, acs, party as nat)[i] && s0@ == avss[q].0@
                    && s1 == avss[q].1 && s2 == avss[q].2),
        {
            let ghost ps = mask_reveal_parties(avss, acs, party as nat);
            if self.rand_sharings_state.acs_output.contains(&party) && self.output_mask_state.avss_shares.contains_key(&party) {
                let shares = self.output_mask_state.avss_shares.get(&party).unwrap();
                let msg = ProtMsg::ReconstructOutputMasks(party, copy_ser(&shares.0), shares.1, shares.2);
                actions.push(Action::Broadcast(msg));
                proof {
                    assert(mask_reveal_parties(avss, acs, (party + 1) as nat) == ps.push(party));
                }
            } else {
                proof {
                    assert(mask_reveal_parties(avss, acs, (party + 1) as nat) =~= ps);
                }
            }
        }
        actions
    }

    /// Hands a share of `origin`'s mask contribution, received from
    /// `share_sender`, to the AVSS protocol for checking, while `origin`'s
    /// contribution is still to be reconstructed.
    pub fn handle_random_mask_shares(
        &self,
        share_sender: Replica,
        origin: Replica,
        shares: Vec<LargeFieldSer>,
        nonce: LargeFieldSer,
        blinding_nonce: LargeFieldSer,
    ) -> (actions: Vec<Action>)
        ensures
            self.output_mask_state.acs_recon_set@.contains(origin) ==> actions@ == seq![
                Action::AvssRequest(false, None, Some((origin, share_sender, (shares, nonce, blinding_nonce)))),
            ],
            !self.output_mask_state.acs_recon_set@.contains(origin) ==> actions@.len() == 0,
    {
        let mut actions: Vec<Action> = Vec::new();
        if self.output_mask_state.acs_recon_set.contains(&origin) {
            actions.push(Action::AvssRequest(false, None, Some((origin, share_sender, (shares, nonce, blinding_nonce)))));
        }
        actions
    }

    /// Combines the public outputs of the parties of `order`, in that order,
    /// into the output masks (group `k` holds the `k`-th output of each party;
    /// each group is multiplied with the Vandermonde matrix on the points
    /// `2, ..., t + 2` with `2t + 1` columns) and, where the masked outputs are
    /// known, reports the outputs minus the masks (else `MaskedOutputsMissing`). `Err` where a party of
    /// `order` has no public output or more than `output_mask_size` of them.
    pub fn unmask_outputs(&self, order: &Vec<Replica>) -> (r: Result<Vec<Action>, ProtocolError>)
        requires
            self.wf(),
        ensures
            self.unmask_outcome(order@, r),
    {
        let ghost outs = self.output_mask_state.public_reconstruction_outputs@;
        let size = self.output_mask_size;
        let vdm = combination_matrix(self.num_faults);
        let mut combined: Vec<Vec<LargeField>> = Vec::new();
        for i in 0..order.len()
            invariant
                outs == self.output_mask_state.public_reconstruction_outputs@,
                size == self.output_mask_size,
                public_fit(outs, order@.take(i as int), size as nat),
                i == 0 ==> combined@.len() == 0,
                i > 0 ==> group_vals(views(combined@)) == columns(public_columns(outs, order@.take(i as int)), size as nat),
                i > 0 ==> combined@.len() == size,
        {
            let party = order[i];
            match self.output_mask_state.public_reconstruction_outputs.get(&party) {
                None => {
                    proof {
                        assert(!outs.contains_key(order@[i as int]));
                    }
                    return Err(ProtocolError::MissingShares(party));
                },
                Some(secrets) => {
                    if combined.len() == 0 {
                        combined = new_groups(size);
                        proof {
                            assert forall|k: int| 0 <= k < size implies group_vals(views(combined@))[k] =~= Seq::<nat>::empty() by {}
                            assert(group_vals(views(combined@)) =~= columns(public_columns(outs, order@.take(0)), size as nat));
                            if i > 0 {
                                lemma_columns_len(public_columns(outs, order@.take(i as int)), size as nat);
                            }
                            assert(public_columns(outs, order@.take(0)) =~= Seq::<Seq<nat>>::empty());
                        }
                    }
                    let ghost before = views(combined@);
                    proof {
                        if i > 0 {
                            lemma_columns_len(public_columns(outs, order@.take(i as int)), size as nat);
                        }
                    }
                    if secrets.len() > combined.len() {
                        proof {
                            assert(!(outs[order@[i as int]]@.len() <= size));
                        }
                        return Err(ProtocolError::TooManyShares(party));
                    }
                    push_column(&mut combined, secrets);
                    proof {
                        lemma_group_vals_add_column(before, secrets@);
                        let pc = public_columns(outs, order@.take(i + 1));
                        assert(pc.drop_last() =~= public_columns(outs, order@.take(i as int)));
                        assert(pc.last() == vals(secrets@));
                        assert(public_fit(outs, order@.take(i + 1), size as nat));
                    }
                },
            }
        }
        proof {
            assert(order@.take(order@.len() as int) =~= order@);
            lemma_mat_groups_vdm(vdm@, self.num_faults as nat, group_vals(views(combined@)));
            if order@.len() == 0 {
                assert(group_vals(views(combined@)) =~= Seq::<Seq<nat>>::empty());
            }
        }
        let masks = combine_all(&vdm, &combined);
        match &self.mult_state.output_layer.reconstructed_masked_outputs {
            None => {
                let mut actions: Vec<Action> = Vec::new();
                actions.push(Action::MaskedOutputsMissing);
                proof {
                    assert(actions@ =~= seq![Action::MaskedOutputsMissing]);
                }
                Ok(actions)
            },
            Some(masked) => {
                let len = if masked.len() <= masks.len() { masked.len() } else { masks.len() };
                let mut unmasked: Vec<LargeField> = Vec::new();
                for k in 0..len
                    invariant
                        len <= masked@.len(),
                        len <= masks@.len(),
                        unmasked@.len() == k,
                        forall|j: int| 0 <= j < k ==> (#[trigger] unmasked@[j]).val() == fsub(masked@[j].val(), masks@[j].val()),
                        forall|j: int| 0 <= j < k ==> (#[trigger] unmasked@[j]).canonical(),
                {
                    unmasked.push(masked[k].sub(&masks[k]));
                }
                proof {
                    assert(vals(unmasked@) =~= unmask(vals(masked@), vals(masks@)));
                }
                let mut actions: Vec<Action> = Vec::new();
                actions.push(Action::ReportOutput(unmasked));
                Ok(actions)
            },
        }
    }

    /// The parties of the common subset below `num_nodes`, in increasing order.
    pub fn ascending_acs_parties(&self) -> (order: Vec<Replica>)
        ensures
            order@ == mask_parties(self.rand_sharings_state.acs_output@, self.num_nodes as nat),
    {
        let mut order: Vec<Replica> = Vec::new();
        for party in 0..self.num_nodes
            invariant
                order@ == mask_parties(self.rand_sharings_state.acs_output@, party as nat),
        {
            let ghost before = order@;
            if self.rand_sharings_state.acs_output.contains(&party) {
                order.push(party);
                proof {
                    assert(order@ =~= before + seq![party]);
                }
            } else {
                proof {
                    assert(mask_parties(self.rand_sharings_state.acs_output@, (party + 1) as nat) =~= before);
                }
            }
        }
        order
    }

    /// Once every AVSS contribution of the common subset is reconstructed,
    /// unmasks the outputs with the masks combined from the parties of the
    /// common subset below `num_nodes` in increasing order, the order in which
    /// the mask shares were made (see `generate_random_mask_shares`).
    pub fn verify_protocol_termination(&self) -> (r: Result<Vec<Action>, ProtocolError>)
        requires
            self.wf(),
        ensures
            self.termination_outcome(r),
    {
        if self.output_mask_state.acs_recon_set.len() != 0 {
            return Ok(Vec::new());
        }
        let order = self.ascending_acs_parties();
        self.unmask_outputs(&order)
    }
}


impl Context {
    /// The shares of `origin`'s contribution known before one from `share_sender` arrives.
    pub open spec fn recon_shares_of(self, origin: Replica) -> Map<Replica, Vec<LargeField>> {
        if self.output_mask_state.recon_shares@.contains_key(origin) {
            self.output_mask_state.recon_shares@[origin]@
        } else {
            Map::empty()
        }
    }

    /// Whether reconstructing `size` secrets from the shares `inner` fails: a
    /// sender below `num_nodes` sent more than `size` shares, or a
    /// group cannot be interpolated through the senders' evaluation points.
    pub open spec fn recon_fails(self, inner: Map<Replica, Seq<nat>>, size: nat) -> bool {
        ||| !recon_fit(inner, self.num_nodes as nat, size)
        ||| !interpolation_ok(
            recon_points(inner, self.evaluation_points@, self.num_nodes as nat),
            columns(recon_columns(inner, self.num_nodes as nat), size),
        )
    }

    /// The `size` secrets reconstructed from the shares `inner`: for each `k`,
    /// the value at zero of the polynomial through the senders' evaluation
    /// points and their `k`-th shares.
    pub open spec fn reconstructed(self, inner: Map<Replica, Seq<nat>>, size: nat) -> Seq<nat> {
        interpolate_all(
            recon_points(inner, self.evaluation_points@, self.num_nodes as nat),
            columns(recon_columns(inner, self.num_nodes as nat), size),
        )
    }

    /// Reconstructs `size` secrets from the shares `inner`: for each `k`, the
    /// value at zero of the polynomial through the evaluation points of the
    /// senders below `num_nodes` and their `k`-th shares. `Err` where a sender
    /// sent more than `size` shares or interpolation fails.
    pub(crate) fn reconstruct_secrets(&self, inner: &HashMap<Replica, Vec<LargeField>>, size: usize) -> (r: Result<Vec<LargeField>, ProtocolError>)
        requires
            self.wf(),
        ensures
            r is Err <==> self.recon_fails(val_map(inner@), size as nat),
            r matches Ok(v) ==> vals(v@) == self.reconstructed(val_map(inner@), size as nat),
            r matches Ok(v) ==> forall|i: int| 0 <= i < v@.len() ==> (#[trigger] v@[i]).canonical(),
    {
        let ghost h = val_map(inner@);
        let n = self.num_nodes;
        let mut xs: Vec<LargeField> = Vec::new();
        let mut groups = new_groups(size);
        proof {
            assert forall|k: int| 0 <= k < size implies group_vals(views(groups@))[k] =~= Seq::<nat>::empty() by {}
            assert(group_vals(views(groups@)) =~= columns(recon_columns(h, 0), size as nat));
        }
        for party in 0..n
            invariant
                h == val_map(inner@),
                n == self.num_nodes,
                self.evaluation_points@.len() >= n,
                recon_fit(h, party as nat, size as nat),
                vals(xs@) == recon_points(h, self.evaluation_points@, party as nat),
                group_vals(views(groups@)) == columns(recon_columns(h, party as nat), size as nat),
                groups@.len() == size,
        {
            match inner.get(&party) {
                None => {
                    proof {
                        assert(recon_points(h, self.evaluation_points@, (party + 1) as nat) =~= recon_points(h, self.evaluation_points@, party as nat));
                        assert(recon_columns(h, (party + 1) as nat) =~= recon_columns(h, party as nat));
                    }
                },
                Some(v) => {
                    if v.len() > size {
                        proof {
                            assert(h.contains_key((party as nat) as usize));
                        }
                        return Err(ProtocolError::TooManyShares(party));
                    }
                    let ghost before = views(groups@);
                    let ghost xs_before = xs@;
                    xs.push(self.evaluation_points[party]);
                    push_column(&mut groups, v);
                    proof {
                        lemma_group_vals_add_column(before, v@);
                        let rc = recon_columns(h, (party + 1) as nat);
                        assert(rc == recon_columns(h, party as nat) + seq![h[party]]);
                        assert(rc.drop_last() =~= recon_columns(h, party as nat));
                        assert(vals(xs@) =~= vals(xs_before).push(self.evaluation_points@[party as int].val()));
                    }
                },
            }
        }
        let ghost pts = vals(xs@);
        let ghost gs = group_vals(views(groups@));
        let mut secrets: Vec<LargeField> = Vec::new();
        let mut k: usize = 0;
        while k < size
            invariant
                k <= size,
                pts == vals(xs@),
                gs == group_vals(views(groups@)),
                groups@.len() == size,
                gs.len() == size,
                h == val_map(inner@),
                n == self.num_nodes,
                pts == recon_points(h, self.evaluation_points@, n as nat),
                gs == columns(recon_columns(h, n as nat), size as nat),
                recon_fit(h, n as nat, size as nat),
                secrets@.len() == k,
                forall|j: int| 0 <= j < k ==> (#[trigger] gs[j]).len() == pts.len() && distinct(pts),
                forall|j: int| 0 <= j < k ==> (#[trigger] secrets@[j]).val() == lagrange_at_zero(pts, gs[j]),
                forall|j: int| 0 <= j < k ==> (#[trigger] secrets@[j]).canonical(),
            decreases size - k,
        {
            assert(gs[k as int] == vals(groups@[k as int]@));
            match interpolate(&xs, &groups[k]) {
                None => {
                    proof {
                        assert(!((#[trigger] gs[k as int]).len() == pts.len() && distinct(pts)));
                    }
                    return Err(ProtocolError::Interpolation);
                },
                Some(coefficients) => {
                    let secret = evaluate_polynomial(&coefficients, &LargeField::zero());
                    assert(gs[k as int].len() == pts.len());
                    assert(distinct(pts));
                    secrets.push(secret);
                },
            }
            k = k + 1;
        }
        proof {
            assert(vals(secrets@) =~= interpolate_all(pts, gs));
        }
        Ok(secrets)
    }

    /// Records a checked share of `origin`'s mask contribution from
    /// `share_sender`, while that contribution is still to be reconstructed.
    /// At `t + 1` shares the contribution is reconstructed, recorded, and
    /// `origin` leaves the set still to reconstruct. Then the termination of
    /// the output phase is checked. `Err` where the reconstruction fails.
    pub fn handle_avss_share_oracle_output(&mut self, origin: Replica, share_sender: Replica, avss_share: AvssShare) -> (r: Result<Vec<Action>, ProtocolError>)
        requires
            old(self).wf(),
        ensures
            !old(self).output_mask_state.acs_recon_set@.contains(origin) ==> r is Ok && r->Ok_0@.len() == 0 && *final(self) == *old(self),
            old(self).output_mask_state.acs_recon_set@.contains(origin) ==> {
                let inner = final(self).output_mask_state.recon_shares@[origin]@;
                let reconstructing = inner.len() == old(self).num_faults + 1;
                &&& final(self).output_mask_state.recon_shares@ == old(self).output_mask_state.recon_shares@.insert(
                    origin,
                    final(self).output_mask_state.recon_shares@[origin],
                )
                &&& inner.contains_key(share_sender)
                &&& vals(inner[share_sender]@) == deser_vals(avss_share.0@)
                &&& inner.remove(share_sender) == old(self).recon_shares_of(origin).remove(share_sender)
                &&& reconstructing && old(self).recon_fails(val_map(inner), old(self).output_mask_size as nat) ==> {
                    &&& r is Err
                    &&& *final(self) == (Context {
                        output_mask_state: RandomOutputMaskStruct {
                            recon_shares: final(self).output_mask_state.recon_shares,
                            ..old(self).output_mask_state
                        },
                        ..*old(self)
                    })
                }
                &&& !(reconstructing && old(self).recon_fails(val_map(inner), old(self).output_mask_size as nat)) ==> {
                    &&& final(self).termination_outcome(r)
                    &&& reconstructing ==> {
                        &&& final(self).output_mask_state.public_reconstruction_outputs@.contains_key(origin)
                        &&& final(self).output_mask_state.public_reconstruction_outputs@ == old(self).output_mask_state.public_reconstruction_outputs@.insert(
                            origin,
                            final(self).output_mask_state.public_reconstruction_outputs@[origin],
                        )
                        &&& vals(final(self).output_mask_state.public_reconstruction_outputs@[origin]@) == old(self).reconstructed(val_map(inner), old(self).output_mask_size as nat)
                        &&& final(self).output_mask_state.acs_recon_set@ == old(self).output_mask_state.acs_recon_set@.remove(origin)
                    }
                    &&& !reconstructing ==> {
                        &&& final(self).output_mask_state.public_reconstruction_outputs == old(self).output_mask_state.public_reconstruction_outputs
                        &&& final(self).output_mask_state.acs_recon_set == old(self).output_mask_state.acs_recon_set
                    }
                    &&& *final(self) == (Context {
                        output_mask_state: RandomOutputMaskStruct {
                            recon_shares: final(self).output_mask_state.recon_shares,
                            public_reconstruction_outputs: final(self).output_mask_state.public_reconstruction_outputs,
                            acs_recon_set: final(self).output_mask_state.acs_recon_set,
                            ..old(self).output_mask_state
                        },
                        ..*old(self)
                    })
                }
            },
    {
        if !self.output_mask_state.acs_recon_set.contains(&origin) {
            return Ok(Vec::new());
        }
        let mut inner: HashMap<Replica, Vec<LargeField>> = match self.output_mask_state.recon_shares.remove(&origin) {
            Some(m) => m,
            None => HashMap::new(),
        };
        let col = deser_all(&avss_share.0);
        inner.insert(share_sender, col);
        let count = inner.len();
        self.output_mask_state.recon_shares.insert(origin, inner);
        if count == self.num_faults + 1 {
            let secrets = self.reconstruct_secrets(self.output_mask_state.recon_shares.get(&origin).unwrap(), self.output_mask_size)?;
            self.output_mask_state.public_reconstruction_outputs.insert(origin, secrets);
            self.output_mask_state.acs_recon_set.remove(&origin);
        }
        self.verify_protocol_termination()
    }
}

/// Deserializes each element.
pub(crate) fn deser_all(s: &Vec<LargeFieldSer>) -> (r: Vec<LargeField>)
    ensures
        vals(r@) == deser_vals(s@),
        forall|i: int| 0 <= i < r@.len() ==> (#[trigger] r@[i]).canonical(),
{
    let mut r: Vec<LargeField> = Vec::new();
    for i in 0..s.len()
        invariant
            vals(r@) == deser_vals(s@.take(i as int)),
            forall|j: int| 0 <= j < r@.len() ==> (#[trigger] r@[j]).canonical(),
    {
        let x = LargeField::from_bytes_be(&s[i]);
        let ghost before = r@;
        r.push(x);
        proof {
            assert(deser_vals(s@.take(i + 1)) =~= deser_vals(s@.take(i as int)).push(be_nat(s@[i as int]@) % modulus()));
            assert(vals(r@) =~= vals(before).push(x.val()));
        }
    }
    proof {
        assert(s@.take(s@.len() as int) =~= s@);
    }
    r
}

} // verus!
