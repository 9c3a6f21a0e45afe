use vstd::prelude::*;
use vstd::arithmetic::div_mod::{lemma_add_mod_noop, lemma_mul_mod_noop_left};
use vstd::arithmetic::mul::lemma_mul_is_commutative;
use std::collections::{HashMap, HashSet};
use crate::context::{Action, BatchShares, Context, MixCircuitState, ProtocolError, RandSharingsState, Replica};
use crate::rand_mask::{RandomOutputMaskStruct, avss_columns, avss_fit, deser_all, deser_vals, set_to_vec};
use crate::field::{LargeField, LargeFieldSer, all_canonical, be_nat, extends_canonically, lemma_extends_by, modulus, vals};
use crate::groups::{add_column, columns, combine_all, group_vals, mat_groups, mat_vec, views};

verus! {

broadcast use vstd::std_specs::hash::group_hash_axioms;

/// `x^e` on natural numbers.
pub open spec fn power(x: nat, e: nat) -> nat
    decreases e,
{
    if e == 0 {
        1
    } else {
        x * power(x, (e - 1) as nat)
    }
}

/// `sum_{j < k} a[j] * b[j]` over the integers.
pub open spec fn dot_upto(a: Seq<nat>, b: Seq<nat>, k: nat) -> nat
    decreases k,
{
    if k == 0 {
        0
    } else {
        dot_upto(a, b, (k - 1) as nat) + a[k - 1] * b[k - 1]
    }
}

/// The inner product in the field of the common prefix of `a` and `b`.
pub open spec fn dot(a: Seq<nat>, b: Seq<nat>) -> nat {
    dot_upto(a, b, if a.len() <= b.len() { a.len() } else { b.len() }) % modulus()
}

/// `m` is the Vandermonde matrix of `xs` with `cols` columns: row `r` holds
/// `xs[r]^0, xs[r]^1, ..., xs[r]^(cols - 1)` in the field.
pub open spec fn is_vandermonde(m: Seq<Vec<LargeField>>, xs: Seq<nat>, cols: nat) -> bool {
    &&& m.len() == xs.len()
    &&& forall|r: int| 0 <= r < m.len() ==> (#[trigger] m[r])@.len() == cols
    &&& forall|r: int, c: int|
        0 <= r < m.len() && 0 <= c < cols ==> (#[trigger] m[r]@[c]).val() == power(xs[r], c as nat)
            % modulus()
}

/// `out` is the product of the matrix `m` with the vector `v` in the field.
pub open spec fn is_matrix_vector_product(out: Seq<LargeField>, m: Seq<Vec<LargeField>>, v: Seq<nat>) -> bool {
    &&& out.len() == m.len()
    &&& forall|i: int| 0 <= i < m.len() ==> (#[trigger] out[i]).val() == dot(vals(m[i]@), v)
}


/// The shares of one party for the instances `lo..hi`, in instance order;
/// an instance without shares adds nothing.
pub open spec fn batches_concat(m: Map<usize, Vec<LargeField>>, lo: nat, hi: nat) -> Seq<LargeField>
    decreases hi,
{
    if hi <= lo {
        Seq::empty()
    } else {
        let b = (hi - 1) as nat;
        batches_concat(m, lo, b) + (if m.contains_key(b as usize) { m[b as usize]@ } else { Seq::empty() })
    }
}

/// `size` groups; party by party, in increasing order, each party below
/// `parties` that is in `acs` adds its `k`-th share of the instances `lo..hi`
/// to group `k`.
pub open spec fn share_groups(
    shares: Map<Replica, BatchShares>,
    acs: Set<Replica>,
    parties: nat,
    lo: nat,
    hi: nat,
    size: nat,
) -> Seq<Seq<LargeField>>
    decreases parties,
{
    if parties == 0 {
        Seq::new(size, |k: int| Seq::<LargeField>::empty())
    } else {
        let p = (parties - 1) as nat;
        let prev = share_groups(shares, acs, p, lo, hi, size);
        if acs.contains(p as usize) {
            add_column(prev, batches_concat(shares[p as usize]@, lo, hi))
        } else {
            prev
        }
    }
}

/// Every party below `parties` in `acs` has shares, and at most `size` of
/// them in the instances `lo..hi`.
pub open spec fn share_groups_fit(
    shares: Map<Replica, BatchShares>,
    acs: Set<Replica>,
    parties: nat,
    lo: nat,
    hi: nat,
    size: nat,
) -> bool {
    forall|p: nat|
        p < parties && #[trigger] acs.contains(p as usize) ==> shares.contains_key(p as usize)
            && batches_concat(shares[p as usize]@, lo, hi).len() <= size
}

/// Every party below `parties` in `acs` has shares for each input index below `num_inputs`.
pub open spec fn input_shares_complete(
    m: Map<Replica, BatchShares>,
    acs: Set<Replica>,
    parties: nat,
    num_inputs: nat,
) -> bool {
    forall|p: nat, i: nat|
        p < parties && i < num_inputs && #[trigger] acs.contains(p as usize) ==> #[trigger] m[p as usize]@.contains_key(i as usize)
}

/// The input shares of the parties below `parties` in `acs`, party by party in
/// increasing order, each in input order.
pub open spec fn input_sharings_concat(
    m: Map<Replica, BatchShares>,
    acs: Set<Replica>,
    parties: nat,
    num_inputs: nat,
) -> Seq<LargeField>
    decreases parties,
{
    if parties == 0 {
        Seq::empty()
    } else {
        let p = (parties - 1) as nat;
        input_sharings_concat(m, acs, p, num_inputs) + (if acs.contains(p as usize) {
            batches_concat(m[p as usize]@, 0, num_inputs)
        } else {
            Seq::empty()
        })
    }
}


/// Row `x` of a Vandermonde matrix with `cols` columns: `x^0, ..., x^(cols - 1)`.
pub open spec fn vdm_row(x: nat, cols: nat) -> Seq<nat> {
    Seq::new(cols, |c: int| power(x, c as nat))
}

/// The points `2, 3, ..., t + 2` of the Vandermonde matrix that combines sharings.
pub open spec fn vdm_points(t: nat) -> Seq<nat> {
    Seq::new(t + 1, |i: int| (i + 2) as nat)
}

/// The product, in the field, of the Vandermonde matrix with the points
/// `vdm_points(t)` and `2t + 1` columns with the vector `v`.
pub open spec fn vdm_combine(t: nat, v: Seq<nat>) -> Seq<nat> {
    Seq::new(t + 1, |r: int| dot(vdm_row((r + 2) as nat, 2 * t + 1), v))
}

/// `vdm_combine` of each group, concatenated in group order.
pub open spec fn combine_groups(t: nat, groups: Seq<Seq<nat>>) -> Seq<nat>
    decreases groups.len(),
{
    if groups.len() == 0 {
        Seq::empty()
    } else {
        combine_groups(t, groups.drop_last()) + vdm_combine(t, groups.last())
    }
}

/// Replacing the first factors by values equal modulo the prime keeps the
/// inner product modulo the prime.
pub(crate) proof fn lemma_dot_upto_mod(a: Seq<nat>, a2: Seq<nat>, b: Seq<nat>, k: nat)
    requires
        forall|c: int| 0 <= c < k ==> a[c] == a2[c] % modulus(),
    ensures
        dot_upto(a, b, k) % modulus() == dot_upto(a2, b, k) % modulus(),
    decreases k,
{
    if k > 0 {
        let j = k - 1;
        lemma_dot_upto_mod(a, a2, b, j as nat);
        let m = modulus() as int;
        let d1 = dot_upto(a, b, j as nat) as int;
        let d2 = dot_upto(a2, b, j as nat) as int;
        lemma_add_mod_noop(d1, (a[j] * b[j]) as int, m);
        lemma_add_mod_noop(d2, (a2[j] * b[j]) as int, m);
        lemma_mul_mod_noop_left(a2[j] as int, b[j] as int, m);
    }
}

/// Applying a Vandermonde matrix on `vdm_points(t)` to each group is `combine_groups`.
pub proof fn lemma_mat_groups_vdm(m: Seq<Vec<LargeField>>, t: nat, groups: Seq<Seq<nat>>)
    requires
        is_vandermonde(m, vdm_points(t), 2 * t + 1),
    ensures
        mat_groups(m, groups) == combine_groups(t, groups),
    decreases groups.len(),
{
    if groups.len() > 0 {
        lemma_mat_groups_vdm(m, t, groups.drop_last());
        let v = groups.last();
        assert(mat_vec(m, v) =~= vdm_combine(t, v)) by {
            assert forall|r: int| 0 <= r < t + 1 implies mat_vec(m, v)[r] == vdm_combine(t, v)[r] by {
                let a = vals(m[r]@);
                let a2 = vdm_row((r + 2) as nat, 2 * t + 1);
                assert(m[r]@.len() == 2 * t + 1);
                assert forall|c: int| 0 <= c < 2 * t + 1 implies a[c] == a2[c] % modulus() by {
                    assert(m[r]@[c].val() == power(vdm_points(t)[r], c as nat) % modulus());
                }
                let k = if a.len() <= v.len() { a.len() } else { v.len() };
                lemma_dot_upto_mod(a, a2, v, k);
            }
        }
    }
}

/// `b` serializes the elements `s`, one for one.
pub open spec fn serializes(b: Seq<LargeFieldSer>, s: Seq<LargeField>) -> bool {
    &&& b.len() == s.len()
    &&& forall|k: int| 0 <= k < b.len() ==> be_nat((#[trigger] b[k])@) == s[k].val()
}

/// Serializes the elements `v[lo..hi]`.
fn ser_range(v: &Vec<LargeField>, lo: usize, hi: usize) -> (r: Vec<LargeFieldSer>)
    requires
        lo <= hi <= v@.len(),
    ensures
        serializes(r@, v@.subrange(lo as int, hi as int)),
{
    let mut r: Vec<LargeFieldSer> = Vec::new();
    for i in lo..hi
        invariant
            lo <= hi <= v@.len(),
            serializes(r@, v@.subrange(lo as int, i as int)),
    {
        let b = v[i].to_bytes_be();
        r.push(b);
    }
    r
}

/// `n` serialized zeros.
fn ser_zeros(n: usize) -> (r: Vec<LargeFieldSer>)
    ensures
        r@.len() == n,
        forall|k: int| 0 <= k < n ==> be_nat((#[trigger] r@[k])@) == 0,
{
    let mut r: Vec<LargeFieldSer> = Vec::new();
    for i in 0..n
        invariant
            r@.len() == i,
            forall|k: int| 0 <= k < i ==> be_nat((#[trigger] r@[k])@) == 0,
    {
        r.push(LargeField::zero().to_bytes_be());
    }
    r
}

impl Context {
    /// The number of secrets in one batch of a sharing instance.
    pub open spec fn batch_size(self) -> nat {
        if self.per_batch_maximum <= self.total_sharings { self.per_batch_maximum as nat } else { self.total_sharings as nat }
    }

    /// How many random field elements starting the preprocessing takes.
    pub open spec fn randomness_needed(self) -> nat {
        3 * (self.tot_batches as nat) * self.batch_size() + self.output_mask_size as nat
    }

    /// How many random field elements `init_rand_sh` takes: three times
    /// `tot_batches` batches of `min(per_batch_maximum, total_sharings)`
    /// secrets, and one output mask element per output wire.
    pub fn random_values_needed(&self) -> (n: usize)
        requires
            self.wf(),
        ensures
            n == self.randomness_needed(),
    {
        let bs = if self.per_batch_maximum <= self.total_sharings { self.per_batch_maximum } else { self.total_sharings };
        proof {
            assert(3 * self.tot_batches * bs <= 3 * self.tot_batches * self.per_batch_maximum) by (nonlinear_arith)
                requires bs <= self.per_batch_maximum;
        }
        3 * self.tot_batches * bs + self.output_mask_size
    }

    /// The actions that start the preprocessing with the random elements
    /// `random_values` (see `init_rand_sh_with_randomness`).
    pub open spec fn rand_sh_actions(self, random_values: Seq<LargeField>, actions: Seq<Action>) -> bool {
        let nb = self.tot_batches as int;
        let bs = self.batch_size() as int;
        let ni = self.inputs@.len() as int;
        &&& actions.len() == 6 * nb + ni + 1
        &&& forall|i: int| 0 <= i < 3 * nb ==> ((#[trigger] actions[i]) matches Action::StartAcss(id, b)
            && id == i && serializes(b@, random_values.subrange(i * bs, i * bs + bs)))
        &&& forall|j: int| 0 <= j < ni ==> ((#[trigger] actions[3 * nb + j]) matches Action::StartAcss(id, b)
            && id == self.input_acss_id_offset + j && serializes(b@, seq![self.inputs@[j]]))
        &&& forall|i: int| 0 <= i < 3 * nb ==> ((#[trigger] actions[3 * nb + ni + i]) matches Action::StartSh2t(id, b)
            && id == i && b@.len() == bs && forall|k: int| 0 <= k < bs ==> be_nat((#[trigger] b@[k])@) == 0)
        &&& actions[6 * nb + ni] matches Action::AvssRequest(deal, Some(b), None) && deal
            && serializes(b@, random_values.subrange(3 * nb * bs, random_values.len() as int))
    }

    /// Starts the preprocessing with fresh random field elements (see
    /// `init_rand_sh_with_randomness`).
    pub fn init_rand_sh(&self) -> (actions: Vec<Action>)
        requires
            self.wf(),
        ensures
            exists|random_values: Seq<LargeField>| {
                &&& random_values.len() == self.randomness_needed()
                &&& forall|i: int| 0 <= i < random_values.len() ==> (#[trigger] random_values[i]).canonical()
                &&& #[trigger] self.rand_sh_actions(random_values, actions@)
            },
    {
        let n = self.random_values_needed();
        let mut random_values: Vec<LargeField> = Vec::new();
        for i in 0..n
            invariant
                random_values@.len() == i,
                forall|k: int| 0 <= k < i ==> (#[trigger] random_values@[k]).canonical(),
        {
            random_values.push(LargeField::random());
        }
        let ghost rv = random_values@;
        let actions = self.init_rand_sh_with_randomness(random_values);
        assert(self.rand_sh_actions(rv, actions@));
        actions
    }

    /// Starts the preprocessing with the random field elements `random_values`:
    /// `3 * tot_batches` ACSS-with-abort instances `0, 1, ...`, instance `i`
    /// sharing the batch `i` of `random_values` (the first third makes the
    /// inputs of the random bits, the rest the multiplication sharings); one
    /// ACSS-with-abort instance per input, with id `input_acss_id_offset + j`
    /// for input `j`; `3 * tot_batches` degree-2t sharing instances of zeros;
    /// and the AVSS of the remaining `output_mask_size` random elements, the
    /// output masks.
    pub fn init_rand_sh_with_randomness(&self, random_values: Vec<LargeField>) -> (actions: Vec<Action>)
        requires
            self.wf(),
            random_values@.len() == self.randomness_needed(),
        ensures
            self.rand_sh_actions(random_values@, actions@),
    {
        let nb = self.tot_batches;
        let bs = if self.per_batch_maximum <= self.total_sharings { self.per_batch_maximum } else { self.total_sharings };
        proof {
            assert(3 * nb * bs <= 3 * nb * self.per_batch_maximum) by (nonlinear_arith)
                requires bs <= self.per_batch_maximum;
        }
        let ghost ni = self.inputs@.len() as int;
        let mut actions: Vec<Action> = Vec::new();
        let mut pos: usize = 0;
        let total = random_values.len();
        proof {
            assert(0 * bs == 0) by (nonlinear_arith);
        }
        for i in 0..3 * nb
            invariant
                nb == self.tot_batches,
                bs == self.batch_size(),
                3 * nb * bs + self.output_mask_size == random_values@.len(),
                total == random_values@.len(),
                pos == i * bs,
                actions@.len() == i,
                forall|k: int| 0 <= k < i ==> ((#[trigger] actions@[k]) matches Action::StartAcss(id, b)
                    && id == k && serializes(b@, random_values@.subrange(k * bs, k * bs + bs))),
        {
            proof {
                assert((i + 1) * bs == i * bs + bs) by (nonlinear_arith);
                assert((i + 1) * bs <= (3 * nb) * bs) by (nonlinear_arith)
                    requires i + 1 <= 3 * nb;
            }
            let batch = ser_range(&random_values, pos, pos + bs);
            actions.push(Action::StartAcss(i, batch));
            pos = pos + bs;
        }
        for j in 0..self.inputs.len()
            invariant
                nb == self.tot_batches,
                bs == self.batch_size(),
                ni == self.inputs@.len(),
                self.wf(),
                actions@.len() == 3 * nb + j,
                forall|k: int| 0 <= k < 3 * nb ==> ((#[trigger] actions@[k]) matches Action::StartAcss(id, b)
                    && id == k && serializes(b@, random_values@.subrange(k * bs, k * bs + bs))),
                forall|k: int| 0 <= k < j ==> ((#[trigger] actions@[3 * nb + k]) matches Action::StartAcss(id, b)
                    && id == self.input_acss_id_offset + k && serializes(b@, seq![self.inputs@[k]])),
        {
            let mut batch: Vec<LargeFieldSer> = Vec::new();
            batch.push(self.inputs[j].to_bytes_be());
            proof {
                assert(serializes(batch@, seq![self.inputs@[j as int]]));
            }
            actions.push(Action::StartAcss(self.input_acss_id_offset + j, batch));
        }
        for i in 0..3 * nb
            invariant
                nb == self.tot_batches,
                bs == self.batch_size(),
                ni == self.inputs@.len(),
                actions@.len() == 3 * nb + ni + i,
                forall|k: int| 0 <= k < 3 * nb ==> ((#[trigger] actions@[k]) matches Action::StartAcss(id, b)
                    && id == k && serializes(b@, random_values@.subrange(k * bs, k * bs + bs))),
                forall|k: int| 0 <= k < ni ==> ((#[trigger] actions@[3 * nb + k]) matches Action::StartAcss(id, b)
                    && id == self.input_acss_id_offset + k && serializes(b@, seq![self.inputs@[k]])),
                forall|k: int| 0 <= k < i ==> ((#[trigger] actions@[3 * nb + ni + k]) matches Action::StartSh2t(id, b)
                    && id == k && b@.len() == bs && forall|m: int| 0 <= m < bs ==> be_nat((#[trigger] b@[m])@) == 0),
        {
            let zeros = ser_zeros(bs);
            actions.push(Action::StartSh2t(i, zeros));
        }
        let masks = ser_range(&random_values, 3 * nb * bs, random_values.len());
        actions.push(Action::AvssRequest(true, Some(masks), None));
        actions
    }
}


/// Builds the groups of `share_groups`: the `k`-th share of every party in
/// the common subset, for each `k`.
fn collect_share_groups(
    shares: &HashMap<Replica, BatchShares>,
    acs: &HashSet<Replica>,
    num_nodes: usize,
    lo: usize,
    hi: usize,
    size: usize,
) -> (groups: Vec<Vec<LargeField>>)
    requires
        share_groups_fit(shares@, acs@, num_nodes as nat, lo as nat, hi as nat, size as nat),
    ensures
        views(groups@) == share_groups(shares@, acs@, num_nodes as nat, lo as nat, hi as nat, size as nat),
{
    let mut groups: Vec<Vec<LargeField>> = Vec::new();
    for _k in 0..size
        invariant
            groups@.len() == _k,
            forall|j: int| 0 <= j < _k ==> (#[trigger] groups@[j])@.len() == 0,
    {
        groups.push(Vec::new());
    }
    proof {
        assert forall|j: int| 0 <= j < size implies views(groups@)[j] =~= Seq::<LargeField>::empty() by {}
        assert(views(groups@) =~= share_groups(shares@, acs@, 0, lo as nat, hi as nat, size as nat));
    }
    for party in 0..num_nodes
        invariant
            views(groups@) == share_groups(shares@, acs@, party as nat, lo as nat, hi as nat, size as nat),
            share_groups_fit(shares@, acs@, num_nodes as nat, lo as nat, hi as nat, size as nat),
    {
        let ghost prev = views(groups@);
        proof {
            lemma_share_groups_len(shares@, acs@, party as nat, lo as nat, hi as nat, size as nat);
        }
        if acs.contains(&party) {
            assert(acs@.contains(party as usize));
            let m = shares.get(&party).unwrap();
            let ghost full = batches_concat(m@, lo as nat, hi as nat);
            let mut index: usize = 0;
            let mut batch = lo;
            while batch < hi
                invariant
                    lo <= hi ==> lo <= batch <= hi,
                    lo > hi ==> batch == lo,
                    index == batches_concat(m@, lo as nat, batch as nat).len(),
                    full == batches_concat(m@, lo as nat, hi as nat),
                    full.len() <= size,
                    batches_concat(m@, lo as nat, batch as nat) == full.take(index as int),
                    groups@.len() == prev.len(),
                    prev.len() == size,
                    forall|k: int| 0 <= k < size ==> (#[trigger] groups@[k])@ == (if k < index { prev[k].push(full[k]) } else { prev[k] }),
                decreases hi - batch,
            {
                proof {
                    lemma_batches_concat_prefix(m@, lo as nat, (batch + 1) as nat, hi as nat);
                }
                match m.get(&batch) {
                    None => {},
                    Some(shares_batch) => {
                        let ghost start = index;
                        proof {
                            let c1 = batches_concat(m@, lo as nat, (batch + 1) as nat);
                            assert(c1 == batches_concat(m@, lo as nat, batch as nat) + shares_batch@);
                            assert forall|t: int| 0 <= t < shares_batch@.len() implies full[start + t] == shares_batch@[t] by {
                                assert(c1[start + t] == shares_batch@[t]);
                                assert(full.take(c1.len() as int)[start + t] == full[start + t]);
                            }
                        }
                        for j in 0..shares_batch.len()
                            invariant
                                index == start + j,
                                start + shares_batch@.len() <= full.len(),
                                full.len() <= size,
                                forall|t: int| 0 <= t < shares_batch@.len() ==> full[start + t] == shares_batch@[t],
                                groups@.len() == prev.len(),
                                prev.len() == size,
                                forall|k: int| 0 <= k < size ==> (#[trigger] groups@[k])@ == (if k < index { prev[k].push(full[k]) } else { prev[k] }),
                        {
                            let share = shares_batch[j];
                            groups[index].push(share);
                            index = index + 1;
                        }
                    },
                }
                batch = batch + 1;
            }
            proof {
                assert(index == full.len());
                assert(views(groups@) =~= add_column(prev, full));
            }
        }
    }
    groups
}

/// There are `size` share groups, however many parties add to them.
proof fn lemma_share_groups_len(
    shares: Map<Replica, BatchShares>,
    acs: Set<Replica>,
    parties: nat,
    lo: nat,
    hi: nat,
    size: nat,
)
    ensures
        share_groups(shares, acs, parties, lo, hi, size).len() == size,
    decreases parties,
{
    if parties > 0 {
        lemma_share_groups_len(shares, acs, (parties - 1) as nat, lo, hi, size);
    }
}


/// Whether `share_groups_fit` holds; `Err` names a party that breaks it.
fn check_share_groups_fit(
    shares: &HashMap<Replica, BatchShares>,
    acs: &HashSet<Replica>,
    num_nodes: usize,
    lo: usize,
    hi: usize,
    size: usize,
) -> (r: Result<(), ProtocolError>)
    ensures
        r is Ok <==> share_groups_fit(shares@, acs@, num_nodes as nat, lo as nat, hi as nat, size as nat),
{
    for party in 0..num_nodes
        invariant
            share_groups_fit(shares@, acs@, party as nat, lo as nat, hi as nat, size as nat),
    {
        if acs.contains(&party) {
            match shares.get(&party) {
                None => {
                    assert(acs@.contains((party as nat) as usize));
                    return Err(ProtocolError::MissingShares(party));
                },
                Some(m) => {
                    let mut total: usize = 0;
                    let mut batch = lo;
                    while batch < hi
                        invariant
                            lo <= hi ==> lo <= batch <= hi,
                            lo > hi ==> batch == lo,
                            total == batches_concat(m@, lo as nat, batch as nat).len(),
                            total <= size,
                            acs@.contains(party),
                            party < num_nodes,
                            shares@.contains_key(party),
                            m@ == shares@[party]@,
                        decreases hi - batch,
                    {
                        match m.get(&batch) {
                            None => {},
                            Some(v) => {
                                if v.len() > size - total {
                                    proof {
                                        lemma_batches_concat_prefix(m@, lo as nat, (batch + 1) as nat, hi as nat);
                                        assert(batches_concat(m@, lo as nat, (batch + 1) as nat) == batches_concat(m@, lo as nat, batch as nat) + v@);
                                        assert(acs@.contains((party as nat) as usize));
                                        assert(batches_concat(shares@[(party as nat) as usize]@, lo as nat, hi as nat).len() > size);
                                    }
                                    return Err(ProtocolError::TooManyShares(party));
                                }
                                total = total + v.len();
                            },
                        }
                        batch = batch + 1;
                    }
                },
            }
        }
    }
    Ok(())
}

/// `batches_concat` up to `mid` is a prefix of `batches_concat` up to `hi`.
proof fn lemma_batches_concat_prefix(m: Map<usize, Vec<LargeField>>, lo: nat, mid: nat, hi: nat)
    requires
        mid <= hi,
    ensures
        batches_concat(m, lo, mid).len() <= batches_concat(m, lo, hi).len(),
        batches_concat(m, lo, mid) == batches_concat(m, lo, hi).take(batches_concat(m, lo, mid).len() as int),
    decreases hi - mid,
{
    if mid < hi {
        lemma_batches_concat_prefix(m, lo, mid, (hi - 1) as nat);
        let a = batches_concat(m, lo, mid);
        let b = batches_concat(m, lo, (hi - 1) as nat);
        if hi - 1 >= lo {
            assert(batches_concat(m, lo, hi).take(b.len() as int) =~= b);
        }
        assert(batches_concat(m, lo, hi).take(a.len() as int) =~= b.take(a.len() as int));
    }
}

/// One more factor `x` gives the next power, modulo the prime.
proof fn lemma_power_step(x: nat, e: nat)
    ensures
        (power(x, e) % modulus() * x) % modulus() == power(x, e + 1) % modulus(),
{
    lemma_mul_mod_noop_left(power(x, e) as int, x as int, modulus() as int);
    lemma_mul_is_commutative(power(x, e) as int, x as int);
}


/// The points `2, ..., t + 2` as field elements.
pub(crate) fn combination_points(t: usize) -> (xs: Vec<LargeField>)
    requires
        t + 3 <= usize::MAX,
    ensures
        vals(xs@) == vdm_points(t as nat),
{
    let mut xs: Vec<LargeField> = Vec::new();
    for x in 2..t + 3
        invariant
            xs@.len() == x - 2,
            forall|i: int| 0 <= i < xs@.len() ==> (#[trigger] xs@[i]).val() == i + 2,
    {
        let e = LargeField::from_u64(x as u64);
        proof {
            assert(x < 0x1_0000_0000_0000_0000nat);
            vstd::arithmetic::div_mod::lemma_small_mod(x as nat, modulus());
        }
        xs.push(e);
    }
    proof {
        assert(vals(xs@) =~= vdm_points(t as nat));
    }
    xs
}

/// The Vandermonde matrix on the points `2, ..., t + 2` with `2t + 1` columns.
pub(crate) fn combination_matrix(t: usize) -> (m: Vec<Vec<LargeField>>)
    requires
        2 * t + 3 <= usize::MAX,
    ensures
        is_vandermonde(m@, vdm_points(t as nat), 2 * (t as nat) + 1),
{
    let xs = combination_points(t);
    Context::vandermonde_matrix(xs, 2 * t + 1)
}


/// A copy of a vector of field elements.
pub(crate) fn copy_elems(v: &Vec<LargeField>) -> (r: Vec<LargeField>)
    ensures
        r@ == v@,
{
    let mut r: Vec<LargeField> = Vec::new();
    for i in 0..v.len()
        invariant
            r@ == v@.take(i as int),
    {
        r.push(v[i]);
        proof {
            assert(r@ =~= v@.take(i + 1));
        }
    }
    proof {
        assert(v@.take(v@.len() as int) =~= v@);
    }
    r
}

/// A copy of a set of parties.
pub(crate) fn copy_set(s: &HashSet<Replica>) -> (r: HashSet<Replica>)
    ensures
        r@ == s@,
{
    let v = set_to_vec(s);
    let mut r: HashSet<Replica> = HashSet::new();
    for i in 0..v.len()
        invariant
            r@ == v@.take(i as int).to_set(),
    {
        r.insert(v[i]);
        proof {
            crate::rand_mask::lemma_take_to_set(v@, i as int);
        }
    }
    proof {
        assert(v@.take(v@.len() as int) =~= v@);
    }
    r
}

impl Context {
    /// The value groups of the degree-t shares of the instances `offset..offset + tot_batches`.
    pub open spec fn groups_at(self, offset: nat) -> Seq<Seq<nat>> {
        group_vals(share_groups(
            self.rand_sharings_state.shares@,
            self.rand_sharings_state.acs_output@,
            self.num_nodes as nat,
            offset,
            offset + self.tot_batches as nat,
            (self.tot_batches * self.per_batch_maximum) as nat,
        ))
    }

    /// The value groups of the degree-2t shares.
    pub open spec fn groups_2t(self) -> Seq<Seq<nat>> {
        group_vals(share_groups(
            self.rand_sharings_state.sh2t_shares@,
            self.rand_sharings_state.acs_output@,
            self.num_nodes as nat,
            0,
            self.tot_batches as nat,
            (3 * self.tot_batches * self.per_batch_maximum) as nat,
        ))
    }

    /// The random sharings made from the first third of the degree-t instances.
    pub open spec fn input_rand_sharings(self) -> Seq<nat> {
        combine_groups(self.num_faults as nat, self.groups_at(0))
    }

    /// The random sharings made from the second and last thirds of the degree-t instances.
    pub open spec fn mult_rand_sharings(self) -> Seq<nat> {
        combine_groups(self.num_faults as nat, self.groups_at(self.tot_batches as nat)) + combine_groups(
            self.num_faults as nat,
            self.groups_at(2 * (self.tot_batches as nat)),
        )
    }

    /// The random degree-2t sharings.
    pub open spec fn rand_2t_sharings(self) -> Seq<nat> {
        combine_groups(self.num_faults as nat, self.groups_2t())
    }

    /// No random sharings yet, and every party of the non-empty common subset
    /// completed its sharings.
    pub open spec fn ready_to_combine(self) -> bool {
        &&& self.rand_sharings_state.rand_sharings_mult@.len() == 0
        &&& self.rand_sharings_state.acs_output@.len() != 0
        &&& self.rand_sharings_state.acs_output@.subset_of(self.rand_sharings_state.acss_completed_parties@)
    }

    /// The shares of every party of the common subset below `num_nodes` fit
    /// the group layout, and each such party has input shares.
    pub open spec fn combine_fits(self) -> bool {
        let acs = self.rand_sharings_state.acs_output@;
        let n = self.num_nodes as nat;
        let tb = self.tot_batches as nat;
        let size = (self.tot_batches * self.per_batch_maximum) as nat;
        &&& share_groups_fit(self.rand_sharings_state.shares@, acs, n, 0, tb, size)
        &&& share_groups_fit(self.rand_sharings_state.shares@, acs, n, tb, 2 * tb, size)
        &&& share_groups_fit(self.rand_sharings_state.shares@, acs, n, 2 * tb, 3 * tb, size)
        &&& share_groups_fit(self.rand_sharings_state.sh2t_shares@, acs, n, 0, tb, (3 * self.tot_batches * self.per_batch_maximum) as nat)
        &&& forall|p: nat| p < n && #[trigger] acs.contains(p as usize) ==> self.mix_circuit_state.input_acss_shares@.contains_key(p as usize)
    }

    /// Every input has its shares from each party of the common subset.
    pub open spec fn inputs_complete(self) -> bool {
        input_shares_complete(
            self.mix_circuit_state.input_acss_shares@,
            self.rand_sharings_state.acs_output@,
            self.num_nodes as nat,
            self.inputs@.len(),
        )
    }

    /// Whether the final steps of combining fail: fewer multiplication
    /// sharings than coins, or AVSS shares that do not fit the mask layout.
    pub open spec fn finish_fails(self) -> bool {
        ||| self.mult_rand_sharings().len() < self.total_sharings_for_coins
        ||| !avss_fit(
            self.output_mask_state.avss_shares@,
            self.rand_sharings_state.acs_output@,
            self.num_nodes as nat,
            self.output_mask_size as nat,
        )
    }

    /// What one step of combining the sharings does, from this state to
    /// `post` with result `r` (see `verify_termination`).
    pub open spec fn combine_step(self, post: Context, r: Result<Vec<Action>, ProtocolError>) -> bool {
        &&& !self.ready_to_combine() ==> r is Ok && r->Ok_0@.len() == 0 && post == self
        &&& self.ready_to_combine() && !self.combine_fits() ==> r is Err && post == self
        &&& self.ready_to_combine() && self.combine_fits() && !self.inputs_complete() ==> {
            &&& r is Ok && r->Ok_0@.len() == 0
            &&& vals(post.rand_sharings_state.rand_sharings_inputs.0@) == self.input_rand_sharings()
            &&& vals(post.rand_sharings_state.rand_sharings_inputs.1@) == self.input_rand_sharings()
            &&& vals(post.mix_circuit_state.rand_bit_inp_shares@) == vals(self.mix_circuit_state.rand_bit_inp_shares@) + self.input_rand_sharings()
            &&& all_canonical(post.rand_sharings_state.rand_sharings_inputs.0@)
            &&& all_canonical(post.rand_sharings_state.rand_sharings_inputs.1@)
            &&& extends_canonically(post.mix_circuit_state.rand_bit_inp_shares@, self.mix_circuit_state.rand_bit_inp_shares@)
            &&& post == (Context {
                rand_sharings_state: RandSharingsState {
                    rand_sharings_inputs: post.rand_sharings_state.rand_sharings_inputs,
                    ..self.rand_sharings_state
                },
                mix_circuit_state: MixCircuitState {
                    rand_bit_inp_shares: post.mix_circuit_state.rand_bit_inp_shares,
                    ..self.mix_circuit_state
                },
                ..self
            })
        }
        &&& self.ready_to_combine() && self.combine_fits() && self.inputs_complete() ==> {
            &&& r is Err <==> self.finish_fails()
            &&& r is Err ==> post == self
            &&& r is Ok ==> {
                let mult = self.mult_rand_sharings();
                let cut = mult.len() - self.total_sharings_for_coins;
                &&& r->Ok_0@ == seq![Action::InitRandomSharedBitsPreparation]
                &&& vals(post.rand_sharings_state.rand_sharings_inputs.0@) == self.input_rand_sharings()
                &&& vals(post.rand_sharings_state.rand_sharings_inputs.1@) == self.input_rand_sharings()
                &&& vals(post.mix_circuit_state.rand_bit_inp_shares@) == vals(self.mix_circuit_state.rand_bit_inp_shares@) + self.input_rand_sharings()
                &&& post.mix_circuit_state.input_sharings@ == self.mix_circuit_state.input_sharings@ + input_sharings_concat(
                    self.mix_circuit_state.input_acss_shares@,
                    self.rand_sharings_state.acs_output@,
                    self.num_nodes as nat,
                    self.inputs@.len(),
                )
                &&& vals(post.rand_sharings_state.rand_sharings_mult@) == mult.take(cut)
                &&& vals(post.rand_sharings_state.rand_sharings_coin@) == vals(self.rand_sharings_state.rand_sharings_coin@) + mult.skip(cut)
                &&& vals(post.rand_sharings_state.rand_2t_sharings_mult@) == vals(self.rand_sharings_state.rand_2t_sharings_mult@) + self.rand_2t_sharings()
                &&& all_canonical(post.rand_sharings_state.rand_sharings_inputs.0@)
                &&& all_canonical(post.rand_sharings_state.rand_sharings_inputs.1@)
                &&& extends_canonically(post.mix_circuit_state.rand_bit_inp_shares@, self.mix_circuit_state.rand_bit_inp_shares@)
                &&& all_canonical(post.rand_sharings_state.rand_sharings_mult@)
                &&& extends_canonically(post.rand_sharings_state.rand_sharings_coin@, self.rand_sharings_state.rand_sharings_coin@)
                &&& extends_canonically(post.rand_sharings_state.rand_2t_sharings_mult@, self.rand_sharings_state.rand_2t_sharings_mult@)
                &&& extends_canonically(post.output_mask_state.rand_sharings@, self.output_mask_state.rand_sharings@)
                &&& post.rand_sharings_state.shares@ == Map::<Replica, BatchShares>::empty()
                &&& post.rand_sharings_state.sh2t_shares@ == Map::<Replica, BatchShares>::empty()
                &&& post.output_mask_state.acs_recon_set@ == self.output_mask_state.acs_recon_set@.union(self.rand_sharings_state.acs_output@)
                &&& vals(post.output_mask_state.rand_sharings@) == vals(self.output_mask_state.rand_sharings@) + combine_groups(
                    self.num_faults as nat,
                    columns(
                        avss_columns(self.output_mask_state.avss_shares@, self.rand_sharings_state.acs_output@, self.num_nodes as nat),
                        self.output_mask_size as nat,
                    ),
                )
                &&& post == (Context {
                    rand_sharings_state: RandSharingsState {
                        shares: post.rand_sharings_state.shares,
                        sh2t_shares: post.rand_sharings_state.sh2t_shares,
                        rand_sharings_inputs: post.rand_sharings_state.rand_sharings_inputs,
                        rand_sharings_mult: post.rand_sharings_state.rand_sharings_mult,
                        rand_sharings_coin: post.rand_sharings_state.rand_sharings_coin,
                        rand_2t_sharings_mult: post.rand_sharings_state.rand_2t_sharings_mult,
                        ..self.rand_sharings_state
                    },
                    mix_circuit_state: MixCircuitState {
                        rand_bit_inp_shares: post.mix_circuit_state.rand_bit_inp_shares,
                        input_sharings: post.mix_circuit_state.input_sharings,
                        ..self.mix_circuit_state
                    },
                    output_mask_state: RandomOutputMaskStruct {
                        acs_recon_set: post.output_mask_state.acs_recon_set,
                        rand_sharings: post.output_mask_state.rand_sharings,
                        ..self.output_mask_state
                    },
                    ..self
                })
            }
        }
    }

    /// Once every party of the common subset has completed its sharings,
    /// combines them into random sharings with the Vandermonde matrix on the
    /// points `2, ..., t + 2` with `2t + 1` columns: the first third of the
    /// degree-t instances gives the sharings of the inputs of the random bits,
    /// the rest the multiplication sharings, of which the last
    /// `total_sharings_for_coins` become coin sharings; the degree-2t
    /// instances give the degree-2t sharings. The input sharings are then
    /// collected, the instance shares dropped, the random masks generated, and
    /// the preparation of random bits started. `Err`, with the state unchanged,
    /// where the protocol aborts (see `combine_step`).
    pub fn verify_termination(&mut self) -> (r: Result<Vec<Action>, ProtocolError>)
        requires
            old(self).wf(),
        ensures
            old(self).combine_step(*final(self), r),
    {
        if self.rand_sharings_state.rand_sharings_mult.len() > 0 {
            return Ok(Vec::new());
        }
        if self.rand_sharings_state.acs_output.len() == 0 {
            return Ok(Vec::new());
        }
        let order = set_to_vec(&self.rand_sharings_state.acs_output);
        let mut flag = true;
        for i in 0..order.len()
            invariant
                flag <==> forall|j: int| 0 <= j < i ==> self.rand_sharings_state.acss_completed_parties@.contains(#[trigger] order@[j]),
        {
            flag = flag && self.rand_sharings_state.acss_completed_parties.contains(&order[i]);
        }
        proof {
            assert(flag <==> self.rand_sharings_state.acs_output@.subset_of(self.rand_sharings_state.acss_completed_parties@)) by {
                assert(order@.to_set() == self.rand_sharings_state.acs_output@);
                if flag {
                    assert forall|p: Replica| self.rand_sharings_state.acs_output@.contains(p) implies self.rand_sharings_state.acss_completed_parties@.contains(p) by {
                        assert(order@.to_set().contains(p));
                        let j = choose|j: int| 0 <= j < order@.len() && order@[j] == p;
                        assert(self.rand_sharings_state.acss_completed_parties@.contains(order@[j]));
                    }
                } else {
                    let j = choose|j: int| 0 <= j < order@.len() && !self.rand_sharings_state.acss_completed_parties@.contains(#[trigger] order@[j]);
                    assert(order@.to_set().contains(order@[j]));
                }
            }
        }
        if !flag {
            return Ok(Vec::new());
        }
        let t = self.num_faults;
        let tb = self.tot_batches;
        let vdm = combination_matrix(t);
        proof {
            assert(tb * self.per_batch_maximum <= 3 * tb * self.per_batch_maximum) by (nonlinear_arith);
        }
        let size = tb * self.per_batch_maximum;
        check_share_groups_fit(&self.rand_sharings_state.shares, &self.rand_sharings_state.acs_output, self.num_nodes, 0, tb, size)?;
        check_share_groups_fit(&self.rand_sharings_state.shares, &self.rand_sharings_state.acs_output, self.num_nodes, tb, 2 * tb, size)?;
        check_share_groups_fit(&self.rand_sharings_state.shares, &self.rand_sharings_state.acs_output, self.num_nodes, 2 * tb, 3 * tb, size)?;
        check_share_groups_fit(&self.rand_sharings_state.sh2t_shares, &self.rand_sharings_state.acs_output, self.num_nodes, 0, tb, 3 * tb * self.per_batch_maximum)?;
        self.check_input_parties()?;
        let g1 = self.gen_random_sharings(0);
        let g2 = self.gen_random_sharings(tb);
        let g3 = self.gen_random_sharings(2 * tb);
        let g2t = self.gen_2t_sharings();
        let b1 = combine_all(&vdm, &g1);
        let mut mult = combine_all(&vdm, &g2);
        let mut b4 = combine_all(&vdm, &g3);
        proof {
            lemma_extends_by(mult@, b4@);
        }
        mult.append(&mut b4);
        let mut r2t = combine_all(&vdm, &g2t);
        proof {
            assert(all_canonical(b1@));
            assert(all_canonical(mult@));
            assert(all_canonical(r2t@));
            lemma_mat_groups_vdm(vdm@, t as nat, group_vals(views(g1@)));
            lemma_mat_groups_vdm(vdm@, t as nat, group_vals(views(g2@)));
            lemma_mat_groups_vdm(vdm@, t as nat, group_vals(views(g3@)));
            lemma_mat_groups_vdm(vdm@, t as nat, group_vals(views(g2t@)));
            assert(vals(mult@) =~= old(self).mult_rand_sharings());
        }
        let input_sharings = self.gen_input_sharings();
        let mut input_sharings = match input_sharings {
            None => {
                self.rand_sharings_state.rand_sharings_inputs = (copy_elems(&b1), copy_elems(&b1));
                let mut b1_copy = copy_elems(&b1);
                self.mix_circuit_state.rand_bit_inp_shares.append(&mut b1_copy);
                proof {
                    assert(vals(self.mix_circuit_state.rand_bit_inp_shares@) =~= vals(old(self).mix_circuit_state.rand_bit_inp_shares@) + vals(b1@));
                    lemma_extends_by(old(self).mix_circuit_state.rand_bit_inp_shares@, b1@);
                }
                return Ok(Vec::new());
            },
            Some(v) => v,
        };
        if mult.len() < self.total_sharings_for_coins {
            return Err(ProtocolError::TooFewSharings);
        }
        self.check_avss_fit()?;
        self.rand_sharings_state.rand_sharings_inputs = (copy_elems(&b1), copy_elems(&b1));
        let mut b1_copy = copy_elems(&b1);
        self.mix_circuit_state.rand_bit_inp_shares.append(&mut b1_copy);
        proof {
            assert(vals(self.mix_circuit_state.rand_bit_inp_shares@) =~= vals(old(self).mix_circuit_state.rand_bit_inp_shares@) + vals(b1@));
            lemma_extends_by(old(self).mix_circuit_state.rand_bit_inp_shares@, b1@);
        }
        self.mix_circuit_state.input_sharings.append(&mut input_sharings);
        let mut coin = mult.split_off(mult.len() - self.total_sharings_for_coins);
        let ghost kept = mult@;
        let ghost coins = coin@;
        proof {
            assert(all_canonical(kept));
            assert(all_canonical(coins));
            lemma_extends_by(self.rand_sharings_state.rand_sharings_mult@, kept);
            lemma_extends_by(self.rand_sharings_state.rand_sharings_coin@, coins);
            lemma_extends_by(self.rand_sharings_state.rand_2t_sharings_mult@, r2t@);
            assert(self.rand_sharings_state.rand_sharings_mult@.len() == 0);
            assert(self.rand_sharings_state.rand_sharings_mult@ + kept =~= kept);
        }
        self.rand_sharings_state.rand_sharings_mult.append(&mut mult);
        self.rand_sharings_state.rand_sharings_coin.append(&mut coin);
        self.rand_sharings_state.rand_2t_sharings_mult.append(&mut r2t);
        proof {
            assert(vals(self.rand_sharings_state.rand_sharings_mult@) =~= vals(kept));
            assert(vals(self.rand_sharings_state.rand_sharings_coin@) =~= vals(old(self).rand_sharings_state.rand_sharings_coin@) + vals(coins));
        }
        self.rand_sharings_state.shares.clear();
        self.rand_sharings_state.sh2t_shares.clear();
        let acs = copy_set(&self.rand_sharings_state.acs_output);
        let ghost vdm_v = vdm@;
        let mask_r = self.generate_random_mask_shares(acs, vdm);
        proof {
            assert(mask_r is Ok);
            lemma_mat_groups_vdm(vdm_v, t as nat, columns(
                avss_columns(old(self).output_mask_state.avss_shares@, old(self).rand_sharings_state.acs_output@, old(self).num_nodes as nat),
                old(self).output_mask_size as nat,
            ));
        }
        let mut actions: Vec<Action> = Vec::new();
        actions.push(Action::InitRandomSharedBitsPreparation);
        proof {
            let mult = old(self).mult_rand_sharings();
            let cut = mult.len() - old(self).total_sharings_for_coins;
            assert(!old(self).finish_fails());
            assert(vals(self.rand_sharings_state.rand_sharings_inputs.0@) == old(self).input_rand_sharings());
            assert(vals(self.mix_circuit_state.rand_bit_inp_shares@) == vals(old(self).mix_circuit_state.rand_bit_inp_shares@) + old(self).input_rand_sharings());
            assert(self.mix_circuit_state.input_sharings@ == old(self).mix_circuit_state.input_sharings@ + input_sharings_concat(
                        old(self).mix_circuit_state.input_acss_shares@,
                        old(self).rand_sharings_state.acs_output@,
                        old(self).num_nodes as nat,
                        old(self).inputs@.len(),
                    ));
            assert(vals(self.rand_sharings_state.rand_sharings_mult@) == mult.take(cut));
            assert(vals(self.rand_sharings_state.rand_sharings_coin@) == vals(old(self).rand_sharings_state.rand_sharings_coin@) + mult.skip(cut));
            assert(vals(self.rand_sharings_state.rand_2t_sharings_mult@) == vals(old(self).rand_sharings_state.rand_2t_sharings_mult@) + old(self).rand_2t_sharings());
            assert(actions@ =~= seq![Action::InitRandomSharedBitsPreparation]);
            assert(self.rand_sharings_state.shares@ == Map::<Replica, BatchShares>::empty());
            assert(self.output_mask_state.acs_recon_set@ == old(self).output_mask_state.acs_recon_set@.union(old(self).rand_sharings_state.acs_output@));
            assert(vals(self.output_mask_state.rand_sharings@) == vals(old(self).output_mask_state.rand_sharings@) + combine_groups(
                        old(self).num_faults as nat,
                        columns(
                            avss_columns(old(self).output_mask_state.avss_shares@, old(self).rand_sharings_state.acs_output@, old(self).num_nodes as nat),
                            old(self).output_mask_size as nat,
                        ),
                    ));
        }
        Ok(actions)
    }

    /// Whether `sender` has completed all its sharings: `3 * tot_batches`
    /// degree-t and degree-2t instances, one input sharing per input, and its AVSS.
    pub open spec fn sender_complete(self, sender: Replica) -> bool {
        &&& self.rand_sharings_state.shares@.contains_key(sender)
        &&& self.rand_sharings_state.sh2t_shares@.contains_key(sender)
        &&& self.output_mask_state.avss_shares@.contains_key(sender)
        &&& self.mix_circuit_state.input_acss_shares@.contains_key(sender)
        &&& self.rand_sharings_state.shares@[sender]@.len() == 3 * self.tot_batches
        &&& self.rand_sharings_state.sh2t_shares@[sender]@.len() == 3 * self.tot_batches
        &&& self.mix_circuit_state.input_acss_shares@[sender]@.len() == self.inputs@.len()
    }

    /// What checking `sender`'s completion does, from this state to `post`
    /// with result `r` (see `verify_sender_termination`).
    pub open spec fn sender_step(self, sender: Replica, post: Context, r: Result<Vec<Action>, ProtocolError>) -> bool {
        &&& !self.sender_complete(sender) ==> r is Ok && r->Ok_0@.len() == 0 && post == self
        &&& self.sender_complete(sender) ==> exists|mid: Context, r2: Result<Vec<Action>, ProtocolError>| {
            &&& mid.rand_sharings_state.acss_completed_parties@ == self.rand_sharings_state.acss_completed_parties@.insert(sender)
            &&& mid == (Context {
                rand_sharings_state: RandSharingsState {
                    acss_completed_parties: mid.rand_sharings_state.acss_completed_parties,
                    ..self.rand_sharings_state
                },
                ..self
            })
            &&& #[trigger] mid.combine_step(post, r2)
            &&& r is Err <==> r2 is Err
            &&& r is Ok ==> r->Ok_0@ == seq![Action::AcsEvent(1, sender)] + r2->Ok_0@
        }
    }

    /// When `sender` has completed all its sharings, records it as complete,
    /// tells the agreement on a common subset, and tries to combine the sharings.
    pub fn verify_sender_termination(&mut self, sender: Replica) -> (r: Result<Vec<Action>, ProtocolError>)
        requires
            old(self).wf(),
        ensures
            old(self).sender_step(sender, *final(self), r),
    {
        if !self.rand_sharings_state.shares.contains_key(&sender) || !self.rand_sharings_state.sh2t_shares.contains_key(&sender)
            || !self.output_mask_state.avss_shares.contains_key(&sender) {
            return Ok(Vec::new());
        }
        if !self.mix_circuit_state.input_acss_shares.contains_key(&sender) {
            return Ok(Vec::new());
        }
        let complete = self.rand_sharings_state.shares.get(&sender).unwrap().len() == 3 * self.tot_batches
            && self.rand_sharings_state.sh2t_shares.get(&sender).unwrap().len() == 3 * self.tot_batches
            && self.mix_circuit_state.input_acss_shares.get(&sender).unwrap().len() == self.inputs.len()
            && self.output_mask_state.avss_shares.contains_key(&sender);
        if !complete {
            return Ok(Vec::new());
        }
        self.rand_sharings_state.acss_completed_parties.insert(sender);
        let ghost mid = *self;
        let r2 = self.verify_termination();
        proof {
            assert(mid.combine_step(*self, r2));
        }
        match r2 {
            Err(e) => Err(e),
            Ok(mut rest) => {
                let mut actions: Vec<Action> = Vec::new();
                actions.push(Action::AcsEvent(1, sender));
                let ghost rest_v = rest@;
                actions.append(&mut rest);
                proof {
                    assert(actions@ =~= seq![Action::AcsEvent(1, sender)] + rest_v);
                }
                Ok(actions)
            },
        }
    }

    /// Records that `party_set` joins the common subset, then tries to combine the sharings.
    pub fn handle_acs_output(&mut self, party_set: Vec<Replica>) -> (r: Result<Vec<Action>, ProtocolError>)
        requires
            old(self).wf(),
        ensures
            exists|mid: Context| {
                &&& mid.rand_sharings_state.acs_output@ == old(self).rand_sharings_state.acs_output@.union(party_set@.to_set())
                &&& mid == (Context {
                    rand_sharings_state: RandSharingsState {
                        acs_output: mid.rand_sharings_state.acs_output,
                        ..old(self).rand_sharings_state
                    },
                    ..*old(self)
                })
                &&& #[trigger] mid.combine_step(*final(self), r)
            },
    {
        for i in 0..party_set.len()
            invariant
                self.rand_sharings_state.acs_output@ == old(self).rand_sharings_state.acs_output@.union(party_set@.take(i as int).to_set()),
                *self == (Context {
                    rand_sharings_state: RandSharingsState {
                        acs_output: self.rand_sharings_state.acs_output,
                        ..old(self).rand_sharings_state
                    },
                    ..*old(self)
                }),
        {
            self.rand_sharings_state.acs_output.insert(party_set[i]);
            proof {
                crate::rand_mask::lemma_take_to_set(party_set@, i as int);
                assert(self.rand_sharings_state.acs_output@ =~= old(self).rand_sharings_state.acs_output@.union(party_set@.take(i + 1).to_set()));
            }
        }
        proof {
            assert(party_set@.take(party_set@.len() as int) =~= party_set@);
        }
        let ghost mid = *self;
        let r = self.verify_termination();
        proof {
            assert(mid.combine_step(*self, r));
        }
        r
    }

    /// The view of `sender`'s shares by instance, before one more arrives.
    pub open spec fn batches_of(m: Map<Replica, BatchShares>, sender: Replica) -> Map<usize, Vec<LargeField>> {
        if m.contains_key(sender) { m[sender]@ } else { Map::empty() }
    }

    /// What recording the shares of one instance does: nothing when the
    /// instance aborted (`None`) or the random sharings exist already; else
    /// the deserialized shares are stored for (`sender`, `instance`) in the
    /// map that `sh2t` picks, and `sender`'s completion is checked.
    pub open spec fn term_msg_step(
        self,
        sh2t: bool,
        instance: usize,
        sender: Replica,
        shares: Option<Vec<LargeFieldSer>>,
        post: Context,
        r: Result<Vec<Action>, ProtocolError>,
    ) -> bool {
        &&& (shares is None || self.rand_sharings_state.rand_sharings_mult@.len() > 0) ==> r is Ok && r->Ok_0@.len() == 0 && post == self
        &&& (shares is Some && self.rand_sharings_state.rand_sharings_mult@.len() == 0) ==> exists|mid: Context| {
            let m = if sh2t { mid.rand_sharings_state.sh2t_shares@ } else { mid.rand_sharings_state.shares@ };
            let old_m = if sh2t { self.rand_sharings_state.sh2t_shares@ } else { self.rand_sharings_state.shares@ };
            &&& m.contains_key(sender)
            &&& m == old_m.insert(sender, m[sender])
            &&& m[sender]@.contains_key(instance)
            &&& m[sender]@ == Self::batches_of(old_m, sender).insert(instance, m[sender]@[instance])
            &&& vals(m[sender]@[instance]@) == deser_vals(shares->0@)
            &&& mid == (Context {
                rand_sharings_state: RandSharingsState {
                    shares: mid.rand_sharings_state.shares,
                    sh2t_shares: mid.rand_sharings_state.sh2t_shares,
                    ..self.rand_sharings_state
                },
                ..self
            })
            &&& (if sh2t { mid.rand_sharings_state.shares == self.rand_sharings_state.shares } else { mid.rand_sharings_state.sh2t_shares == self.rand_sharings_state.sh2t_shares })
            &&& #[trigger] mid.sender_step(sender, post, r)
        }
    }

    /// Records `sender`'s shares of ACSS-with-abort instance `instance` (see `term_msg_step`).
    pub fn handle_acss_term_msg(&mut self, instance: usize, sender: Replica, shares: Option<Vec<LargeFieldSer>>) -> (r: Result<Vec<Action>, ProtocolError>)
        requires
            old(self).wf(),
        ensures
            old(self).term_msg_step(false, instance, sender, shares, *final(self), r),
    {
        if shares.is_none() {
            return Ok(Vec::new());
        }
        if self.rand_sharings_state.rand_sharings_mult.len() > 0 {
            return Ok(Vec::new());
        }
        let shares_deser = deser_all(shares.as_ref().unwrap());
        let mut batches: BatchShares = match self.rand_sharings_state.shares.remove(&sender) {
            Some(m) => m,
            None => HashMap::new(),
        };
        batches.insert(instance, shares_deser);
        self.rand_sharings_state.shares.insert(sender, batches);
        let ghost mid = *self;
        let r = self.verify_sender_termination(sender);
        proof {
            assert(mid.sender_step(sender, *self, r));
            assert(mid.rand_sharings_state.shares@ =~= old(self).rand_sharings_state.shares@.insert(sender, mid.rand_sharings_state.shares@[sender]));
        }
        r
    }

    /// Records `sender`'s shares of degree-2t sharing instance `instance` (see `term_msg_step`).
    pub fn handle_sh2t_term_msg(&mut self, instance: usize, sender: Replica, shares: Option<Vec<LargeFieldSer>>) -> (r: Result<Vec<Action>, ProtocolError>)
        requires
            old(self).wf(),
        ensures
            old(self).term_msg_step(true, instance, sender, shares, *final(self), r),
    {
        if shares.is_none() {
            return Ok(Vec::new());
        }
        if self.rand_sharings_state.rand_sharings_mult.len() > 0 {
            return Ok(Vec::new());
        }
        let shares_deser = deser_all(shares.as_ref().unwrap());
        let mut batches: BatchShares = match self.rand_sharings_state.sh2t_shares.remove(&sender) {
            Some(m) => m,
            None => HashMap::new(),
        };
        batches.insert(instance, shares_deser);
        self.rand_sharings_state.sh2t_shares.insert(sender, batches);
        let ghost mid = *self;
        let r = self.verify_sender_termination(sender);
        proof {
            assert(mid.sender_step(sender, *self, r));
            assert(mid.rand_sharings_state.sh2t_shares@ =~= old(self).rand_sharings_state.sh2t_shares@.insert(sender, mid.rand_sharings_state.sh2t_shares@[sender]));
        }
        r
    }

    /// Whether each party of the common subset below `num_nodes` has input shares.
    fn check_input_parties(&self) -> (r: Result<(), ProtocolError>)
        ensures
            r is Ok <==> forall|p: nat| p < self.num_nodes && #[trigger] self.rand_sharings_state.acs_output@.contains(p as usize)
                ==> self.mix_circuit_state.input_acss_shares@.contains_key(p as usize),
    {
        for party in 0..self.num_nodes
            invariant
                forall|p: nat| p < party && #[trigger] self.rand_sharings_state.acs_output@.contains(p as usize)
                    ==> self.mix_circuit_state.input_acss_shares@.contains_key(p as usize),
        {
            if self.rand_sharings_state.acs_output.contains(&party) && !self.mix_circuit_state.input_acss_shares.contains_key(&party) {
                assert(self.rand_sharings_state.acs_output@.contains((party as nat) as usize));
                return Err(ProtocolError::MissingShares(party));
            }
        }
        Ok(())
    }

    /// Groups the shares of the instances `offset..offset + tot_batches`: group
    /// `k` holds the `k`-th such share of each party of the common subset, in
    /// increasing party order; there are `tot_batches * per_batch_maximum` groups.
    pub fn gen_random_sharings(&self, offset: usize) -> (groups: Vec<Vec<LargeField>>)
        requires
            offset + self.tot_batches <= usize::MAX,
            self.tot_batches * self.per_batch_maximum <= usize::MAX,
            share_groups_fit(
                self.rand_sharings_state.shares@,
                self.rand_sharings_state.acs_output@,
                self.num_nodes as nat,
                offset as nat,
                (offset + self.tot_batches) as nat,
                (self.tot_batches * self.per_batch_maximum) as nat,
            ),
        ensures
            views(groups@) == share_groups(
                self.rand_sharings_state.shares@,
                self.rand_sharings_state.acs_output@,
                self.num_nodes as nat,
                offset as nat,
                (offset + self.tot_batches) as nat,
                (self.tot_batches * self.per_batch_maximum) as nat,
            ),
    {
        collect_share_groups(
            &self.rand_sharings_state.shares,
            &self.rand_sharings_state.acs_output,
            self.num_nodes,
            offset,
            self.tot_batches + offset,
            self.tot_batches * self.per_batch_maximum,
        )
    }

    /// Groups the degree-2t shares of the instances `0..tot_batches`: group `k`
    /// holds the `k`-th such share of each party of the common subset, in
    /// increasing party order; there are `3 * tot_batches * per_batch_maximum` groups.
    pub fn gen_2t_sharings(&self) -> (groups: Vec<Vec<LargeField>>)
        requires
            3 * self.tot_batches <= usize::MAX,
            3 * self.tot_batches * self.per_batch_maximum <= usize::MAX,
            share_groups_fit(
                self.rand_sharings_state.sh2t_shares@,
                self.rand_sharings_state.acs_output@,
                self.num_nodes as nat,
                0,
                self.tot_batches as nat,
                (3 * self.tot_batches * self.per_batch_maximum) as nat,
            ),
        ensures
            views(groups@) == share_groups(
                self.rand_sharings_state.sh2t_shares@,
                self.rand_sharings_state.acs_output@,
                self.num_nodes as nat,
                0,
                self.tot_batches as nat,
                (3 * self.tot_batches * self.per_batch_maximum) as nat,
            ),
    {
        collect_share_groups(
            &self.rand_sharings_state.sh2t_shares,
            &self.rand_sharings_state.acs_output,
            self.num_nodes,
            0,
            self.tot_batches,
            3 * self.tot_batches * self.per_batch_maximum,
        )
    }

    /// The input shares of every party of the common subset, party by party in
    /// increasing order, each in input order; `None` when one of those parties
    /// lacks the share of some input.
    pub fn gen_input_sharings(&self) -> (r: Option<Vec<LargeField>>)
        requires
            forall|p: nat| p < self.num_nodes && #[trigger] self.rand_sharings_state.acs_output@.contains(p as usize)
                ==> self.mix_circuit_state.input_acss_shares@.contains_key(p as usize),
        ensures
            r is Some <==> input_shares_complete(
                self.mix_circuit_state.input_acss_shares@,
                self.rand_sharings_state.acs_output@,
                self.num_nodes as nat,
                self.inputs@.len(),
            ),
            r matches Some(v) ==> v@ == input_sharings_concat(
                self.mix_circuit_state.input_acss_shares@,
                self.rand_sharings_state.acs_output@,
                self.num_nodes as nat,
                self.inputs@.len(),
            ),
    {
        let ghost mm = self.mix_circuit_state.input_acss_shares@;
        let ghost acs = self.rand_sharings_state.acs_output@;
        let ghost ni = self.inputs@.len();
        let mut input_sharings: Vec<LargeField> = Vec::new();
        for party in 0..self.num_nodes
            invariant
                mm == self.mix_circuit_state.input_acss_shares@,
                acs == self.rand_sharings_state.acs_output@,
                ni == self.inputs@.len(),
                forall|p: nat| p < self.num_nodes && #[trigger] acs.contains(p as usize) ==> mm.contains_key(p as usize),
                input_shares_complete(mm, acs, party as nat, ni),
                input_sharings@ == input_sharings_concat(mm, acs, party as nat, ni),
        {
            if self.rand_sharings_state.acs_output.contains(&party) {
                assert(acs.contains((party as nat) as usize));
                let shares = self.mix_circuit_state.input_acss_shares.get(&party).unwrap();
                let ghost before = input_sharings@;
                for index in 0..self.inputs.len()
                    invariant
                        ni == self.inputs@.len(),
                        mm.contains_key(party),
                        mm == self.mix_circuit_state.input_acss_shares@,
                        acs == self.rand_sharings_state.acs_output@,
                        party < self.num_nodes,
                        shares@ == mm[party]@,
                        acs.contains(party),
                        forall|i: nat| i < index ==> #[trigger] shares@.contains_key(i as usize),
                        input_sharings@ == before + batches_concat(shares@, 0, index as nat),
                {
                    match shares.get(&index) {
                        None => {
                            assert(!mm[(party as nat) as usize]@.contains_key((index as nat) as usize));
                            return None;
                        },
                        Some(shares_batch) => {
                            let mut j: usize = 0;
                            let ghost mid = input_sharings@;
                            while j < shares_batch.len()
                                invariant
                                    j <= shares_batch@.len(),
                                    input_sharings@ == mid + shares_batch@.take(j as int),
                                decreases shares_batch@.len() - j,
                            {
                                input_sharings.push(shares_batch[j]);
                                j = j + 1;
                                proof {
                                    assert(shares_batch@.take(j as int) =~= shares_batch@.take(j - 1).push(shares_batch@[j - 1]));
                                }
                            }
                            proof {
                                assert(shares_batch@.take(j as int) =~= shares_batch@);
                                assert(batches_concat(shares@, 0, (index + 1) as nat) == batches_concat(shares@, 0, index as nat) + shares_batch@);
                            }
                        },
                    }
                }
                proof {
                    assert forall|p: nat, i: nat| p < party + 1 && i < ni && #[trigger] acs.contains(p as usize) implies #[trigger] mm[p as usize]@.contains_key(i as usize) by {
                        if p == party {
                            assert(shares@.contains_key(i as usize));
                        }
                    }
                }
            } else {
                proof {
                    assert forall|p: nat, i: nat| p < party + 1 && i < ni && #[trigger] acs.contains(p as usize) implies #[trigger] mm[p as usize]@.contains_key(i as usize) by {
                        assert(p != party);
                    }
                }
            }
        }
        Some(input_sharings)
    }

    /// Constructs the Vandermonde matrix for the given x-values: `x_values.len()`
    /// rows, each holding the first `y_vals_target` powers of its x-value.
    pub fn vandermonde_matrix(x_values: Vec<LargeField>, y_vals_target: usize) -> (matrix: Vec<Vec<LargeField>>)
        ensures
            is_vandermonde(matrix@, vals(x_values@), y_vals_target as nat),
            forall|r: int, c: int| 0 <= r < matrix@.len() && 0 <= c < y_vals_target ==> (#[trigger] matrix@[r]@[c]).canonical(),
    {
        let n = x_values.len();
        let mut matrix: Vec<Vec<LargeField>> = Vec::new();
        for row in 0..n
            invariant
                n == x_values@.len(),
                matrix@.len() == row,
                is_vandermonde(matrix@, vals(x_values@).take(row as int), y_vals_target as nat),
                forall|r: int, c: int| 0 <= r < matrix@.len() && 0 <= c < y_vals_target ==> (#[trigger] matrix@[r]@[c]).canonical(),
        {
            let x = x_values[row];
            let ghost xv = x.val();
            let mut value = LargeField::one();
            let mut powers: Vec<LargeField> = Vec::new();
            for col in 0..y_vals_target
                invariant
                    xv == x.val(),
                    powers@.len() == col,
                    value.val() == power(xv, col as nat) % modulus(),
                    forall|c: int| 0 <= c < col ==> (#[trigger] powers@[c]).val() == power(xv, c as nat) % modulus() && powers@[c].canonical(),
                    value.canonical(),
            {
                powers.push(value);
                proof { lemma_power_step(xv, col as nat); }
                value = value.mul(&x);
            }
            matrix.push(powers);
            proof {
                assert(vals(x_values@).take(row + 1) =~= vals(x_values@).take(row as int).push(xv));
            }
        }
        proof {
            assert(vals(x_values@).take(n as int) =~= vals(x_values@));
        }
        matrix
    }

    /// Multiplies each row of the matrix with the vector in the field; a row
    /// and the vector are paired up to the shorter of the two.
    pub fn matrix_vector_multiply(matrix: &Vec<Vec<LargeField>>, vector: &Vec<LargeField>) -> (r: Vec<LargeField>)
        ensures
            is_matrix_vector_product(r@, matrix@, vals(vector@)),
            forall|i: int| 0 <= i < r@.len() ==> (#[trigger] r@[i]).canonical(),
    {
        let mut out: Vec<LargeField> = Vec::new();
        for i in 0..matrix.len()
            invariant
                out@.len() == i,
                i <= matrix@.len(),
                forall|k: int| 0 <= k < i ==> (#[trigger] out@[k]).val() == dot(vals(matrix@[k]@), vals(vector@)) && out@[k].canonical(),
        {
            let row = &matrix[i];
            let len = if row.len() <= vector.len() { row.len() } else { vector.len() };
            let mut sum = LargeField::zero();
            for j in 0..len
                invariant
                    len <= row@.len(),
                    len <= vector@.len(),
                    sum.val() == dot_upto(vals(row@), vals(vector@), j as nat) % modulus(),
                    sum.canonical(),
            {
                let prod = row[j].mul(&vector[j]);
                proof {
                    let a = dot_upto(vals(row@), vals(vector@), j as nat) as int;
                    let b = (row@[j as int].val() * vector@[j as int].val()) as int;
                    lemma_add_mod_noop(a, b, modulus() as int);
                    vstd::arithmetic::div_mod::lemma_mod_twice(a, modulus() as int);
                    vstd::arithmetic::div_mod::lemma_mod_twice(b, modulus() as int);
                }
                sum = sum.add(&prod);
            }
            out.push(sum);
        }
        out
    }
}

} // verus!
