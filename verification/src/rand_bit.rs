use vstd::prelude::*;
use vstd::arithmetic::div_mod::{lemma_mod_multiples_vanish, lemma_mul_mod_noop_general};
use std::collections::HashMap;
use crate::context::{Action, Context, MixCircuitState, ProtMsg, ProtocolError, Replica};
use crate::field::{LargeField, LargeFieldSer, all_canonical, extends_canonically, lemma_extends_by, finv, fmul, fneg, is_square, modulus, montgomery_form, sqrt_root, vals};
use crate::rand_mask::{deser_all, deser_vals, val_map};
use crate::rand_sh::serializes;

verus! {

broadcast use vstd::std_specs::hash::group_hash_axioms;

/// The root of `s` that makes the random bit: the root that the field
/// returns first when its Montgomery form exceeds that of `half`, else the
/// other one.
pub open spec fn chosen_root(s: nat, half: nat) -> nat {
    let r = sqrt_root(s);
    if montgomery_form(r) > montgomery_form(half) {
        r
    } else {
        fneg(r)
    }
}

/// Every secret is a square whose chosen root is not zero.
pub open spec fn root_inverses_ok(secrets: Seq<nat>, half: nat) -> bool {
    forall|i: int| 0 <= i < secrets.len() ==> is_square(#[trigger] secrets[i]) && chosen_root(secrets[i], half) != 0
}

/// The inverse of the chosen root of each secret.
pub open spec fn root_inverses(secrets: Seq<nat>, half: nat) -> Seq<nat> {
    secrets.map_values(|s: nat| finv(chosen_root(s, half)))
}

/// The pairwise products in the field, up to the shorter sequence.
pub open spec fn products(a: Seq<nat>, b: Seq<nat>) -> Seq<nat> {
    Seq::new(if a.len() <= b.len() { a.len() } else { b.len() }, |i: int| fmul(a[i], b[i]))
}

/// Of the two roots `roots` of a square, picks the first when its
/// Montgomery form exceeds that of `half`, else the second, and returns its
/// inverse; `None` when the picked root is zero.
pub fn select_root_inverse(roots: (LargeField, LargeField), half: &LargeField) -> (r: Option<LargeField>)
    ensures
        ({
            let c = if montgomery_form(roots.0.val()) > montgomery_form(half.val()) { roots.0.val() } else { roots.1.val() };
            &&& r is None <==> c == 0
            &&& r matches Some(w) ==> w.val() == finv(c) && fmul(c, w.val()) == 1 && w.canonical()
        }),
{
    let (p1, p2) = roots;
    if p1.montgomery_gt(half) {
        p1.inv()
    } else {
        p2.inv()
    }
}

/// The inverse of the chosen root (see `chosen_root`) of `secret`; `Err`
/// when `secret` is not a square or the chosen root is zero.
pub fn square_root_inverse(secret: &LargeField, half: &LargeField) -> (r: Result<LargeField, ProtocolError>)
    ensures
        r is Err <==> !(is_square(secret.val()) && chosen_root(secret.val(), half.val()) != 0),
        r matches Ok(w) ==> {
            &&& w.canonical()
            &&& w.val() == finv(chosen_root(secret.val(), half.val()))
            &&& fmul(chosen_root(secret.val(), half.val()), w.val()) == 1
            &&& fmul(fmul(w.val(), w.val()), secret.val()) == 1
        },
{
    match secret.sqrt() {
        None => Err(ProtocolError::NonSquare),
        Some(roots) => {
            let ghost root = roots.0.val();
            match select_root_inverse(roots, half) {
                None => Err(ProtocolError::ZeroValue),
                Some(w) => {
                    proof {
                        lemma_neg_square(root);
                        lemma_inverse_root_square(chosen_root(secret.val(), half.val()), w.val(), secret.val());
                    }
                    Ok(w)
                },
            }
        },
    }
}

/// The inverse of the chosen root of each secret (see `square_root_inverse`);
/// `Err` at the first secret that has none.
pub fn inverse_roots(secrets: &Vec<LargeField>, half: &LargeField) -> (r: Result<Vec<LargeField>, ProtocolError>)
    ensures
        r is Err <==> !root_inverses_ok(vals(secrets@), half.val()),
        r matches Ok(v) ==> vals(v@) == root_inverses(vals(secrets@), half.val()),
        r matches Ok(v) ==> all_canonical(v@),
        r matches Ok(v) ==> forall|i: int| 0 <= i < v@.len() ==> fmul(fmul((#[trigger] v@[i]).val(), v@[i].val()), secrets@[i].val()) == 1,
{
    let ghost sv = vals(secrets@);
    let mut inverses: Vec<LargeField> = Vec::new();
    for i in 0..secrets.len()
        invariant
            sv == vals(secrets@),
            inverses@.len() == i,
            forall|j: int| 0 <= j < i ==> is_square(#[trigger] sv[j]) && chosen_root(sv[j], half.val()) != 0,
            forall|j: int| 0 <= j < i ==> (#[trigger] inverses@[j]).val() == finv(chosen_root(sv[j], half.val())),
            forall|j: int| 0 <= j < i ==> fmul(fmul((#[trigger] inverses@[j]).val(), inverses@[j].val()), sv[j]) == 1,
            all_canonical(inverses@),
    {
        assert(sv[i as int] == secrets@[i as int].val());
        match square_root_inverse(&secrets[i], half) {
            Err(e) => {
                return Err(e);
            },
            Ok(w) => {
                inverses.push(w);
            },
        }
    }
    proof {
        assert(vals(inverses@) =~= root_inverses(sv, half.val()));
    }
    Ok(inverses)
}

/// A negated element has the same square.
pub proof fn lemma_neg_square(x: nat)
    requires
        x < modulus(),
    ensures
        fmul(fneg(x), fneg(x)) == fmul(x, x),
{
    let p = modulus() as int;
    if x == 0 {
        assert(fneg(0) == 0) by {
            vstd::arithmetic::div_mod::lemma_mod_self_0(p);
        }
    } else {
        let y = p - x;
        assert(fneg(x) == y) by {
            vstd::arithmetic::div_mod::lemma_small_mod(y as nat, p as nat);
        }
        assert(y * y == p * (p - 2 * x) + x * x) by (nonlinear_arith)
            requires y == p - x;
        lemma_mod_multiples_vanish(p - 2 * x, (x * x) as int, p);
    }
}

/// If `c * c = s` and `w * c = 1` in the field, then `w * w * s = 1`: the
/// inverse of a square root of `s` squares to the inverse of `s`.
pub proof fn lemma_inverse_root_square(c: nat, w: nat, s: nat)
    requires
        fmul(c, c) == s,
        fmul(c, w) == 1,
    ensures
        fmul(fmul(w, w), s) == 1,
{
    let p = modulus() as int;
    lemma_mul_mod_noop_general((w * w) as int, (c * c) as int, p);
    assert((w * w) * (c * c) == (c * w) * (c * w)) by (nonlinear_arith);
    lemma_mul_mod_noop_general((c * w) as int, (c * w) as int, p);
}

impl Context {
    /// What finishing the random bits does, from this state to `post` with
    /// the actions `actions` (see `verify_rand_bit_reconstruction`).
    pub open spec fn rand_bit_step(self, post: Context, actions: Seq<Action>) -> bool {
        let m = self.mix_circuit_state;
        if m.rand_bit_inverse_recon_values@.len() == 0 || m.rand_bit_inp_shares@.len() == 0 || m.rand_bit_sharings@.len() != 0 {
            actions.len() == 0 && post == self
        } else {
            &&& vals(post.mix_circuit_state.rand_bit_sharings@) == products(
                vals(m.rand_bit_inp_shares@),
                vals(m.rand_bit_inverse_recon_values@),
            )
            &&& all_canonical(post.mix_circuit_state.rand_bit_sharings@)
            &&& actions == seq![Action::Terminate("Preprocessing"), Action::InitMixing]
            &&& post == (Context {
                mix_circuit_state: MixCircuitState {
                    rand_bit_sharings: post.mix_circuit_state.rand_bit_sharings,
                    ..self.mix_circuit_state
                },
                ..self
            })
        }
    }

    /// Once the inverse roots are reconstructed and the random bit inputs are
    /// shared, and the bits are not made yet: each bit sharing is the product
    /// of an input sharing with the matching inverse root; the preprocessing
    /// then terminates and the mixing circuit starts.
    pub fn verify_rand_bit_reconstruction(&mut self) -> (actions: Vec<Action>)
        ensures
            old(self).rand_bit_step(*final(self), actions@),
    {
        let mut actions: Vec<Action> = Vec::new();
        if self.mix_circuit_state.rand_bit_inverse_recon_values.len() == 0 {
            return actions;
        }
        if self.mix_circuit_state.rand_bit_inp_shares.len() == 0 {
            return actions;
        }
        if self.mix_circuit_state.rand_bit_sharings.len() != 0 {
            return actions;
        }
        let inputs = &self.mix_circuit_state.rand_bit_inp_shares;
        let recon = &self.mix_circuit_state.rand_bit_inverse_recon_values;
        let len = if inputs.len() <= recon.len() { inputs.len() } else { recon.len() };
        let mut bits: Vec<LargeField> = Vec::new();
        for i in 0..len
            invariant
                len <= inputs@.len(),
                len <= recon@.len(),
                bits@.len() == i,
                forall|j: int| 0 <= j < i ==> (#[trigger] bits@[j]).val() == fmul(inputs@[j].val(), recon@[j].val()),
                all_canonical(bits@),
        {
            bits.push(inputs[i].mul(&recon[i]));
        }
        proof {
            assert(vals(bits@) =~= products(vals(inputs@), vals(recon@)));
        }
        let ghost made = bits@;
        self.mix_circuit_state.rand_bit_sharings.append(&mut bits);
        proof {
            assert(self.mix_circuit_state.rand_bit_sharings@ =~= old(self).mix_circuit_state.rand_bit_sharings@ + made);
        }
        actions.push(Action::Terminate("Preprocessing"));
        actions.push(Action::InitMixing);
        proof {
            assert(actions@ =~= seq![Action::Terminate("Preprocessing"), Action::InitMixing]);
        }
        actions
    }
}


/// Serializes each element.
fn ser_all(v: &Vec<LargeField>) -> (r: Vec<LargeFieldSer>)
    ensures
        serializes(r@, v@),
{
    let mut r: Vec<LargeFieldSer> = Vec::new();
    for i in 0..v.len()
        invariant
            serializes(r@, v@.take(i as int)),
    {
        r.push(v[i].to_bytes_be());
    }
    proof {
        assert(v@.take(v@.len() as int) =~= v@);
    }
    r
}

impl Context {
    /// Once this party holds its own shares of the values to reconstruct and
    /// the bits are not made yet, broadcasts those shares and tries to finish
    /// the random bits.
    pub fn init_rand_bit_reconstruction(&mut self) -> (actions: Vec<Action>)
        ensures
            (old(self).mix_circuit_state.rand_bit_sharings@.len() != 0
                || !old(self).mix_circuit_state.rand_bit_recon_shares@.contains_key(old(self).myid)) ==> actions@.len() == 0
                && *final(self) == *old(self),
            (old(self).mix_circuit_state.rand_bit_sharings@.len() == 0
                && old(self).mix_circuit_state.rand_bit_recon_shares@.contains_key(old(self).myid)) ==> {
                &&& actions@.len() >= 1
                &&& actions@[0] matches Action::Broadcast(ProtMsg::ReconstructRandBitShares(b))
                    && serializes(b@, old(self).mix_circuit_state.rand_bit_recon_shares@[old(self).myid]@)
                &&& old(self).rand_bit_step(*final(self), actions@.skip(1))
            },
    {
        if self.mix_circuit_state.rand_bit_sharings.len() != 0 {
            return Vec::new();
        }
        if !self.mix_circuit_state.rand_bit_recon_shares.contains_key(&self.myid) {
            return Vec::new();
        }
        let my_shares = self.mix_circuit_state.rand_bit_recon_shares.get(&self.myid).unwrap();
        let my_shares_ser = ser_all(my_shares);
        let mut actions: Vec<Action> = Vec::new();
        actions.push(Action::Broadcast(ProtMsg::ReconstructRandBitShares(my_shares_ser)));
        let mut rest = self.verify_rand_bit_reconstruction();
        let ghost rest_v = rest@;
        actions.append(&mut rest);
        proof {
            assert(actions@.skip(1) =~= rest_v);
        }
        actions
    }

    /// What receiving `shares` from `share_sender` does to the map `m` of
    /// shares of the values to reconstruct: the sender's shares become `shares`, deserialized.
    pub open spec fn records_shares(
        m: Map<Replica, Vec<LargeField>>,
        post_m: Map<Replica, Vec<LargeField>>,
        share_sender: Replica,
        shares: Seq<LargeFieldSer>,
    ) -> bool {
        &&& post_m.contains_key(share_sender)
        &&& post_m == m.insert(share_sender, post_m[share_sender])
        &&& vals(post_m[share_sender]@) == deser_vals(shares)
    }

    /// The values of the shares of the squares, by sender, once
    /// `share_sender`'s `shares` are recorded.
    pub open spec fn rand_bit_shares_after(self, shares: Seq<LargeFieldSer>, share_sender: Replica) -> Map<Replica, Seq<nat>> {
        val_map(self.mix_circuit_state.rand_bit_recon_shares@).insert(share_sender, deser_vals(shares))
    }

    /// Once `share_sender`'s `shares` are recorded: where `t + 1` senders
    /// have sent and the squares can be reconstructed, every reconstructed
    /// square has a root, and its chosen root (see `chosen_root`) is not zero.
    pub open spec fn rand_bit_roots_exist(self, shares: Seq<LargeFieldSer>, share_sender: Replica) -> bool {
        let vm = self.rand_bit_shares_after(shares, share_sender);
        vm.len() == self.num_faults + 1 && !self.recon_fails(vm, shares.len())
            ==> root_inverses_ok(self.reconstructed(vm, shares.len()), self.field_div_2.val())
    }

    /// What recording `share_sender`'s `shares` of the squares does, from this
    /// state to `post` with result `r` (see `handle_reconstruct_rand_bits`).
    pub open spec fn rand_bits_step(
        self,
        shares: Seq<LargeFieldSer>,
        share_sender: Replica,
        post: Context,
        r: Result<Vec<Action>, ProtocolError>,
    ) -> bool {
        exists|mid: Context| {
            let m = mid.mix_circuit_state.rand_bit_recon_shares@;
            let secrets = mid.reconstructed(val_map(m), shares.len());
            let half = self.field_div_2.val();
            &&& #[trigger] Self::records_shares(self.mix_circuit_state.rand_bit_recon_shares@, mid.mix_circuit_state.rand_bit_recon_shares@, share_sender, shares)
            &&& mid == (Context {
                mix_circuit_state: MixCircuitState {
                    rand_bit_recon_shares: mid.mix_circuit_state.rand_bit_recon_shares,
                    ..self.mix_circuit_state
                },
                ..self
            })
            &&& m.len() != self.num_faults + 1 ==> r is Ok && r->Ok_0@.len() == 0 && post == mid
            &&& m.len() == self.num_faults + 1 ==> {
                &&& r is Err <==> mid.recon_fails(val_map(m), shares.len())
                &&& r is Err ==> post == mid
                &&& r is Ok ==> forall|i: int| 0 <= i < secrets.len() ==> fmul(
                    fmul(#[trigger] root_inverses(secrets, half)[i], root_inverses(secrets, half)[i]),
                    secrets[i],
                ) == 1
                &&& r is Ok ==> exists|mid2: Context| {
                    &&& vals(mid2.mix_circuit_state.rand_bit_inverse_recon_values@) == vals(
                        self.mix_circuit_state.rand_bit_inverse_recon_values@,
                    ) + root_inverses(secrets, half)
                    &&& extends_canonically(mid2.mix_circuit_state.rand_bit_inverse_recon_values@, self.mix_circuit_state.rand_bit_inverse_recon_values@)
                    &&& mid2 == (Context {
                        mix_circuit_state: MixCircuitState {
                            rand_bit_inverse_recon_values: mid2.mix_circuit_state.rand_bit_inverse_recon_values,
                            ..mid.mix_circuit_state
                        },
                        ..mid
                    })
                    &&& #[trigger] mid2.rand_bit_step(post, r->Ok_0@)
                }
            }
        }
    }

    /// Records `share_sender`'s shares of the squares whose roots make the
    /// random bits. At `t + 1` senders the `shares.len()` squares are
    /// reconstructed (see `reconstructed`), and for each the inverse of its
    /// chosen root (see `chosen_root`) is appended to the inverse roots; then
    /// the random bits are finished where they can be. `Err` where
    /// reconstruction fails. A square without a root, or whose chosen root
    /// is zero, is ruled out by `requires` (see
    /// `handle_reconstruct_rand_bits_checked` for a call that tests it).
    pub fn handle_reconstruct_rand_bits(&mut self, shares: Vec<LargeFieldSer>, share_sender: Replica) -> (r: Result<Vec<Action>, ProtocolError>)
        requires
            old(self).wf(),
            old(self).rand_bit_roots_exist(shares@, share_sender),
        ensures
            old(self).rand_bits_step(shares@, share_sender, *final(self), r),
    {
        let shares_len = shares.len();
        let shares_deser = deser_all(&shares);
        self.mix_circuit_state.rand_bit_recon_shares.insert(share_sender, shares_deser);
        let ghost mid = *self;
        proof {
            assert(self.mix_circuit_state.rand_bit_recon_shares@ =~= old(self).mix_circuit_state.rand_bit_recon_shares@.insert(
                share_sender,
                self.mix_circuit_state.rand_bit_recon_shares@[share_sender],
            ));
            assert(Self::records_shares(old(self).mix_circuit_state.rand_bit_recon_shares@, mid.mix_circuit_state.rand_bit_recon_shares@, share_sender, shares@));
        }
        if self.mix_circuit_state.rand_bit_recon_shares.len() != self.num_faults + 1 {
            return Ok(Vec::new());
        }
        proof {
            assert(val_map(mid.mix_circuit_state.rand_bit_recon_shares@) =~= old(self).rand_bit_shares_after(shares@, share_sender));
            assert(val_map(mid.mix_circuit_state.rand_bit_recon_shares@).dom() =~= mid.mix_circuit_state.rand_bit_recon_shares@.dom());
        }
        let secrets = self.reconstruct_secrets(&self.mix_circuit_state.rand_bit_recon_shares, shares_len)?;
        let mut inverses = match inverse_roots(&secrets, &self.field_div_2) {
            Ok(v) => v,
            Err(e) => {
                proof {
                    assert(false);
                }
                return Err(e);
            },
        };
        let ghost added = inverses@;
        proof {
            lemma_extends_by(self.mix_circuit_state.rand_bit_inverse_recon_values@, added);
        }
        self.mix_circuit_state.rand_bit_inverse_recon_values.append(&mut inverses);
        proof {
            assert(vals(self.mix_circuit_state.rand_bit_inverse_recon_values@) =~= vals(old(self).mix_circuit_state.rand_bit_inverse_recon_values@) + vals(added));
        }
        let ghost mid2 = *self;
        let actions = self.verify_rand_bit_reconstruction();
        proof {
            let m = mid.mix_circuit_state.rand_bit_recon_shares@;
            let sec = mid.reconstructed(val_map(m), shares@.len());
            assert(mid2.rand_bit_step(*self, actions@));
            assert(m.len() == old(self).num_faults + 1);
            assert(!mid.recon_fails(val_map(m), shares@.len()));
            assert(root_inverses_ok(sec, old(self).field_div_2.val()));
            assert forall|i: int| 0 <= i < sec.len() implies fmul(
                fmul(#[trigger] root_inverses(sec, old(self).field_div_2.val())[i], root_inverses(sec, old(self).field_div_2.val())[i]),
                sec[i],
            ) == 1 by {
                assert(vals(added)[i] == added[i].val());
            }
            assert(vals(mid2.mix_circuit_state.rand_bit_inverse_recon_values@) == vals(
                            old(self).mix_circuit_state.rand_bit_inverse_recon_values@,
                        ) + root_inverses(sec, old(self).field_div_2.val()));
            assert(mid2 == (Context {
                            mix_circuit_state: MixCircuitState {
                                rand_bit_inverse_recon_values: mid2.mix_circuit_state.rand_bit_inverse_recon_values,
                                ..mid.mix_circuit_state
                            },
                            ..mid
                        }));
            let rr: Result<Vec<Action>, ProtocolError> = Ok(actions);
            assert(rr->Ok_0@ == actions@);
            assert(mid2.rand_bit_step(*self, rr->Ok_0@));
            assert(extends_canonically(mid2.mix_circuit_state.rand_bit_inverse_recon_values@, old(self).mix_circuit_state.rand_bit_inverse_recon_values@));
            assert(exists|mid3: Context| {
                        &&& vals(mid3.mix_circuit_state.rand_bit_inverse_recon_values@) == vals(
                            old(self).mix_circuit_state.rand_bit_inverse_recon_values@,
                        ) + root_inverses(sec, old(self).field_div_2.val())
                        &&& extends_canonically(mid3.mix_circuit_state.rand_bit_inverse_recon_values@, old(self).mix_circuit_state.rand_bit_inverse_recon_values@)
                        &&& mid3 == (Context {
                            mix_circuit_state: MixCircuitState {
                                rand_bit_inverse_recon_values: mid3.mix_circuit_state.rand_bit_inverse_recon_values,
                                ..mid.mix_circuit_state
                            },
                            ..mid
                        })
                        &&& #[trigger] mid3.rand_bit_step(*self, rr->Ok_0@)
                    });
        }
        Ok(actions)
    }

    /// Tests, without changing the state, whether recording
    /// `share_sender`'s `shares` would reconstruct a square without a root or
    /// with a zero chosen root; `Err` (`NonSquare` or `ZeroValue`) with the
    /// state unchanged if so, else `handle_reconstruct_rand_bits`.
    pub fn handle_reconstruct_rand_bits_checked(&mut self, shares: Vec<LargeFieldSer>, share_sender: Replica) -> (r: Result<Vec<Action>, ProtocolError>)
        requires
            old(self).wf(),
        ensures
            !old(self).rand_bit_roots_exist(shares@, share_sender) ==> r is Err && *final(self) == *old(self),
            old(self).rand_bit_roots_exist(shares@, share_sender) ==> old(self).rand_bits_step(shares@, share_sender, *final(self), r),
    {
        let shares_len = shares.len();
        let mut probe = self.mix_circuit_state.rand_bit_recon_shares.clone();
        probe.insert(share_sender, deser_all(&shares));
        proof {
            assert(val_map(probe@) =~= self.rand_bit_shares_after(shares@, share_sender));
            assert(val_map(probe@).dom() =~= probe@.dom());
        }
        if probe.len() == self.num_faults + 1 {
            match self.reconstruct_secrets(&probe, shares_len) {
                Ok(secrets) => {
                    match inverse_roots(&secrets, &self.field_div_2) {
                        Err(e) => {
                            return Err(e);
                        },
                        Ok(_) => {},
                    }
                },
                Err(_) => {},
            }
        }
        self.handle_reconstruct_rand_bits(shares, share_sender)
    }

    /// Records `share_sender`'s shares of the values that check the random
    /// bits. At `t + 1` senders the `shares.len()` values are reconstructed
    /// and the first hundred of them reported. `Err` where reconstruction fails.
    pub fn handle_reconstruct_rand_bits_verify(&mut self, shares: Vec<LargeFieldSer>, share_sender: Replica) -> (r: Result<Vec<Action>, ProtocolError>)
        requires
            old(self).wf(),
        ensures
            Self::records_shares(
                old(self).mix_circuit_state.rand_bit_reconstruction@,
                final(self).mix_circuit_state.rand_bit_reconstruction@,
                share_sender,
                shares@,
            ),
            *final(self) == (Context {
                mix_circuit_state: MixCircuitState {
                    rand_bit_reconstruction: final(self).mix_circuit_state.rand_bit_reconstruction,
                    ..old(self).mix_circuit_state
                },
                ..*old(self)
            }),
            ({
                let m = final(self).mix_circuit_state.rand_bit_reconstruction@;
                let secrets = final(self).reconstructed(val_map(m), shares@.len());
                &&& m.len() != old(self).num_faults + 1 ==> r is Ok && r->Ok_0@.len() == 0
                &&& m.len() == old(self).num_faults + 1 ==> {
                    &&& r is Err <==> final(self).recon_fails(val_map(m), shares@.len())
                    &&& r is Ok ==> r->Ok_0@.len() == 1 && r->Ok_0@[0] is ReportRandomBits
                        && vals(r->Ok_0@[0]->ReportRandomBits_0@) == secrets.take(
                            if secrets.len() <= 100 { secrets.len() as int } else { 100 },
                        )
                }
            }),
    {
        let shares_len = shares.len();
        let shares_deser = deser_all(&shares);
        self.mix_circuit_state.rand_bit_reconstruction.insert(share_sender, shares_deser);
        proof {
            assert(self.mix_circuit_state.rand_bit_reconstruction@ =~= old(self).mix_circuit_state.rand_bit_reconstruction@.insert(
                share_sender,
                self.mix_circuit_state.rand_bit_reconstruction@[share_sender],
            ));
        }
        if self.mix_circuit_state.rand_bit_reconstruction.len() != self.num_faults + 1 {
            return Ok(Vec::new());
        }
        let mut secrets = self.reconstruct_secrets(&self.mix_circuit_state.rand_bit_reconstruction, shares_len)?;
        let ghost sv = vals(secrets@);
        secrets.truncate(100);
        proof {
            assert(vals(secrets@) =~= sv.take(if sv.len() <= 100 { sv.len() as int } else { 100 }));
        }
        let mut actions: Vec<Action> = Vec::new();
        actions.push(Action::ReportRandomBits(secrets));
        Ok(actions)
    }
}

} // verus!
