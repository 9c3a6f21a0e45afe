use vstd::prelude::*;
use vstd::arithmetic::div_mod::{lemma_add_mod_noop, lemma_add_mod_noop_right, lemma_mod_twice, lemma_mul_mod_noop_general, lemma_mul_mod_noop_right, lemma_small_mod};
use vstd::arithmetic::mul::lemma_mul_is_distributive_add;
use crate::context::{Action, Context, ProtMsg, ProtocolError, Replica};
use crate::field::{LargeField, LargeFieldSer, be_nat, fadd, fmul, fsub, lagrange_at_zero, modulus, poly_eval, vals};
use crate::rand_mask::{avss_columns, deser_vals, mask_parties, mask_reveal_parties, public_fit, recon_columns, recon_points, unmask};
use crate::groups::{columns, lemma_columns_len};
use crate::context::AvssShare;
use crate::rand_sh::{dot, dot_upto, is_matrix_vector_product, is_vandermonde, lemma_dot_upto_mod, power, vdm_row};

verus! {

/// Adding the mask back to an unmasked value gives the masked value:
/// `(a - b) + b = a` in the field.
pub proof fn law_unmask_then_mask(a: nat, b: nat)
    requires
        a < modulus(),
    ensures
        fadd(fsub(a, b), b) == a,
{
    let p = modulus() as int;
    let bm = (b % modulus()) as int;
    lemma_add_mod_noop(a + p - bm, b as int, p);
    lemma_mod_twice(a + p - bm, p);
    assert((a + p - bm) + b == a + p + (b - bm));
    vstd::arithmetic::div_mod::lemma_fundamental_div_mod(b as int, p);
    assert(b - bm == p * (b as int / p));
    vstd::arithmetic::div_mod::lemma_mod_multiples_vanish(b as int / p + 1, a as int, p);
    assert(a + p + (b - bm) == p * (b as int / p + 1) + a) by (nonlinear_arith)
        requires b - bm == p * (b as int / p);
    lemma_small_mod(a, modulus());
}

/// Serializing an element and reading the bytes back gives the same element.
pub proof fn law_serialization_round_trip(x: LargeField, bytes: LargeFieldSer, y: LargeField)
    requires
        be_nat(bytes@) == x.val(),
        y.val() == be_nat(bytes@) % modulus(),
    ensures
        y.val() == x.val(),
{
    lemma_small_mod(x.val(), modulus());
}

/// Once the random sharings exist, further shares of any instance change
/// nothing and start nothing.
pub proof fn law_shares_ignored_once_combined(
    pre: Context,
    sh2t: bool,
    instance: usize,
    sender: Replica,
    shares: Option<Vec<LargeFieldSer>>,
    post: Context,
    r: Result<Vec<Action>, ProtocolError>,
)
    requires
        pre.rand_sharings_state.rand_sharings_mult@.len() > 0,
        pre.term_msg_step(sh2t, instance, sender, shares, post, r),
    ensures
        post == pre,
        r is Ok && r->Ok_0@.len() == 0,
{
}

/// The random sharings are combined at most once: with sharings present, the
/// combining step changes nothing.
pub proof fn law_combined_at_most_once(pre: Context, post: Context, r: Result<Vec<Action>, ProtocolError>)
    requires
        pre.rand_sharings_state.rand_sharings_mult@.len() > 0,
        pre.combine_step(post, r),
    ensures
        post == pre,
        r is Ok && r->Ok_0@.len() == 0,
{
}

/// Combining keeps every multiplication sharing: the ones kept and the coin
/// sharings together are all of them, and the coins are the last
/// `total_sharings_for_coins`.
pub proof fn law_coins_split_off(pre: Context, post: Context, r: Result<Vec<Action>, ProtocolError>)
    requires
        pre.ready_to_combine(),
        pre.combine_fits(),
        pre.inputs_complete(),
        pre.rand_sharings_state.rand_sharings_coin@.len() == 0,
        pre.combine_step(post, r),
        r is Ok,
    ensures
        vals(post.rand_sharings_state.rand_sharings_mult@) + vals(post.rand_sharings_state.rand_sharings_coin@) == pre.mult_rand_sharings(),
        post.rand_sharings_state.rand_sharings_coin@.len() == pre.total_sharings_for_coins,
{
    let mult = pre.mult_rand_sharings();
    let cut = mult.len() - pre.total_sharings_for_coins;
    assert(vals(pre.rand_sharings_state.rand_sharings_coin@) =~= Seq::<nat>::empty());
    assert(mult.take(cut) + mult.skip(cut) =~= mult);
    assert(vals(post.rand_sharings_state.rand_sharings_coin@) =~= mult.skip(cut));
}

/// The random bits are made at most once: with bits present, finishing them
/// changes nothing.
pub proof fn law_bits_made_at_most_once(pre: Context, post: Context, actions: Seq<Action>)
    requires
        pre.mix_circuit_state.rand_bit_sharings@.len() > 0,
        pre.rand_bit_step(post, actions),
    ensures
        post == pre,
        actions.len() == 0,
{
}

/// A successful combining step keeps the configuration, so a well-formed
/// state stays well-formed.
pub proof fn law_combine_keeps_config(pre: Context, post: Context, r: Result<Vec<Action>, ProtocolError>)
    requires
        pre.combine_step(post, r),
        r is Ok,
    ensures
        post.same_config(pre),
        pre.wf() ==> post.wf(),
{
}

/// A successful step on the shares of one instance keeps the configuration,
/// so a well-formed state stays well-formed.
pub proof fn law_term_msg_keeps_config(
    pre: Context,
    sh2t: bool,
    instance: usize,
    sender: Replica,
    shares: Option<Vec<LargeFieldSer>>,
    post: Context,
    r: Result<Vec<Action>, ProtocolError>,
)
    requires
        pre.term_msg_step(sh2t, instance, sender, shares, post, r),
        r is Ok,
    ensures
        post.same_config(pre),
        pre.wf() ==> post.wf(),
{
    if shares is Some && pre.rand_sharings_state.rand_sharings_mult@.len() == 0 {
        let mid = choose|mid: Context| {
            let m = if sh2t { mid.rand_sharings_state.sh2t_shares@ } else { mid.rand_sharings_state.shares@ };
            let old_m = if sh2t { pre.rand_sharings_state.sh2t_shares@ } else { pre.rand_sharings_state.shares@ };
            &&& m.contains_key(sender)
            &&& m == old_m.insert(sender, m[sender])
            &&& m[sender]@.contains_key(instance)
            &&& m[sender]@ == Context::batches_of(old_m, sender).insert(instance, m[sender]@[instance])
            &&& vals(m[sender]@[instance]@) == crate::rand_mask::deser_vals(shares->0@)
            &&& mid == (Context {
                rand_sharings_state: crate::context::RandSharingsState {
                    shares: mid.rand_sharings_state.shares,
                    sh2t_shares: mid.rand_sharings_state.sh2t_shares,
                    ..pre.rand_sharings_state
                },
                ..pre
            })
            &&& (if sh2t { mid.rand_sharings_state.shares == pre.rand_sharings_state.shares } else { mid.rand_sharings_state.sh2t_shares == pre.rand_sharings_state.sh2t_shares })
            &&& #[trigger] mid.sender_step(sender, post, r)
        };
        if mid.sender_complete(sender) {
            let (mid2, r2) = choose|mid2: Context, r2: Result<Vec<Action>, ProtocolError>| {
                &&& mid2.rand_sharings_state.acss_completed_parties@ == mid.rand_sharings_state.acss_completed_parties@.insert(sender)
                &&& mid2 == (Context {
                    rand_sharings_state: crate::context::RandSharingsState {
                        acss_completed_parties: mid2.rand_sharings_state.acss_completed_parties,
                        ..mid.rand_sharings_state
                    },
                    ..mid
                })
                &&& #[trigger] mid2.combine_step(post, r2)
                &&& r is Err <==> r2 is Err
                &&& r is Ok ==> r->Ok_0@ == seq![Action::AcsEvent(1, sender)] + r2->Ok_0@
            };
            law_combine_keeps_config(mid2, post, r2);
        }
    }
}

/// A random bit squares to one: where `w` is an inverse square root of
/// `s = r * r` (as `square_root_inverse` returns), the value `r * w` that
/// multiplying `r` by `w` makes satisfies `(r * w)^2 = 1`.
pub proof fn law_rand_bit_squares_to_one(r: nat, w: nat, s: nat)
    requires
        fmul(r, r) == s,
        fmul(fmul(w, w), s) == 1,
    ensures
        fmul(fmul(r, w), fmul(r, w)) == 1,
{
    let p = modulus() as int;
    lemma_mul_mod_noop_general((r * w) as int, (r * w) as int, p);
    lemma_mul_mod_noop_general((w * w) as int, (r * r) as int, p);
    assert((r * w) * (r * w) == (w * w) * (r * r)) by (nonlinear_arith);
}

/// A refused combining step changes nothing: where combining the sharings
/// fails, the state is the one before the step.
pub proof fn law_refused_combine_changes_nothing(pre: Context, post: Context, r: Result<Vec<Action>, ProtocolError>)
    requires
        pre.combine_step(post, r),
        r is Err,
    ensures
        post == pre,
{
}

/// Summing `x^j * c[j]` over `j < k`, for `k >= 1`, is `c[0]` plus `x` times
/// the same sum over the coefficients after the first.
proof fn lemma_power_sum_shift(c: Seq<nat>, x: nat, k: nat, cols: nat)
    requires
        1 <= k <= c.len(),
        k <= cols,
    ensures
        dot_upto(vdm_row(x, cols), c, k) == c[0] + x * dot_upto(vdm_row(x, cols), c.skip(1), (k - 1) as nat),
    decreases k,
{
    let pw = vdm_row(x, cols);
    if k == 1 {
        assert(pw[0] == power(x, 0));
        assert(dot_upto(pw, c, 1) == dot_upto(pw, c, 0) + pw[0] * c[0]);
        assert(dot_upto(pw, c, 1) == c[0]);
        let z = dot_upto(pw, c.skip(1), 0);
        assert(z == 0);
        assert(x * z == 0) by (nonlinear_arith)
            requires z == 0;
    } else {
        lemma_power_sum_shift(c, x, (k - 1) as nat, cols);
        let d = dot_upto(pw, c.skip(1), (k - 2) as nat);
        let a = power(x, (k - 2) as nat);
        let b = c.skip(1)[k - 2];
        assert(pw[k - 1] == power(x, (k - 1) as nat));
        assert(pw[k - 1] == x * a);
        assert(pw[k - 2] == a);
        assert(c[k - 1] == b);
        assert(dot_upto(pw, c, k) == dot_upto(pw, c, (k - 1) as nat) + pw[k - 1] * c[k - 1]);
        assert(dot_upto(pw, c.skip(1), (k - 1) as nat) == d + pw[k - 2] * b);
        assert(x * (d + a * b) == x * d + (x * a) * b) by (nonlinear_arith);
        assert(dot_upto(pw, c, (k - 1) as nat) == c[0] + x * d);
        assert(dot_upto(pw, c, k) == c[0] + x * d + (x * a) * b);
    }
}

/// The value of the polynomial with coefficients `c` at `x` is the sum of
/// `x^j * c[j]`, modulo the prime.
proof fn lemma_poly_eval_power_sum(c: Seq<nat>, x: nat)
    ensures
        poly_eval(c, x) == dot_upto(vdm_row(x, c.len()), c, c.len()) % modulus(),
    decreases c.len(),
{
    if c.len() > 0 {
        let p = modulus() as int;
        let rest = c.skip(1);
        lemma_poly_eval_power_sum(rest, x);
        lemma_power_sum_shift(c, x, c.len(), c.len());
        let s1 = dot_upto(vdm_row(x, rest.len()), rest, rest.len());
        let s2 = dot_upto(vdm_row(x, c.len()), rest, rest.len());
        assert(s1 == s2) by {
            lemma_dot_upto_prefix_rows(vdm_row(x, rest.len()), vdm_row(x, c.len()), rest, rest.len());
        }
        lemma_mul_mod_noop_right(x as int, s1 as int, p);
        lemma_add_mod_noop_right(c[0] as int, (x * s1) as int, p);
    }
}

/// Two rows that agree on the first `k` entries give the same sum.
proof fn lemma_dot_upto_prefix_rows(r1: Seq<nat>, r2: Seq<nat>, v: Seq<nat>, k: nat)
    requires
        k <= r1.len(),
        k <= r2.len(),
        forall|j: int| 0 <= j < k ==> r1[j] == r2[j],
    ensures
        dot_upto(r1, v, k) == dot_upto(r2, v, k),
    decreases k,
{
    if k > 0 {
        lemma_dot_upto_prefix_rows(r1, r2, v, (k - 1) as nat);
    }
}

/// A Vandermonde matrix times a vector of coefficients evaluates the
/// polynomial with those coefficients (lowest degree first) at each point:
/// where `m` is the Vandermonde matrix of `xs` with `c.len()` columns (as
/// `vandermonde_matrix` builds it) and `out` is `m` times `c` (as
/// `matrix_vector_multiply` computes it), `out[i]` is the value at `xs[i]`
/// of the polynomial with coefficients `c`.
pub proof fn law_vandermonde_evaluates_polynomial(m: Seq<Vec<LargeField>>, xs: Seq<nat>, c: Seq<nat>, out: Seq<LargeField>)
    requires
        is_vandermonde(m, xs, c.len()),
        is_matrix_vector_product(out, m, c),
    ensures
        out.len() == xs.len(),
        forall|i: int| 0 <= i < xs.len() ==> (#[trigger] out[i]).val() == poly_eval(c, xs[i]),
{
    assert forall|i: int| 0 <= i < xs.len() implies (#[trigger] out[i]).val() == poly_eval(c, xs[i]) by {
        let a = vals(m[i]@);
        let pw = vdm_row(xs[i], c.len());
        assert(a.len() == c.len());
        assert forall|j: int| 0 <= j < c.len() implies a[j] == pw[j] % modulus() by {
            assert(m[i]@[j].val() == power(xs[i], j as nat) % modulus());
        }
        lemma_dot_upto_mod(a, pw, c, c.len());
        lemma_poly_eval_power_sum(c, xs[i]);
    }
}

/// Replacing each entry of the vector by a value equal to the sum of two
/// entries modulo the prime adds the two sums, modulo the prime.
proof fn lemma_dot_upto_add(r: Seq<nat>, a: Seq<nat>, b: Seq<nat>, s: Seq<nat>, k: nat)
    requires
        forall|j: int| 0 <= j < k ==> s[j] == fadd(a[j], b[j]),
    ensures
        dot_upto(r, s, k) % modulus() == (dot_upto(r, a, k) + dot_upto(r, b, k)) % modulus(),
    decreases k,
{
    if k > 0 {
        let p = modulus() as int;
        let j = k - 1;
        lemma_dot_upto_add(r, a, b, s, j as nat);
        let ds = dot_upto(r, s, j as nat) as int;
        let da = dot_upto(r, a, j as nat) as int;
        let db = dot_upto(r, b, j as nat) as int;
        let rj = r[j] as int;
        let sum = (a[j] + b[j]) as int;
        lemma_add_mod_noop(ds, rj * s[j], p);
        lemma_mul_mod_noop_right(rj, sum, p);
        lemma_add_mod_noop(da + db, rj * sum, p);
        lemma_mul_is_distributive_add(rj, a[j] as int, b[j] as int);
        assert(da + db + rj * sum == (da + rj * a[j]) + (db + rj * b[j]));
    }
}

/// Replacing each entry of the vector by `c` times it, modulo the prime,
/// multiplies the sum by `c`, modulo the prime.
proof fn lemma_dot_upto_scale(r: Seq<nat>, a: Seq<nat>, c: nat, s: Seq<nat>, k: nat)
    requires
        forall|j: int| 0 <= j < k ==> s[j] == fmul(c, a[j]),
    ensures
        dot_upto(r, s, k) % modulus() == (c * dot_upto(r, a, k)) % modulus(),
    decreases k,
{
    if k > 0 {
        let p = modulus() as int;
        let j = k - 1;
        lemma_dot_upto_scale(r, a, c, s, j as nat);
        let ds = dot_upto(r, s, j as nat) as int;
        let da = dot_upto(r, a, j as nat) as int;
        let rj = r[j] as int;
        let ca = (c * a[j]) as int;
        assert(dot_upto(r, s, k) == ds + rj * s[j]);
        assert(dot_upto(r, a, k) == da + rj * a[j]);
        assert(s[j] == ca % p);
        lemma_add_mod_noop(ds, rj * s[j], p);
        lemma_mul_mod_noop_right(rj, ca, p);
        lemma_add_mod_noop(c * da, rj * ca, p);
        assert((ds + rj * s[j]) % p == ((c * da) % p + (rj * ca) % p) % p);
        assert(c * da + rj * ca == c * (da + rj * a[j])) by (nonlinear_arith)
            requires ca == c * a[j];
        assert(ds % p == (c * da) % p);
        assert((ds + rj * s[j]) % p == (c * (da + rj * a[j])) % p);
    } else {
        let z = dot_upto(r, a, 0);
        assert(c * z == 0) by (nonlinear_arith)
            requires z == 0;
    }
}

/// Multiplying a matrix with vectors is additive: with `s[k] = a[k] + b[k]`
/// in the field, the product with `s` is the sum of the products with `a`
/// and `b` (linear combinations of shares are shares of the combination).
pub proof fn law_matrix_vector_multiply_additive(
    m: Seq<Vec<LargeField>>,
    a: Seq<nat>,
    b: Seq<nat>,
    oa: Seq<LargeField>,
    ob: Seq<LargeField>,
    os: Seq<LargeField>,
)
    requires
        a.len() == b.len(),
        is_matrix_vector_product(oa, m, a),
        is_matrix_vector_product(ob, m, b),
        is_matrix_vector_product(os, m, Seq::new(a.len(), |k: int| fadd(a[k], b[k]))),
    ensures
        forall|i: int| 0 <= i < m.len() ==> (#[trigger] os[i]).val() == fadd(oa[i].val(), ob[i].val()),
{
    let s = Seq::new(a.len(), |k: int| fadd(a[k], b[k]));
    let p = modulus() as int;
    assert forall|i: int| 0 <= i < m.len() implies (#[trigger] os[i]).val() == fadd(oa[i].val(), ob[i].val()) by {
        let r = vals(m[i]@);
        let k = if r.len() <= a.len() { r.len() } else { a.len() };
        lemma_dot_upto_add(r, a, b, s, k);
        lemma_add_mod_noop(dot_upto(r, a, k) as int, dot_upto(r, b, k) as int, p);
    }
}

/// Multiplying a matrix with vectors is homogeneous: the product with `c`
/// times `a` (in the field) is `c` times the product with `a`.
pub proof fn law_matrix_vector_multiply_scales(m: Seq<Vec<LargeField>>, c: nat, a: Seq<nat>, oa: Seq<LargeField>, oc: Seq<LargeField>)
    requires
        is_matrix_vector_product(oa, m, a),
        is_matrix_vector_product(oc, m, Seq::new(a.len(), |k: int| fmul(c, a[k]))),
    ensures
        forall|i: int| 0 <= i < m.len() ==> (#[trigger] oc[i]).val() == fmul(c, oa[i].val()),
{
    let s = Seq::new(a.len(), |k: int| fmul(c, a[k]));
    let p = modulus() as int;
    assert forall|i: int| 0 <= i < m.len() implies (#[trigger] oc[i]).val() == fmul(c, oa[i].val()) by {
        let r = vals(m[i]@);
        let k = if r.len() <= a.len() { r.len() } else { a.len() };
        lemma_dot_upto_scale(r, a, c, s, k);
        lemma_mul_mod_noop_right(c as int, dot_upto(r, a, k) as int, p);
    }
}

/// Removing a mask that was added gives back the value: `(a + b) - b = a`
/// in the field.
pub proof fn law_mask_then_unmask(a: nat, b: nat)
    requires
        a < modulus(),
    ensures
        fsub(fadd(a, b), b) == a,
{
    let p = modulus() as int;
    let ab = (a + b) as int;
    let bi = b as int;
    let u = fadd(a, b) as int;
    let v = (b % modulus()) as int;
    vstd::arithmetic::div_mod::lemma_fundamental_div_mod(ab, p);
    vstd::arithmetic::div_mod::lemma_fundamental_div_mod(bi, p);
    lemma_small_mod(u as nat, modulus());
    let k = 1 + bi / p - ab / p;
    assert(u + p - v == p * k + a) by (nonlinear_arith)
        requires
            ab == a + b,
            ab == p * (ab / p) + u,
            bi == b,
            bi == p * (bi / p) + v,
            k == 1 + bi / p - ab / p;
    vstd::arithmetic::div_mod::lemma_mod_multiples_vanish(k, a as int, p);
    lemma_small_mod(a, modulus());
}

/// The masks are made and removed with the same parties in the same order:
/// the contributions that make the mask shares (`avss_columns`) are those of
/// the parties of `mask_parties`, in that order, which is the order in which
/// the termination check combines the public outputs.
pub proof fn law_masks_made_in_unmasking_order(avss: Map<Replica, AvssShare>, acs: Set<Replica>, parties: nat)
    ensures
        avss_columns(avss, acs, parties) == mask_parties(acs, parties).map_values(|q: Replica| deser_vals(avss[q].0@)),
    decreases parties,
{
    if parties > 0 {
        let p = (parties - 1) as nat;
        law_masks_made_in_unmasking_order(avss, acs, p);
        assert(avss_columns(avss, acs, parties) =~= mask_parties(acs, parties).map_values(|q: Replica| deser_vals(avss[q].0@)));
    }
}

/// Unmasking undoes the masking: once every contribution is reconstructed,
/// where each masked output is an output `y[i]` plus the combined mask
/// `masks[i]`, the termination check reports exactly the outputs `y` (up to
/// the number of masks).
pub proof fn law_unmasking_recovers_outputs(pre: Context, y: Seq<nat>, r: Result<Vec<Action>, ProtocolError>)
    requires
        pre.termination_outcome(r),
        pre.output_mask_state.acs_recon_set@.len() == 0,
        public_fit(
            pre.output_mask_state.public_reconstruction_outputs@,
            mask_parties(pre.rand_sharings_state.acs_output@, pre.num_nodes as nat),
            pre.output_mask_size as nat,
        ),
        pre.mult_state.output_layer.reconstructed_masked_outputs is Some,
        ({
            let mo = pre.mult_state.output_layer.reconstructed_masked_outputs->0@;
            let masks = pre.combined_masks(mask_parties(pre.rand_sharings_state.acs_output@, pre.num_nodes as nat));
            &&& mo.len() == y.len()
            &&& forall|i: int| 0 <= i < y.len() && i < masks.len() ==> (#[trigger] mo[i]).val() == fadd(y[i], masks[i])
        }),
        forall|i: int| 0 <= i < y.len() ==> #[trigger] y[i] < modulus(),
    ensures
        r is Ok,
        r->Ok_0@.len() == 1,
        r->Ok_0@[0] is ReportOutput,
        ({
            let masks = pre.combined_masks(mask_parties(pre.rand_sharings_state.acs_output@, pre.num_nodes as nat));
            vals(r->Ok_0@[0]->ReportOutput_0@) == y.take(if y.len() <= masks.len() { y.len() as int } else { masks.len() as int })
        }),
{
    let mo = pre.mult_state.output_layer.reconstructed_masked_outputs->0@;
    let masks = pre.combined_masks(mask_parties(pre.rand_sharings_state.acs_output@, pre.num_nodes as nat));
    let n = if y.len() <= masks.len() { y.len() as int } else { masks.len() as int };
    let u = unmask(vals(mo), masks);
    assert forall|i: int| 0 <= i < n implies u[i] == y[i] by {
        assert(mo[i].val() == fadd(y[i], masks[i]));
        law_mask_then_unmask(y[i], masks[i]);
    }
    assert(u =~= y.take(n));
}

/// Each random bit pairs an input sharing with the inverse root of the
/// same index: where the bits are made (the inverse roots and the inputs
/// exist, and no bits do yet), bit `i` is input `i` times inverse root `i`,
/// for every `i` below the shorter of the two; so where inverse root `i` is
/// an inverse square root of input `i` squared, bit `i` squares to one.
pub proof fn law_rand_bits_pair_by_index(pre: Context, post: Context, actions: Seq<Action>)
    requires
        pre.rand_bit_step(post, actions),
        pre.mix_circuit_state.rand_bit_inverse_recon_values@.len() > 0,
        pre.mix_circuit_state.rand_bit_inp_shares@.len() > 0,
        pre.mix_circuit_state.rand_bit_sharings@.len() == 0,
    ensures
        ({
            let inp = pre.mix_circuit_state.rand_bit_inp_shares@;
            let w = pre.mix_circuit_state.rand_bit_inverse_recon_values@;
            let bits = post.mix_circuit_state.rand_bit_sharings@;
            &&& bits.len() == (if inp.len() <= w.len() { inp.len() } else { w.len() })
            &&& forall|i: int| 0 <= i < bits.len() ==> (#[trigger] bits[i]).val() == fmul(inp[i].val(), w[i].val())
            &&& forall|i: int| 0 <= i < bits.len() && fmul(fmul(w[i].val(), w[i].val()), fmul(inp[i].val(), inp[i].val())) == 1
                ==> fmul((#[trigger] bits[i]).val(), bits[i].val()) == 1
        }),
{
    let inp = pre.mix_circuit_state.rand_bit_inp_shares@;
    let w = pre.mix_circuit_state.rand_bit_inverse_recon_values@;
    let bits = post.mix_circuit_state.rand_bit_sharings@;
    assert(vals(bits).len() == bits.len());
    assert forall|i: int| 0 <= i < bits.len() implies (#[trigger] bits[i]).val() == fmul(inp[i].val(), w[i].val()) by {
        assert(vals(bits)[i] == bits[i].val());
        assert(vals(inp)[i] == inp[i].val());
        assert(vals(w)[i] == w[i].val());
    }
    assert forall|i: int| 0 <= i < bits.len() && fmul(fmul(w[i].val(), w[i].val()), fmul(inp[i].val(), inp[i].val())) == 1
        implies fmul((#[trigger] bits[i]).val(), bits[i].val()) == 1 by {
        assert(bits[i].val() == fmul(inp[i].val(), w[i].val()));
        law_rand_bit_squares_to_one(inp[i].val(), w[i].val(), fmul(inp[i].val(), inp[i].val()));
    }
}

/// Sharings are combined only once every party of the common subset has
/// completed its sharings: while some party of the subset is not among the
/// completed parties, the combining step returns no actions and changes nothing.
pub proof fn law_combine_waits_for_the_whole_subset(pre: Context, post: Context, r: Result<Vec<Action>, ProtocolError>)
    requires
        pre.combine_step(post, r),
        !pre.rand_sharings_state.acs_output@.subset_of(pre.rand_sharings_state.acss_completed_parties@),
    ensures
        post == pre,
        r is Ok,
        r->Ok_0@.len() == 0,
{
}

/// A sender is recorded complete, and the agreement told, only when it has
/// `3 * tot_batches` degree-t instances, `3 * tot_batches` degree-2t
/// instances, one input sharing per input and its AVSS share; otherwise the
/// check returns no actions and changes nothing.
pub proof fn law_sender_complete_needs_every_sharing(pre: Context, sender: Replica, post: Context, r: Result<Vec<Action>, ProtocolError>)
    requires
        pre.sender_step(sender, post, r),
    ensures
        ({
            let complete = {
                &&& pre.rand_sharings_state.shares@.contains_key(sender)
                &&& pre.rand_sharings_state.sh2t_shares@.contains_key(sender)
                &&& pre.output_mask_state.avss_shares@.contains_key(sender)
                &&& pre.mix_circuit_state.input_acss_shares@.contains_key(sender)
                &&& pre.rand_sharings_state.shares@[sender]@.len() == 3 * pre.tot_batches
                &&& pre.rand_sharings_state.sh2t_shares@[sender]@.len() == 3 * pre.tot_batches
                &&& pre.mix_circuit_state.input_acss_shares@[sender]@.len() == pre.inputs@.len()
            };
            &&& !complete ==> post == pre && r is Ok && r->Ok_0@.len() == 0
            &&& (r is Ok && r->Ok_0@.len() > 0) ==> complete && r->Ok_0@[0] == Action::AcsEvent(1, sender)
            &&& post.rand_sharings_state.acss_completed_parties@.contains(sender)
                && !pre.rand_sharings_state.acss_completed_parties@.contains(sender) ==> complete
        }),
{
    if pre.sender_complete(sender) {
        let (mid, r2) = choose|mid: Context, r2: Result<Vec<Action>, ProtocolError>| {
            &&& mid.rand_sharings_state.acss_completed_parties@ == pre.rand_sharings_state.acss_completed_parties@.insert(sender)
            &&& mid == (Context {
                rand_sharings_state: crate::context::RandSharingsState {
                    acss_completed_parties: mid.rand_sharings_state.acss_completed_parties,
                    ..pre.rand_sharings_state
                },
                ..pre
            })
            &&& #[trigger] mid.combine_step(post, r2)
            &&& r is Err <==> r2 is Err
            &&& r is Ok ==> r->Ok_0@ == seq![Action::AcsEvent(1, sender)] + r2->Ok_0@
        };
        if r is Ok {
            assert(r->Ok_0@[0] == Action::AcsEvent(1, sender));
        }
    }
}

/// The parties whose shares are revealed are exactly those below `parties`
/// in the common subset whose AVSS share is held, each once.
proof fn lemma_mask_reveal_parties_members(avss: Map<Replica, AvssShare>, acs: Set<Replica>, parties: nat)
    requires
        parties <= usize::MAX,
    ensures
        forall|q: Replica| #[trigger] mask_reveal_parties(avss, acs, parties).contains(q)
            <==> (q < parties && acs.contains(q) && avss.contains_key(q)),
        mask_reveal_parties(avss, acs, parties).no_duplicates(),
        forall|i: int| 0 <= i < mask_reveal_parties(avss, acs, parties).len() ==> #[trigger] mask_reveal_parties(avss, acs, parties)[i] < parties,
    decreases parties,
{
    if parties > 0 {
        let p = (parties - 1) as nat;
        lemma_mask_reveal_parties_members(avss, acs, p);
        let prev = mask_reveal_parties(avss, acs, p);
        let cur = mask_reveal_parties(avss, acs, parties);
        if acs.contains(p as usize) && avss.contains_key(p as usize) {
            let pu = p as usize;
            assert(cur == prev.push(pu));
            assert(!prev.contains(pu)) by {
                if prev.contains(pu) {
                    let i = choose|i: int| 0 <= i < prev.len() && prev[i] == pu;
                    assert(prev[i] < p);
                }
            }
            assert forall|q: Replica| #[trigger] cur.contains(q) <==> (q < parties && acs.contains(q) && avss.contains_key(q)) by {
                if q == pu {
                    assert(cur[prev.len() as int] == q);
                } else {
                    if cur.contains(q) {
                        let i = choose|i: int| 0 <= i < cur.len() && cur[i] == q;
                        assert(i < prev.len());
                        assert(prev[i] == q);
                        assert(prev.contains(q));
                    }
                    if prev.contains(q) {
                        let i = choose|i: int| 0 <= i < prev.len() && prev[i] == q;
                        assert(cur[i] == q);
                    }
                }
            }
            assert forall|i: int, j: int| 0 <= i < cur.len() && 0 <= j < cur.len() && i != j implies cur[i] != cur[j] by {
                if i < prev.len() && j < prev.len() {
                    assert(prev[i] != prev[j]);
                } else if i < prev.len() {
                    assert(prev[i] < p);
                } else {
                    assert(prev[j] < p);
                }
            }
        } else {
            assert(cur =~= prev);
        }
    }
}

/// The party whose contribution a revealing broadcast names, if `a` is one.
pub open spec fn revealed_party(a: Action) -> Option<Replica> {
    match a {
        Action::Broadcast(ProtMsg::ReconstructOutputMasks(q, _, _, _)) => Some(q),
        _ => None,
    }
}

/// Revealing the mask shares names exactly the right parties: once the
/// common subset is known, a party `q` is named by a broadcast
/// `ReconstructOutputMasks` if and only if `q` is below `num_nodes`, in the
/// common subset, and this party holds its AVSS share; each is named once,
/// with that share.
pub proof fn law_mask_reveal_names_every_held_share(c: Context, actions: Seq<Action>)
    requires
        c.mask_reveal_outcome(actions),
        c.rand_sharings_state.acs_output@.len() != 0,
    ensures
        forall|q: Replica|
            (q < c.num_nodes && c.rand_sharings_state.acs_output@.contains(q) && c.output_mask_state.avss_shares@.contains_key(q))
                <==> exists|i: int| 0 <= i < actions.len() && #[trigger] revealed_party(actions[i]) == Some(q),
        forall|i: int, j: int| 0 <= i < j < actions.len() ==> #[trigger] revealed_party(actions[i]) != #[trigger] revealed_party(actions[j]),
        forall|i: int| 0 <= i < actions.len() ==> ((#[trigger] actions[i]) matches Action::Broadcast(ProtMsg::ReconstructOutputMasks(q, s0, s1, s2))
            && s0@ == c.output_mask_state.avss_shares@[q].0@ && s1 == c.output_mask_state.avss_shares@[q].1
            && s2 == c.output_mask_state.avss_shares@[q].2),
{
    let avss = c.output_mask_state.avss_shares@;
    let acs = c.rand_sharings_state.acs_output@;
    let ps = mask_reveal_parties(avss, acs, c.num_nodes as nat);
    lemma_mask_reveal_parties_members(avss, acs, c.num_nodes as nat);
    assert forall|i: int| 0 <= i < actions.len() implies #[trigger] revealed_party(actions[i]) == Some(ps[i]) by {}
    assert forall|q: Replica|
        (q < c.num_nodes && acs.contains(q) && avss.contains_key(q))
            <==> exists|i: int| 0 <= i < actions.len() && #[trigger] revealed_party(actions[i]) == Some(q) by {
        if q < c.num_nodes && acs.contains(q) && avss.contains_key(q) {
            assert(ps.contains(q));
            let i = choose|i: int| 0 <= i < ps.len() && ps[i] == q;
            assert(revealed_party(actions[i]) == Some(q));
        }
        if exists|i: int| 0 <= i < actions.len() && #[trigger] revealed_party(actions[i]) == Some(q) {
            let i = choose|i: int| 0 <= i < actions.len() && #[trigger] revealed_party(actions[i]) == Some(q);
            assert(ps[i] == q);
            assert(ps.contains(q));
        }
    }
    assert forall|i: int, j: int| 0 <= i < j < actions.len() implies #[trigger] revealed_party(actions[i]) != #[trigger] revealed_party(actions[j]) by {
        assert(ps[i] != ps[j]);
    }
}

/// The senders below `m` are the first `j` parties of the increasing list
/// `ps` of senders: the reconstruction takes their points and shares in that
/// order, each share with its own sender's point.
proof fn lemma_recon_enumeration(vm: Map<Replica, Seq<nat>>, pts: Seq<LargeField>, m: nat, ps: Seq<Replica>, j: nat)
    requires
        m <= usize::MAX,
        j <= ps.len(),
        forall|a: int, b: int| 0 <= a < b < ps.len() ==> ps[a] < ps[b],
        forall|i: int| 0 <= i < ps.len() ==> vm.contains_key(#[trigger] ps[i]),
        forall|q: Replica| q < m && #[trigger] vm.contains_key(q) ==> ps.contains(q),
        forall|i: int| 0 <= i < j ==> #[trigger] ps[i] < m,
        j < ps.len() ==> ps[j as int] >= m,
    ensures
        recon_points(vm, pts, m) == Seq::new(j, |i: int| pts[ps[i] as int].val()),
        recon_columns(vm, m) == Seq::new(j, |i: int| vm[ps[i]]),
    decreases m,
{
    if m == 0 {
        if j > 0 {
            assert(ps[0] < 0);
        }
        assert(recon_points(vm, pts, m) =~= Seq::new(j, |i: int| pts[ps[i] as int].val()));
        assert(recon_columns(vm, m) =~= Seq::new(j, |i: int| vm[ps[i]]));
    } else {
        let p = (m - 1) as nat;
        let pu = p as usize;
        if vm.contains_key(pu) {
            assert(ps.contains(pu));
            let idx = choose|idx: int| 0 <= idx < ps.len() && ps[idx] == pu;
            if idx >= j {
                if idx > j {
                    assert(ps[j as int] < ps[idx]);
                }
                assert(false);
            }
            if idx < j - 1 {
                assert(ps[idx] < ps[j - 1]);
                assert(ps[j - 1] < m);
                assert(false);
            }
            assert(idx == j - 1);
            assert forall|i: int| 0 <= i < j - 1 implies #[trigger] ps[i] < p by {
                assert(ps[i] < ps[j - 1]);
            }
            assert forall|q: Replica| q < p && #[trigger] vm.contains_key(q) implies ps.contains(q) by {}
            lemma_recon_enumeration(vm, pts, p, ps, (j - 1) as nat);
            assert(recon_points(vm, pts, m) =~= Seq::new(j, |i: int| pts[ps[i] as int].val()));
            assert(recon_columns(vm, m) =~= Seq::new(j, |i: int| vm[ps[i]]));
        } else {
            assert forall|i: int| 0 <= i < j implies #[trigger] ps[i] < p by {
                assert(vm.contains_key(ps[i]));
                assert(ps[i] != pu);
            }
            assert forall|q: Replica| q < p && #[trigger] vm.contains_key(q) implies ps.contains(q) by {}
            lemma_recon_enumeration(vm, pts, p, ps, j);
            assert(recon_points(vm, pts, m) =~= Seq::new(j, |i: int| pts[ps[i] as int].val()));
            assert(recon_columns(vm, m) =~= Seq::new(j, |i: int| vm[ps[i]]));
        }
    }
}

/// Where every column has `size` entries, group `k` of the columns holds the
/// `k`-th entry of each column, in column order.
proof fn lemma_columns_index(cols: Seq<Seq<nat>>, size: nat)
    requires
        forall|j: int| 0 <= j < cols.len() ==> (#[trigger] cols[j]).len() == size,
    ensures
        forall|k: int| 0 <= k < size ==> #[trigger] columns(cols, size)[k] == Seq::new(cols.len(), |j: int| cols[j][k]),
    decreases cols.len(),
{
    lemma_columns_len(cols, size);
    if cols.len() > 0 {
        let prev = cols.drop_last();
        lemma_columns_index(prev, size);
        lemma_columns_len(prev, size);
        assert forall|k: int| 0 <= k < size implies #[trigger] columns(cols, size)[k] == Seq::new(cols.len(), |j: int| cols[j][k]) by {
            assert(columns(prev, size)[k] == Seq::new(prev.len(), |j: int| prev[j][k]));
            assert(columns(cols, size)[k] == columns(prev, size)[k].push(cols.last()[k]));
            assert(columns(cols, size)[k] =~= Seq::new(cols.len(), |j: int| cols[j][k]));
        }
    }
}

/// Reconstruction pairs each share with its own sender's evaluation point:
/// where `ps` lists, in increasing order, the senders below `num_nodes`, each
/// with `size` shares, the `k`-th reconstructed secret is the value at zero of
/// the polynomial through the points `(x_p, share_p[k])`, `x_p` being the
/// evaluation point of sender `p` and `share_p[k]` its `k`-th share.
pub proof fn law_reconstruction_pairs_shares_with_their_points(c: Context, vm: Map<Replica, Seq<nat>>, size: nat, ps: Seq<Replica>)
    requires
        forall|a: int, b: int| 0 <= a < b < ps.len() ==> ps[a] < ps[b],
        forall|i: int| 0 <= i < ps.len() ==> #[trigger] ps[i] < c.num_nodes && vm.contains_key(ps[i]) && vm[ps[i]].len() == size,
        forall|q: Replica| q < c.num_nodes && #[trigger] vm.contains_key(q) ==> ps.contains(q),
    ensures
        c.reconstructed(vm, size).len() == size,
        forall|k: int| 0 <= k < size ==> #[trigger] c.reconstructed(vm, size)[k] == lagrange_at_zero(
            Seq::new(ps.len(), |i: int| c.evaluation_points@[ps[i] as int].val()),
            Seq::new(ps.len(), |i: int| vm[ps[i]][k]),
        ),
{
    let n = c.num_nodes as nat;
    if ps.len() > 0 {
        assert(ps[ps.len() - 1] < c.num_nodes);
    }
    lemma_recon_enumeration(vm, c.evaluation_points@, n, ps, ps.len());
    let cols = recon_columns(vm, n);
    assert forall|j: int| 0 <= j < cols.len() implies (#[trigger] cols[j]).len() == size by {
        assert(cols[j] == vm[ps[j]]);
    }
    lemma_columns_index(cols, size);
    lemma_columns_len(cols, size);
    assert forall|k: int| 0 <= k < size implies #[trigger] c.reconstructed(vm, size)[k] == lagrange_at_zero(
        Seq::new(ps.len(), |i: int| c.evaluation_points@[ps[i] as int].val()),
        Seq::new(ps.len(), |i: int| vm[ps[i]][k]),
    ) by {
        assert(columns(cols, size)[k] =~= Seq::new(ps.len(), |i: int| vm[ps[i]][k]));
    }
}

} // verus!
