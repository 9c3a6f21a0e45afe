use std::collections::{HashMap, HashSet};

use mpc_prep::context::{Action, AvssShare, Context, MixCircuitState, ProtMsg, ProtocolError, RandSharingsState};
use mpc_prep::field::LargeField;
use mpc_prep::mult_state::MultState;
use mpc_prep::rand_mask::RandomOutputMaskStruct;

fn fe(x: u64) -> LargeField {
    LargeField::from_u64(x)
}

fn ser(x: u64) -> [u8; 32] {
    fe(x).to_bytes_be()
}

fn half() -> LargeField {
    let p_minus_one = fe(0).sub(&fe(1));
    p_minus_one.mul(&fe(2).inv().unwrap())
}

/// A party with `n` nodes, threshold `t`, one batch of one sharing, one
/// coin, one output mask and the given inputs.
fn ctx(n: usize, t: usize, inputs: Vec<LargeField>) -> Context {
    Context {
        myid: 0,
        num_nodes: n,
        num_faults: t,
        tot_batches: 1,
        per_batch_maximum: 1,
        total_sharings: 1,
        total_sharings_for_coins: 1,
        output_mask_size: 1,
        input_acss_id_offset: 100,
        inputs,
        evaluation_points: (0..n).map(|i| fe(i as u64 + 1)).collect(),
        field_div_2: half(),
        rand_sharings_state: RandSharingsState {
            shares: HashMap::new(),
            sh2t_shares: HashMap::new(),
            acss_completed_parties: HashSet::new(),
            acs_output: HashSet::new(),
            rand_sharings_inputs: (Vec::new(), Vec::new()),
            rand_sharings_mult: Vec::new(),
            rand_sharings_coin: Vec::new(),
            rand_2t_sharings_mult: Vec::new(),
        },
        mix_circuit_state: MixCircuitState {
            input_acss_shares: HashMap::new(),
            input_sharings: Vec::new(),
            rand_bit_inp_shares: Vec::new(),
            rand_bit_recon_shares: HashMap::new(),
            rand_bit_inverse_recon_values: Vec::new(),
            rand_bit_reconstruction: HashMap::new(),
            rand_bit_sharings: Vec::new(),
        },
        output_mask_state: RandomOutputMaskStruct::new(),
        mult_state: MultState::new(),
    }
}

fn avss(x: u64) -> AvssShare {
    (vec![ser(x)], ser(0), ser(0))
}

fn fes(v: &[u64]) -> Vec<LargeField> {
    v.iter().map(|x| fe(*x)).collect()
}

#[test]
fn vandermonde_matrix_holds_powers() {
    let m = Context::vandermonde_matrix(fes(&[2, 3]), 3);
    assert_eq!(m, vec![fes(&[1, 2, 4]), fes(&[1, 3, 9])]);
    assert_eq!(Context::vandermonde_matrix(fes(&[5]), 0), vec![Vec::<LargeField>::new()]);
    assert!(Context::vandermonde_matrix(Vec::new(), 4).is_empty());
}

#[test]
fn matrix_vector_multiply_pairs_up_to_the_shorter() {
    let m = vec![fes(&[1, 2]), fes(&[3, 4])];
    assert_eq!(Context::matrix_vector_multiply(&m, &fes(&[5, 6])), fes(&[17, 39]));
    assert_eq!(Context::matrix_vector_multiply(&m, &fes(&[5])), fes(&[5, 15]));
    assert_eq!(Context::matrix_vector_multiply(&m, &fes(&[5, 6, 7])), fes(&[17, 39]));
}

fn batches(v: &[(usize, &[u64])]) -> HashMap<usize, Vec<LargeField>> {
    v.iter().map(|(k, xs)| (*k, fes(xs))).collect()
}

#[test]
fn gen_random_sharings_groups_by_share_index() {
    let mut c = ctx(3, 1, Vec::new());
    c.tot_batches = 2;
    c.per_batch_maximum = 2;
    c.rand_sharings_state.acs_output = [0, 2].into_iter().collect();
    c.rand_sharings_state.shares.insert(0, batches(&[(0, &[1, 2]), (1, &[3])]));
    c.rand_sharings_state.shares.insert(1, batches(&[(0, &[50])]));
    c.rand_sharings_state.shares.insert(2, batches(&[(1, &[7, 8])]));
    let g = c.gen_random_sharings(0);
    assert_eq!(g, vec![fes(&[1, 7]), fes(&[2, 8]), fes(&[3]), fes(&[])]);
    c.rand_sharings_state.sh2t_shares.insert(0, batches(&[]));
    c.rand_sharings_state.sh2t_shares.insert(2, batches(&[(0, &[5])]));
    let g2t = c.gen_2t_sharings();
    assert_eq!(g2t[0], fes(&[5]));
    assert_eq!(g2t.len(), 12);
}

#[test]
fn gen_input_sharings_concatenates_or_reports_missing() {
    let mut c = ctx(3, 1, fes(&[1, 1]));
    c.rand_sharings_state.acs_output = [0, 1].into_iter().collect();
    c.mix_circuit_state.input_acss_shares.insert(0, batches(&[(0, &[4]), (1, &[5])]));
    c.mix_circuit_state.input_acss_shares.insert(1, batches(&[(1, &[7]), (0, &[6])]));
    assert_eq!(c.gen_input_sharings(), Some(fes(&[4, 5, 6, 7])));
    c.mix_circuit_state.input_acss_shares.insert(1, batches(&[(0, &[6])]));
    assert_eq!(c.gen_input_sharings(), None);
}

#[test]
fn init_rand_sh_starts_all_instances() {
    let c = ctx(3, 1, fes(&[9]));
    let n = c.random_values_needed();
    assert_eq!(n, 4);
    let randomness = fes(&[11, 12, 13, 14]);
    let actions = c.init_rand_sh_with_randomness(randomness);
    assert_eq!(actions.len(), 8);
    assert_eq!(actions[0], Action::StartAcss(0, vec![ser(11)]));
    assert_eq!(actions[2], Action::StartAcss(2, vec![ser(13)]));
    assert_eq!(actions[3], Action::StartAcss(100, vec![ser(9)]));
    assert_eq!(actions[4], Action::StartSh2t(0, vec![ser(0)]));
    assert_eq!(actions[6], Action::StartSh2t(2, vec![ser(0)]));
    assert_eq!(actions[7], Action::AvssRequest(true, Some(vec![ser(14)]), None));
}

#[test]
fn init_rand_sh_draws_fresh_randomness() {
    let c = ctx(3, 1, fes(&[9]));
    let actions = c.init_rand_sh();
    assert_eq!(actions.len(), 8);
    assert_eq!(actions[3], Action::StartAcss(100, vec![ser(9)]));
    assert_eq!(actions[4], Action::StartSh2t(0, vec![ser(0)]));
    match &actions[0] {
        Action::StartAcss(0, b) => assert_eq!(b.len(), 1),
        other => panic!("unexpected first action {:?}", other),
    }
    match &actions[7] {
        Action::AvssRequest(true, Some(b), None) => assert_eq!(b.len(), 1),
        other => panic!("unexpected last action {:?}", other),
    }
}

/// Feeds parties 0 and 1 every sharing; returns the actions of the last message.
fn complete_sharings(c: &mut Context) -> Vec<Action> {
    let vals: [[u64; 3]; 2] = [[1, 3, 5], [2, 4, 6]];
    let twot: [u64; 2] = [7, 8];
    let mut last = Vec::new();
    for p in 0..2usize {
        c.handle_avss_share_output(p, avss(11 + p as u64));
        c.mix_circuit_state.input_acss_shares.insert(p, batches(&[(0, &[9 + p as u64])]));
        for inst in 0..3usize {
            let r = c.handle_sh2t_term_msg(inst, p, Some(if inst == 0 { vec![ser(twot[p])] } else { vec![] })).unwrap();
            assert!(r.is_empty());
        }
        for inst in 0..3usize {
            last = c.handle_acss_term_msg(inst, p, Some(vec![ser(vals[p][inst])])).unwrap();
        }
    }
    last
}

#[test]
fn sharings_are_combined_once_the_subset_completes() {
    let mut c = ctx(3, 1, fes(&[1]));
    let r = c.handle_acs_output(vec![0, 1]).unwrap();
    assert!(r.is_empty());
    let last = complete_sharings(&mut c);
    assert_eq!(last, vec![Action::AcsEvent(1, 1), Action::InitRandomSharedBitsPreparation]);
    let rs = &c.rand_sharings_state;
    assert_eq!(rs.rand_sharings_inputs.0, fes(&[5, 7]));
    assert_eq!(rs.rand_sharings_inputs.1, fes(&[5, 7]));
    assert_eq!(rs.rand_sharings_mult, fes(&[11, 15, 17]));
    assert_eq!(rs.rand_sharings_coin, fes(&[23]));
    assert_eq!(rs.rand_2t_sharings_mult, fes(&[23, 31, 0, 0, 0, 0]));
    assert!(rs.shares.is_empty());
    assert!(rs.sh2t_shares.is_empty());
    assert_eq!(c.mix_circuit_state.rand_bit_inp_shares, fes(&[5, 7]));
    assert_eq!(c.mix_circuit_state.input_sharings, fes(&[9, 10]));
    let masks: Vec<LargeField> = c.output_mask_state.rand_sharings.iter().cloned().collect();
    assert_eq!(masks, fes(&[35, 47]));
    let expected: HashSet<usize> = [0, 1].into_iter().collect();
    assert_eq!(c.output_mask_state.acs_recon_set, expected);
}

#[test]
fn shares_after_combining_are_ignored() {
    let mut c = ctx(3, 1, fes(&[1]));
    c.handle_acs_output(vec![0, 1]).unwrap();
    complete_sharings(&mut c);
    let before = c.rand_sharings_state.rand_sharings_mult.clone();
    assert!(c.handle_acss_term_msg(0, 2, Some(vec![ser(99)])).unwrap().is_empty());
    assert!(c.handle_sh2t_term_msg(0, 2, Some(vec![ser(99)])).unwrap().is_empty());
    assert!(c.verify_termination().unwrap().is_empty());
    assert!(c.rand_sharings_state.shares.is_empty());
    assert_eq!(c.rand_sharings_state.rand_sharings_mult, before);
}

#[test]
fn aborted_instance_is_ignored() {
    let mut c = ctx(3, 1, Vec::new());
    assert!(c.handle_acss_term_msg(0, 1, None).unwrap().is_empty());
    assert!(c.rand_sharings_state.shares.is_empty());
}

#[test]
fn too_few_sharings_for_the_coins() {
    let mut c = ctx(3, 1, fes(&[1]));
    c.total_sharings_for_coins = 5;
    c.handle_acs_output(vec![0, 1]).unwrap();
    let vals: [u64; 3] = [1, 3, 5];
    for p in 0..2usize {
        c.handle_avss_share_output(p, avss(11));
        c.mix_circuit_state.input_acss_shares.insert(p, batches(&[(0, &[9])]));
        for inst in 0..3usize {
            c.handle_sh2t_term_msg(inst, p, Some(vec![])).unwrap();
        }
        for inst in 0..3usize {
            let r = c.handle_acss_term_msg(inst, p, Some(vec![ser(vals[inst])]));
            if p == 1 && inst == 2 {
                assert_eq!(r, Err(ProtocolError::TooFewSharings));
                // Only the completion of party 1 was recorded.
                assert!(c.rand_sharings_state.rand_sharings_mult.is_empty());
                assert!(c.mix_circuit_state.input_sharings.is_empty());
                assert!(c.rand_sharings_state.acss_completed_parties.contains(&1));
                assert_eq!(c.rand_sharings_state.shares.len(), 2);
            } else {
                assert!(r.is_ok());
            }
        }
    }
}

#[test]
fn missing_avss_share_when_combining() {
    let mut c = ctx(3, 1, Vec::new());
    c.rand_sharings_state.acs_output = [0, 1].into_iter().collect();
    c.rand_sharings_state.acss_completed_parties = [0, 1].into_iter().collect();
    for p in 0..2usize {
        c.rand_sharings_state.shares.insert(p, batches(&[(0, &[1]), (1, &[2]), (2, &[3])]));
        c.rand_sharings_state.sh2t_shares.insert(p, batches(&[(0, &[1])]));
        c.mix_circuit_state.input_acss_shares.insert(p, HashMap::new());
    }
    c.handle_avss_share_output(0, avss(1));
    assert_eq!(c.verify_termination(), Err(ProtocolError::MissingShares(1)));
    // The refused step changed nothing.
    assert!(c.rand_sharings_state.rand_sharings_mult.is_empty());
    assert!(c.rand_sharings_state.rand_sharings_inputs.0.is_empty());
    assert!(c.mix_circuit_state.rand_bit_inp_shares.is_empty());
    assert_eq!(c.rand_sharings_state.shares.len(), 2);
    assert!(c.output_mask_state.acs_recon_set.is_empty());
}

#[test]
fn too_many_shares_when_combining() {
    let mut c = ctx(3, 1, Vec::new());
    c.rand_sharings_state.acs_output = [0].into_iter().collect();
    c.rand_sharings_state.acss_completed_parties = [0].into_iter().collect();
    c.rand_sharings_state.shares.insert(0, batches(&[(0, &[1, 2])]));
    c.rand_sharings_state.sh2t_shares.insert(0, batches(&[]));
    assert_eq!(c.verify_termination(), Err(ProtocolError::TooManyShares(0)));
    c.rand_sharings_state.shares.remove(&0);
    assert_eq!(c.verify_termination(), Err(ProtocolError::MissingShares(0)));
}

#[test]
fn output_masks_are_revealed_and_removed() {
    let mut c = ctx(3, 1, Vec::new());
    c.rand_sharings_state.acs_output = [0, 1].into_iter().collect();
    c.handle_avss_share_output(1, avss(5));
    let acts = c.reconstruct_random_masks();
    assert_eq!(acts, vec![Action::Broadcast(ProtMsg::ReconstructOutputMasks(1, vec![ser(5)], ser(0), ser(0)))]);
    c.output_mask_state.acs_recon_set = [0, 1].into_iter().collect();
    c.mult_state.output_layer.reconstructed_masked_outputs = Some(fes(&[100, 200]));
    let req = c.handle_random_mask_shares(2, 0, vec![ser(1)], ser(0), ser(0));
    assert_eq!(req, vec![Action::AvssRequest(false, None, Some((0, 2, (vec![ser(1)], ser(0), ser(0)))))]);
    assert!(c.handle_random_mask_shares(2, 5, vec![ser(1)], ser(0), ser(0)).is_empty());
    // Each contribution is the constant 1: shares 1 at points 1 and 2.
    for origin in 0..2usize {
        let r = c.handle_avss_share_oracle_output(origin, 0, avss(1)).unwrap();
        assert!(r.is_empty());
        let r = c.handle_avss_share_oracle_output(origin, 1, avss(1)).unwrap();
        if origin == 0 {
            assert!(r.is_empty());
        } else {
            // masks are 1 + 2 * 1 and 1 + 3 * 1.
            assert_eq!(r, vec![Action::ReportOutput(fes(&[97, 196]))]);
        }
        assert_eq!(c.output_mask_state.public_reconstruction_outputs.get(&origin), Some(&fes(&[1])));
    }
    assert!(c.output_mask_state.acs_recon_set.is_empty());
    // A further share of a reconstructed contribution changes nothing.
    assert!(c.handle_avss_share_oracle_output(0, 2, avss(9)).unwrap().is_empty());
    assert_eq!(c.output_mask_state.recon_shares.get(&0).unwrap().len(), 2);
}

#[test]
fn unmask_outputs_in_a_given_order() {
    let mut c = ctx(3, 1, Vec::new());
    c.output_mask_state.public_reconstruction_outputs.insert(0, fes(&[1]));
    c.output_mask_state.public_reconstruction_outputs.insert(1, fes(&[2]));
    c.mult_state.output_layer.reconstructed_masked_outputs = Some(fes(&[100, 200]));
    // masks: 1 + 2 * 2 = 5 and 1 + 3 * 2 = 7
    assert_eq!(c.unmask_outputs(&vec![0, 1]), Ok(vec![Action::ReportOutput(fes(&[95, 193]))]));
    // masks: 2 + 2 * 1 = 4 and 2 + 3 * 1 = 5
    assert_eq!(c.unmask_outputs(&vec![1, 0]), Ok(vec![Action::ReportOutput(fes(&[96, 195]))]));
    assert_eq!(c.unmask_outputs(&vec![0, 2]), Err(ProtocolError::MissingShares(2)));
    c.output_mask_state.public_reconstruction_outputs.insert(2, fes(&[1, 2]));
    assert_eq!(c.unmask_outputs(&vec![2]), Err(ProtocolError::TooManyShares(2)));
    c.mult_state.output_layer.reconstructed_masked_outputs = None;
    assert_eq!(c.unmask_outputs(&vec![0]), Ok(vec![Action::MaskedOutputsMissing]));
}

#[test]
fn mask_reconstruction_fails_on_equal_points() {
    let mut c = ctx(3, 1, Vec::new());
    c.evaluation_points = fes(&[1, 1, 3]);
    c.output_mask_state.acs_recon_set = [0].into_iter().collect();
    c.handle_avss_share_oracle_output(0, 0, avss(1)).unwrap();
    assert_eq!(c.handle_avss_share_oracle_output(0, 1, avss(1)), Err(ProtocolError::Interpolation));
}

#[test]
fn random_bits_from_inverse_roots() {
    let mut c = ctx(3, 1, Vec::new());
    c.mix_circuit_state.rand_bit_inp_shares = fes(&[6]);
    // The secret is 4: shares 4 at points 1 and 2.
    assert!(c.handle_reconstruct_rand_bits(vec![ser(4)], 0).unwrap().is_empty());
    let acts = c.handle_reconstruct_rand_bits(vec![ser(4)], 1).unwrap();
    assert_eq!(acts, vec![Action::Terminate("Preprocessing"), Action::InitMixing]);
    let w = c.mix_circuit_state.rand_bit_inverse_recon_values[0];
    assert_eq!(w.mul(&w).mul(&fe(4)), fe(1));
    let bit = c.mix_circuit_state.rand_bit_sharings[0];
    assert_eq!(bit, fe(6).mul(&w));
    assert_eq!(bit.mul(&bit), fe(9));
    // Bits are made once.
    assert!(c.verify_rand_bit_reconstruction().is_empty());
}

#[test]
fn init_rand_bit_reconstruction_broadcasts_own_shares() {
    let mut c = ctx(3, 1, Vec::new());
    assert!(c.init_rand_bit_reconstruction().is_empty());
    c.mix_circuit_state.rand_bit_recon_shares.insert(0, fes(&[4, 5]));
    let acts = c.init_rand_bit_reconstruction();
    assert_eq!(acts, vec![Action::Broadcast(ProtMsg::ReconstructRandBitShares(vec![ser(4), ser(5)]))]);
}

#[test]
fn random_bit_errors() {
    let mut c = ctx(3, 1, Vec::new());
    c.handle_reconstruct_rand_bits_checked(vec![ser(0)], 0).unwrap();
    assert_eq!(c.handle_reconstruct_rand_bits_checked(vec![ser(0)], 1), Err(ProtocolError::ZeroValue));
    // The refused shares were not recorded.
    assert_eq!(c.mix_circuit_state.rand_bit_recon_shares.len(), 1);
    assert!(c.mix_circuit_state.rand_bit_inverse_recon_values.is_empty());
    let non_square = (2..200u64).find(|x| fe(*x).sqrt().is_none()).unwrap();
    let mut c = ctx(3, 1, Vec::new());
    c.handle_reconstruct_rand_bits_checked(vec![ser(non_square)], 0).unwrap();
    assert_eq!(c.handle_reconstruct_rand_bits_checked(vec![ser(non_square)], 1), Err(ProtocolError::NonSquare));
    assert_eq!(c.mix_circuit_state.rand_bit_recon_shares.len(), 1);
    let mut c = ctx(3, 1, Vec::new());
    c.handle_reconstruct_rand_bits_checked(vec![ser(1), ser(2)], 0).unwrap();
    assert_eq!(c.handle_reconstruct_rand_bits_checked(vec![ser(1)], 1), Err(ProtocolError::TooManyShares(0)));
}

#[test]
fn random_bit_check_reports_at_most_a_hundred() {
    let mut c = ctx(3, 1, Vec::new());
    let shares: Vec<[u8; 32]> = (0..120u64).map(ser).collect();
    assert!(c.handle_reconstruct_rand_bits_verify(shares.clone(), 0).unwrap().is_empty());
    let acts = c.handle_reconstruct_rand_bits_verify(shares, 1).unwrap();
    // Equal shares at points 1 and 2 reconstruct to the share itself.
    assert_eq!(acts, vec![Action::ReportRandomBits((0..100u64).map(fe).collect())]);
}

#[test]
fn depth_state_is_created_once() {
    let mut m = MultState::new();
    {
        let s = m.get_single_depth_state(3, true, 2);
        assert_eq!(s.l1_shares.len(), 2);
        assert_eq!(s.l2_shares.len(), 2);
        assert!(s.two_levels);
        s.padding_shares = 7;
    }
    let s = m.get_single_depth_state(3, false, 5);
    assert_eq!(s.padding_shares, 7);
    assert_eq!(s.l1_shares.len(), 2);
    assert!(s.two_levels);
    assert_eq!(m.depth_share_map.len(), 1);
}

#[test]
fn steps_keep_the_configuration() {
    let mut c = ctx(3, 1, fes(&[1]));
    c.handle_acs_output(vec![0, 1]).unwrap();
    complete_sharings(&mut c);
    assert_eq!(c.num_nodes, 3);
    assert_eq!(c.num_faults, 1);
    assert_eq!(c.tot_batches, 1);
    assert_eq!(c.total_sharings_for_coins, 1);
    assert_eq!(c.inputs, fes(&[1]));
    assert_eq!(c.field_div_2, half());
}

#[test]
fn unmasking_then_masking_gives_the_masked_value() {
    let masked = fe(5);
    let mask = fe(9);
    let out = masked.sub(&mask);
    assert_eq!(out.add(&mask), masked);
}

#[test]
fn random_bit_squares_to_one() {
    // The input value 7 has the square 49; the bit made from it is 1 or -1.
    let mut c = ctx(3, 1, Vec::new());
    c.mix_circuit_state.rand_bit_inp_shares = fes(&[7]);
    c.handle_reconstruct_rand_bits(vec![ser(49)], 0).unwrap();
    c.handle_reconstruct_rand_bits(vec![ser(49)], 1).unwrap();
    let bit = c.mix_circuit_state.rand_bit_sharings[0];
    assert_eq!(bit.mul(&bit), fe(1));
    assert!(bit == fe(1) || bit == fe(0).sub(&fe(1)));
}

#[test]
fn checked_random_bits_agree_with_the_plain_step() {
    let mut c = ctx(3, 1, Vec::new());
    c.mix_circuit_state.rand_bit_inp_shares = fes(&[6]);
    assert!(c.handle_reconstruct_rand_bits_checked(vec![ser(4)], 0).unwrap().is_empty());
    let acts = c.handle_reconstruct_rand_bits_checked(vec![ser(4)], 1).unwrap();
    assert_eq!(acts, vec![Action::Terminate("Preprocessing"), Action::InitMixing]);
    let w = c.mix_circuit_state.rand_bit_inverse_recon_values[0];
    assert_eq!(w.mul(&w).mul(&fe(4)), fe(1));
}

#[test]
fn vandermonde_product_evaluates_the_polynomial() {
    // c = 5 + 2x + 3x^2 at the points 1, 2, 7.
    let xs = fes(&[1, 2, 7]);
    let c = fes(&[5, 2, 3]);
    let m = Context::vandermonde_matrix(xs.clone(), 3);
    let out = Context::matrix_vector_multiply(&m, &c);
    assert_eq!(out, fes(&[10, 21, 166]));
    for (i, x) in xs.iter().enumerate() {
        assert_eq!(out[i], mpc_prep::field::evaluate_polynomial(&c, x));
    }
}

#[test]
fn matrix_vector_multiply_is_linear() {
    let m = Context::vandermonde_matrix(fes(&[2, 3]), 3);
    let a = fes(&[1, 4, 9]);
    let b = vec![fe(0).sub(&fe(1)), fe(5), fe(2)];
    let s: Vec<LargeField> = a.iter().zip(b.iter()).map(|(x, y)| x.add(y)).collect();
    let oa = Context::matrix_vector_multiply(&m, &a);
    let ob = Context::matrix_vector_multiply(&m, &b);
    let os = Context::matrix_vector_multiply(&m, &s);
    for i in 0..2 {
        assert_eq!(os[i], oa[i].add(&ob[i]));
    }
    let k = fe(11);
    let sc: Vec<LargeField> = a.iter().map(|x| k.mul(x)).collect();
    let oc = Context::matrix_vector_multiply(&m, &sc);
    for i in 0..2 {
        assert_eq!(oc[i], k.mul(&oa[i]));
    }
}

#[test]
fn unmasking_uses_ascending_party_order() {
    // Five parties with different contributions 1..5; the combined masks
    // take the parties in increasing order: 1 + 2x + 3x^2 at x = 2 and 3.
    let mut c = ctx(5, 1, Vec::new());
    c.rand_sharings_state.acs_output = [4, 2, 0, 3, 1].into_iter().collect();
    for p in 0..5usize {
        c.output_mask_state.public_reconstruction_outputs.insert(p, fes(&[p as u64 + 1]));
    }
    assert_eq!(c.ascending_acs_parties(), vec![0, 1, 2, 3, 4]);
    c.mult_state.output_layer.reconstructed_masked_outputs = Some(fes(&[100 + 17, 200 + 34]));
    // Unmasking gives back the outputs 100 and 200.
    assert_eq!(c.verify_protocol_termination(), Ok(vec![Action::ReportOutput(fes(&[100, 200]))]));
    c.mult_state.output_layer.reconstructed_masked_outputs = None;
    assert_eq!(c.verify_protocol_termination(), Ok(vec![Action::MaskedOutputsMissing]));
}

#[test]
fn masks_made_and_removed_in_the_same_order() {
    // The mask shares are made from the AVSS shares of the common subset in
    // increasing party order; unmasking with the public contributions in the
    // same order removes exactly those masks.
    let mut c = ctx(5, 1, Vec::new());
    c.rand_sharings_state.acs_output = [3, 0, 4, 1, 2].into_iter().collect();
    for p in 0..5usize {
        c.handle_avss_share_output(p, avss(p as u64 + 1));
    }
    let acs = c.rand_sharings_state.acs_output.clone();
    let vdm = Context::vandermonde_matrix(fes(&[2, 3]), 3);
    c.generate_random_mask_shares(acs, vdm).unwrap();
    let made: Vec<LargeField> = c.output_mask_state.rand_sharings.iter().cloned().collect();
    assert_eq!(made, fes(&[17, 34]));
    for p in 0..5usize {
        c.output_mask_state.public_reconstruction_outputs.insert(p, fes(&[p as u64 + 1]));
    }
    c.output_mask_state.acs_recon_set.clear();
    let y = fes(&[7, 8]);
    let masked: Vec<LargeField> = y.iter().zip(made.iter()).map(|(a, m)| a.add(m)).collect();
    c.mult_state.output_layer.reconstructed_masked_outputs = Some(masked);
    assert_eq!(c.verify_protocol_termination(), Ok(vec![Action::ReportOutput(y)]));
}
