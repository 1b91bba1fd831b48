use ministark::channel::{ProverChannel, Stage};
use ministark::coin::PublicCoin;
use ministark::composer::{
    check_degrees, compose_at, compose_on_domain, constraints_in_scope, divisor_value,
    split_into_segments, Constraint, Divisor, TraceDomain,
};
use ministark::memory_table::MemoryTable;
use ministark::deep::{columns_have_length, quotient, row_cells, DeepComposer, DeepRow};
use ministark::phases::{
    base_trace_phase, commit_matrix, composition_commit_phase, composition_phase, deep_phase,
    query_phase, remainder_offset, slice_felts, start_proof, CommittedTrace,
};
use ministark::error::ProvingError;
use ministark::expr::{locate, max_degree, Environment, Expr};
use ministark::field::{Felt, MODULUS};
use ministark::fri::{check_fold, fold_by};
use ministark::fri_prover::{commit_to_values, folding_rounds, FriProver};
use ministark::hash::hash_pair;
use ministark::merkle::{commit_to_rows, row_bytes, verify_path};
use ministark::options::{FriOptions, ProofOptions};
use ministark::poly::evaluate_at;
use ministark::prover::{check_dimensions, validate_constraints, AirConfig};
use ministark::stark_proof::{
    open_coset, open_position, open_queries, open_row, open_rows, open_value, verify_row, Opening,
    Queries, RowOpening, TraceInfo,
};

fn f(v: u64) -> Felt {
    Felt::new(v)
}

fn b(e: Expr) -> Box<Expr> {
    Box::new(e)
}

fn root_of_unity(order: u64) -> Felt {
    f(7).pow((MODULUS - 1) / order)
}

fn coset(offset: &Felt, size: u64) -> Vec<Felt> {
    let w = root_of_unity(size);
    (0..size).map(|i| offset.mul(&w.pow(i))).collect()
}

fn evaluations(coeffs: &Vec<Felt>, offset: &Felt, size: u64) -> Vec<Felt> {
    coset(offset, size).iter().map(|x| evaluate_at(coeffs, x)).collect()
}

fn value_leaf(value: &Felt) -> Vec<u8> {
    hash_pair(&value.to_canonical().to_le_bytes().to_vec(), &vec![])
}

fn env() -> Environment {
    Environment {
        blowup: 2,
        columns: vec![
            vec![f(10), f(11), f(12), f(13), f(14), f(15), f(16), f(17)],
            vec![f(20), f(21), f(22), f(23), f(24), f(25), f(26), f(27)],
        ],
        challenges: vec![f(100), f(200)],
        hints: vec![f(7)],
    }
}

fn channel_before_fri() -> ProverChannel {
    let mut channel = ProverChannel::new(&b"fri".to_vec());
    channel.stage = Stage::DeepCoeffsDrawn;
    channel
}

#[test]
fn cells_are_found_by_row_offset_and_blowup() {
    assert_eq!(locate(0, 0, 2, 8), 0);
    assert_eq!(locate(3, 1, 2, 8), 5);
    assert_eq!(locate(7, 1, 2, 8), 1);
    assert_eq!(locate(0, -1, 2, 8), 6);
    assert_eq!(locate(1, -3, 4, 8), 5);
    assert_eq!(locate(5, i32::MIN, 1, 7), ((5i128 - (1i128 << 31)).rem_euclid(7)) as usize);
    assert_eq!(locate(usize::MAX, i32::MAX, usize::MAX, 1), 0);
    assert_eq!(
        locate(usize::MAX, i32::MAX, usize::MAX, 1000),
        ((usize::MAX as u128 + (i32::MAX as u128) * (usize::MAX as u128)) % 1000) as usize
    );
}

#[test]
fn leaves_evaluate_to_what_they_name() {
    let env = env();
    let x = f(5);
    assert_eq!(Expr::X.eval(&env, &x, 0), Ok(f(5)));
    assert_eq!(Expr::Constant(f(9)).eval(&env, &x, 0), Ok(f(9)));
    assert_eq!(Expr::Challenge(1).eval(&env, &x, 0), Ok(f(200)));
    assert_eq!(Expr::Hint(0).eval(&env, &x, 0), Ok(f(7)));
    assert_eq!(Expr::Trace(1, 0).eval(&env, &x, 3), Ok(f(23)));
    assert_eq!(Expr::Trace(1, 1).eval(&env, &x, 3), Ok(f(25)));
    assert_eq!(Expr::Trace(0, 1).eval(&env, &x, 7), Ok(f(11)));
    assert_eq!(Expr::Trace(0, -1).eval(&env, &x, 0), Ok(f(16)));
}

#[test]
fn operators_evaluate_in_the_field() {
    let env = env();
    let x = f(5);
    let sum = Expr::Add(b(Expr::X), b(Expr::Trace(0, 0)));
    assert_eq!(sum.eval(&env, &x, 1), Ok(f(16)));
    let difference = Expr::Sub(b(Expr::X), b(Expr::Trace(0, 0)));
    assert_eq!(difference.eval(&env, &x, 1), Ok(f(MODULUS - 6)));
    let product = Expr::Mul(b(Expr::Challenge(0)), b(Expr::Hint(0)));
    assert_eq!(product.eval(&env, &x, 1), Ok(f(700)));
    assert_eq!(Expr::Pow(b(Expr::X), 3).eval(&env, &x, 1), Ok(f(125)));
    assert_eq!(Expr::Pow(b(Expr::X), 0).eval(&env, &x, 1), Ok(f(1)));
    let quotient = Expr::Mul(b(Expr::Constant(f(35))), b(Expr::Inv(b(Expr::X))));
    assert_eq!(quotient.eval(&env, &x, 1), Ok(f(7)));
}

#[test]
fn undeclared_references_are_invalid() {
    let env = env();
    let x = f(5);
    assert_eq!(Expr::Trace(2, 0).eval(&env, &x, 0), Err(ProvingError::InvalidConstraint));
    assert_eq!(Expr::Challenge(2).eval(&env, &x, 0), Err(ProvingError::InvalidConstraint));
    assert_eq!(Expr::Hint(1).eval(&env, &x, 0), Err(ProvingError::InvalidConstraint));
    let nested = Expr::Add(b(Expr::X), b(Expr::Mul(b(Expr::X), b(Expr::Inv(b(Expr::Hint(5)))))));
    assert_eq!(nested.eval(&env, &x, 0), Err(ProvingError::InvalidConstraint));
    let empty = Environment { blowup: 1, columns: vec![vec![]], challenges: vec![], hints: vec![] };
    assert_eq!(Expr::Trace(0, 0).eval(&empty, &x, 0), Err(ProvingError::InvalidConstraint));
}

#[test]
fn environment_wants_columns_of_one_length() {
    assert!(env().is_well_formed());
    let ragged = Environment {
        blowup: 1,
        columns: vec![vec![f(1)], vec![f(1), f(2)]],
        challenges: vec![],
        hints: vec![],
    };
    assert!(!ragged.is_well_formed());
}

#[test]
fn divisors_vanish_on_their_rows() {
    let w = root_of_unity(4);
    let domain = TraceDomain { size: 4, last: w.pow(3) };
    assert_eq!(divisor_value(Divisor::Boundary, &domain, &f(5)), f(4));
    assert_eq!(divisor_value(Divisor::Boundary, &domain, &f(1)), f(0));
    assert_eq!(divisor_value(Divisor::Terminal, &domain, &w.pow(3)), f(0));
    assert_eq!(divisor_value(Divisor::Terminal, &domain, &f(5)), f(5).sub(&w.pow(3)));
    for i in 0..3 {
        assert_eq!(divisor_value(Divisor::Transition, &domain, &w.pow(i)), f(0));
    }
    let x = f(5);
    let expected = f(624).mul(&x.sub(&w.pow(3)).inverse());
    assert_eq!(divisor_value(Divisor::Transition, &domain, &x), expected);
}

#[test]
fn composition_weighs_and_divides_each_constraint() {
    let env = env();
    let domain = TraceDomain { size: 4, last: root_of_unity(4).pow(3) };
    let constraints = vec![
        Constraint { expr: Expr::Trace(1, 0), divisor: Divisor::Boundary, degree_adjustment: 1 },
        Constraint { expr: Expr::Trace(0, 1), divisor: Divisor::Boundary, degree_adjustment: 2 },
    ];
    let coeffs = vec![f(2), f(3), f(1), f(1)];
    // (2 + 3 * 5) * 20 / 4 + (1 + 25) * 12 / 4
    assert_eq!(compose_at(&constraints, &coeffs, &env, &domain, &f(5), 0), Ok(f(85 + 78)));
    assert_eq!(
        compose_at(&constraints, &vec![f(2), f(3)], &env, &domain, &f(5), 0),
        Err(ProvingError::ConfigError)
    );
    assert_eq!(compose_at(&vec![], &vec![], &env, &domain, &f(5), 0), Ok(f(0)));
    let bad = vec![Constraint {
        expr: Expr::Trace(9, 0),
        divisor: Divisor::Boundary,
        degree_adjustment: 0,
    }];
    assert_eq!(
        compose_at(&bad, &vec![f(1), f(1)], &env, &domain, &f(5), 0),
        Err(ProvingError::InvalidConstraint)
    );
    let xs = vec![f(5), f(9)];
    let on_domain = compose_on_domain(&constraints, &coeffs, &env, &domain, &xs).unwrap();
    assert_eq!(on_domain[0], f(163));
    assert_eq!(on_domain[1], compose_at(&constraints, &coeffs, &env, &domain, &f(9), 1).unwrap());
    assert_eq!(
        compose_on_domain(&bad, &vec![f(1), f(1)], &env, &domain, &xs),
        Err(ProvingError::InvalidConstraint)
    );
    assert_eq!(compose_on_domain(&bad, &vec![], &env, &domain, &vec![]), Ok(vec![]));
}

#[test]
fn composition_polynomial_splits_into_segments() {
    let coeffs: Vec<Felt> = (0..8).map(f).collect();
    assert_eq!(
        split_into_segments(&coeffs, 2),
        Ok(vec![vec![f(0), f(2), f(4), f(6)], vec![f(1), f(3), f(5), f(7)]])
    );
    assert_eq!(split_into_segments(&coeffs, 8), Ok((0..8).map(|i| vec![f(i)]).collect()));
    assert_eq!(split_into_segments(&coeffs, 1), Ok(vec![coeffs.clone()]));
    assert_eq!(split_into_segments(&coeffs, 3), Err(ProvingError::ConfigError));
    assert_eq!(split_into_segments(&coeffs, 0), Err(ProvingError::ConfigError));
    // P(x) = S_0(x^2) + x * S_1(x^2)
    let segments = split_into_segments(&coeffs, 2).unwrap();
    let x = f(3);
    let x2 = x.mul(&x);
    assert_eq!(
        evaluate_at(&coeffs, &x),
        evaluate_at(&segments[0], &x2).add(&x.mul(&evaluate_at(&segments[1], &x2)))
    );
}

#[test]
fn deep_composition_sums_the_three_quotients() {
    let composer = DeepComposer {
        z: f(4),
        z_next: f(7),
        z_composition: f(8),
        trace_oods: vec![f(2)],
        trace_next_oods: vec![f(5)],
        composition_oods: vec![f(3)],
        trace_coeffs: vec![f(2)],
        trace_next_coeffs: vec![f(1)],
        composition_coeffs: vec![f(4)],
    };
    let row = DeepRow { trace_values: vec![f(20)], composition_values: vec![f(9)] };
    // 2 * 18 / 6 + 1 * 15 / 3 + 4 * 6 / 2
    assert_eq!(composer.evaluate(&row, &f(10)), Ok(f(23)));
    assert_eq!(quotient(&vec![f(2)], &vec![f(20)], &vec![f(2)], &f(10), &f(4)), f(6));
    let short = DeepRow { trace_values: vec![], composition_values: vec![f(9)] };
    assert_eq!(composer.evaluate(&short, &f(10)), Err(ProvingError::ConfigError));
    assert!(composer.is_well_formed());
}

#[test]
fn deep_quotient_of_a_polynomial_is_a_polynomial() {
    // (T(x) - T(z)) / (x - z) for T = 1 + 2x + 3x^2 is 2 + 3z + 3x.
    let t = vec![f(1), f(2), f(3)];
    let z = f(1234);
    let opening = evaluate_at(&t, &z);
    for x in coset(&f(7), 8) {
        let value = evaluate_at(&t, &x);
        let q = quotient(&vec![f(1)], &vec![value], &vec![opening], &x, &z);
        assert_eq!(q, f(2).add(&f(3).mul(&z)).add(&f(3).mul(&x)));
    }
}

#[test]
fn dimensions_are_checked_before_proving() {
    let options = ProofOptions::new(32, 8, 8).unwrap();
    let air = AirConfig { num_base_columns: 8, num_extension_columns: 0, ce_blowup_factor: 2 };
    assert_eq!(
        check_dimensions(&air, &options, 8192, 8, 0),
        Ok(TraceInfo { trace_len: 8192, num_base_columns: 8, num_extension_columns: 0 })
    );
    assert_eq!(check_dimensions(&air, &options, 8191, 8, 0), Err(ProvingError::ConfigError));
    assert_eq!(check_dimensions(&air, &options, 0, 8, 0), Err(ProvingError::ConfigError));
    assert_eq!(check_dimensions(&air, &options, 8192, 7, 0), Err(ProvingError::ConfigError));
    assert_eq!(check_dimensions(&air, &options, 8192, 8, 1), Err(ProvingError::ConfigError));
    let greedy = AirConfig { num_base_columns: 8, num_extension_columns: 0, ce_blowup_factor: 16 };
    assert_eq!(check_dimensions(&greedy, &options, 8192, 8, 0), Err(ProvingError::ConfigError));
    // the smallest trace: one row, constraints that need the whole blowup
    let tight = AirConfig { num_base_columns: 1, num_extension_columns: 0, ce_blowup_factor: 8 };
    assert!(check_dimensions(&tight, &options, 1, 1, 0).is_ok());
}

#[test]
fn fibonacci_trace_satisfies_its_constraints() {
    // Two columns a, b with a' = b and b' = a + b; the first row is (1, 1);
    // the last b is the public input.
    let n = 8usize;
    let (mut a, mut bb) = (vec![f(1)], vec![f(1)]);
    for i in 1..n {
        let next = a[i - 1].add(&bb[i - 1]);
        a.push(bb[i - 1]);
        bb.push(next);
    }
    let result = bb[n - 1];
    assert_eq!(result, f(34));
    let constraints = vec![
        Constraint {
            expr: Expr::Sub(b(Expr::Trace(0, 1)), b(Expr::Trace(1, 0))),
            divisor: Divisor::Transition,
            degree_adjustment: 0,
        },
        Constraint {
            expr: Expr::Sub(
                b(Expr::Trace(1, 1)),
                b(Expr::Add(b(Expr::Trace(0, 0)), b(Expr::Trace(1, 0)))),
            ),
            divisor: Divisor::Transition,
            degree_adjustment: 0,
        },
        Constraint {
            expr: Expr::Sub(b(Expr::Trace(0, 0)), b(Expr::Constant(f(1)))),
            divisor: Divisor::Boundary,
            degree_adjustment: 0,
        },
        Constraint {
            expr: Expr::Sub(b(Expr::Trace(1, 0)), b(Expr::Hint(0))),
            divisor: Divisor::Terminal,
            degree_adjustment: 0,
        },
    ];
    let xs = coset(&f(1), n as u64);
    let good = Environment {
        blowup: 1,
        columns: vec![a.clone(), bb.clone()],
        challenges: vec![],
        hints: vec![result],
    };
    assert_eq!(validate_constraints(&constraints, &good, &xs), Ok(()));
    // a wrong public input
    let wrong = Environment {
        blowup: 1,
        columns: vec![a.clone(), bb.clone()],
        challenges: vec![],
        hints: vec![f(35)],
    };
    assert_eq!(
        validate_constraints(&constraints, &wrong, &xs),
        Err(ProvingError::DebugAssertionFailure)
    );
    // one cell flipped in the middle of the trace
    let mut flipped = bb.clone();
    flipped[4] = flipped[4].add(&f(1));
    let tampered =
        Environment { blowup: 1, columns: vec![a, flipped], challenges: vec![], hints: vec![result] };
    assert_eq!(
        validate_constraints(&constraints, &tampered, &xs),
        Err(ProvingError::DebugAssertionFailure)
    );
    assert_eq!(validate_constraints(&constraints, &good, &vec![]), Ok(()));
}

#[test]
fn folding_factors_are_powers_of_two() {
    assert_eq!(folding_rounds(2), Some(1));
    assert_eq!(folding_rounds(4), Some(2));
    assert_eq!(folding_rounds(8), Some(3));
    assert_eq!(folding_rounds(1 << 20), Some(20));
    assert_eq!(folding_rounds(0), None);
    assert_eq!(folding_rounds(1), None);
    assert_eq!(folding_rounds(3), None);
    assert_eq!(folding_rounds(12), None);
}

#[test]
fn commit_phase_folds_down_to_the_remainder() {
    let coeffs: Vec<Felt> = (1..=16).map(f).collect();
    let offset = f(7);
    let generator = root_of_unity(64);
    let evals = evaluations(&coeffs, &offset, 64);
    let mut channel = channel_before_fri();
    let seed0 = channel.coin.seed.clone();
    let options = FriOptions::new(4, 2, 4);
    let prover =
        FriProver::build_layers(options, &mut channel, evals.clone(), &offset, &generator)
            .ok()
            .unwrap();
    assert_eq!(channel.stage, Stage::DeepCoeffsDrawn);
    assert_eq!(prover.layers.len(), 4);
    let sizes: Vec<usize> = prover.layers.iter().map(|l| l.evaluations.len()).collect();
    assert_eq!(sizes, vec![64, 32, 16, 8]);
    assert_eq!(prover.remainder.len(), 4);
    assert_eq!(prover.layers[0].evaluations, evals);
    // a polynomial of degree < 16 on a domain of rate 1/4 leaves a constant
    assert!(prover.remainder.iter().all(|v| *v == prover.remainder[0]));
    assert_eq!(channel.fri_layer_roots.len(), 4);
    let mut seed = seed0;
    let mut h = offset;
    let mut g = generator;
    for (i, layer) in prover.layers.iter().enumerate() {
        let root = layer.tree.root();
        assert_eq!(channel.fri_layer_roots[i], root);
        assert_eq!(layer.offset, h);
        assert_eq!(layer.generator, g);
        seed = hash_pair(&seed, &root);
        let mut coin = PublicCoin { seed: seed.clone(), counter: 0 };
        assert_eq!(layer.alpha, coin.draw_felt().unwrap());
        let next = if i + 1 < prover.layers.len() {
            &prover.layers[i + 1].evaluations
        } else {
            &prover.remainder
        };
        let half = layer.evaluations.len() / 2;
        for p in 0..half {
            let x = h.mul(&g.pow(p as u64));
            assert!(check_fold(
                &layer.evaluations[p],
                &layer.evaluations[p + half],
                &x,
                &layer.alpha,
                &next[p]
            ));
        }
        h = h.mul(&h);
        g = g.mul(&g);
    }
    assert_eq!(channel.coin.seed, seed);
}

#[test]
fn commit_phase_with_the_default_options() {
    let options = ProofOptions::new(32, 8, 0).unwrap().into_fri_options();
    let coeffs: Vec<Felt> = (1..=64).map(f).collect();
    let offset = f(7);
    let generator = root_of_unity(512);
    let evals = evaluations(&coeffs, &offset, 512);
    let mut channel = channel_before_fri();
    let prover =
        FriProver::build_layers(options, &mut channel, evals.clone(), &offset, &generator)
            .ok()
            .unwrap();
    assert_eq!(prover.layers.len(), 1);
    assert_eq!(prover.remainder.len(), 64);
    assert_eq!(
        prover.remainder,
        fold_by(&evals, &offset, &generator, &prover.layers[0].alpha, 3)
    );
    // the remainder is a polynomial of degree < 8 on the domain raised to the 8th power
    let h8 = offset.pow(8);
    let g8 = generator.pow(8);
    let alpha = prover.layers[0].alpha;
    let folded_coeffs: Vec<Felt> = (0..8)
        .map(|k| evaluate_at(&coeffs[8 * k..8 * k + 8].to_vec(), &alpha))
        .collect();
    for (i, value) in prover.remainder.iter().enumerate() {
        assert_eq!(*value, evaluate_at(&folded_coeffs, &h8.mul(&g8.pow(i as u64))));
    }
}

#[test]
fn commit_phase_refuses_a_bad_folding_factor() {
    for factor in [0usize, 1, 3, 6] {
        let mut channel = channel_before_fri();
        let seed = channel.coin.seed.clone();
        let r = FriProver::build_layers(
            FriOptions::new(4, factor, 4),
            &mut channel,
            vec![f(1); 16],
            &f(7),
            &root_of_unity(16),
        );
        assert!(matches!(r, Err(ProvingError::ConfigError)));
        assert_eq!(channel.coin.seed, seed);
    }
}

#[test]
fn small_input_is_all_remainder() {
    let mut channel = channel_before_fri();
    let prover = FriProver::build_layers(
        FriOptions::new(4, 2, 4),
        &mut channel,
        vec![f(1), f(2), f(3)],
        &f(7),
        &root_of_unity(4),
    )
    .ok()
    .unwrap();
    assert!(prover.layers.is_empty());
    assert_eq!(prover.remainder, vec![f(1), f(2), f(3)]);
    assert!(channel.fri_layer_roots.is_empty());
}

#[test]
fn opened_cosets_verify_against_the_layer_root() {
    let coeffs: Vec<Felt> = (1..=4).map(f).collect();
    let offset = f(7);
    let generator = root_of_unity(32);
    let evals = evaluations(&coeffs, &offset, 32);
    let mut channel = channel_before_fri();
    let prover = FriProver::build_layers(
        FriOptions::new(8, 8, 4),
        &mut channel,
        evals.clone(),
        &offset,
        &generator,
    )
    .ok()
    .unwrap();
    assert_eq!(prover.layers.len(), 1);
    let layer = &prover.layers[0];
    let root = layer.tree.root();
    for position in [0usize, 5, 31, 77] {
        let openings = open_coset(layer, position, 8).ok().unwrap();
        assert_eq!(openings.len(), 8);
        for (k, opening) in openings.iter().enumerate() {
            assert_eq!(opening.position, position % 4 + 4 * k);
            assert_eq!(opening.value, evals[opening.position]);
            assert!(verify_path(&root, 32 + opening.position, &value_leaf(&opening.value), &opening.path));
            assert!(!verify_path(
                &root,
                32 + opening.position,
                &value_leaf(&opening.value.add(&f(1))),
                &opening.path
            ));
        }
    }
    assert!(open_coset(layer, 0, 0).is_err());
    assert!(open_coset(layer, 0, 3).is_err());
    assert!(open_coset(layer, 0, 64).is_err());
    assert!(open_value(layer, 32).is_err());
    assert_eq!(open_value(layer, 31).ok().unwrap().value, evals[31]);
    let tree = commit_to_values(&evals).ok().unwrap();
    assert_eq!(tree.root(), root);
    assert!(commit_to_values(&vec![]).is_err());
}

#[test]
fn opened_rows_verify_against_the_trace_root() {
    let columns = vec![
        (0..8).map(|i| f(10 + i)).collect::<Vec<Felt>>(),
        (0..8).map(|i| f(20 + i)).collect::<Vec<Felt>>(),
        (0..8).map(|i| f(30 + i)).collect::<Vec<Felt>>(),
    ];
    let tree = commit_to_rows(&columns, 8).ok().unwrap();
    let root = tree.root();
    for position in 0..8usize {
        let opening = open_row(&columns, &tree, position).ok().unwrap();
        assert_eq!(opening.position, position);
        let p = position as u64;
        assert_eq!(opening.values, vec![f(10 + p), f(20 + p), f(30 + p)]);
        let leaf = hash_pair(&row_bytes(&columns, position), &vec![]);
        assert!(verify_path(&root, 8 + position, &leaf, &opening.path));
        assert_eq!(opening.path.len(), 3);
    }
    assert!(open_row(&columns, &tree, 8).is_err());
}

fn run_transcript(with_extension: bool) -> ProverChannel {
    let mut channel = ProverChannel::new(&b"air".to_vec());
    channel.commit_base_trace(&vec![0x11; 32]);
    channel.get_challenges(3).unwrap();
    if with_extension {
        channel.commit_extension_trace(&vec![0x22; 32]);
    }
    channel.get_constraint_composition_coeffs(2).unwrap();
    channel.commit_composition_trace(&vec![0x33; 32]);
    channel.get_ood_point(8, &f(7)).unwrap();
    channel.send_ood_evals(vec![f(1), f(2)], vec![f(3), f(4)], vec![f(5)]);
    channel.get_deep_composition_coeffs(5).unwrap();
    channel.commit_fri_layer(&vec![0x44; 32]);
    channel.draw_fri_alpha().unwrap();
    channel.commit_fri_remainder(vec![f(6)]);
    channel.grind_fri_commitments(0).unwrap();
    channel.get_fri_query_positions(4, 8).unwrap();
    channel
}

fn no_queries() -> Queries {
    Queries { base: vec![], extension: vec![], composition: vec![] }
}

#[test]
fn proof_without_extension_trace_carries_the_flag_zero() {
    let options = ProofOptions::new(4, 8, 0).unwrap();
    let info = TraceInfo { trace_len: 1, num_base_columns: 2, num_extension_columns: 0 };
    let (built, stage) = run_transcript(false).build_proof(options, info, no_queries(), vec![]);
    assert_eq!(stage, Stage::ProofBuilt);
    assert!(built.extension_trace_commitment.is_none());
    assert_eq!(built.pow_nonce, 0);
    let bytes = built.head_to_bytes();
    let mut expected = vec![4u8, 8, 0];
    expected.extend_from_slice(&1u64.to_le_bytes());
    expected.extend_from_slice(&2u64.to_le_bytes());
    expected.extend_from_slice(&0u64.to_le_bytes());
    expected.extend_from_slice(&[0x11; 32]);
    expected.push(0);
    expected.extend_from_slice(&[0x33; 32]);
    for list in [vec![1u64, 2], vec![3, 4], vec![5]] {
        expected.extend_from_slice(&(list.len() as u64).to_le_bytes());
        for v in list {
            expected.extend_from_slice(&v.to_le_bytes());
        }
    }
    assert_eq!(bytes, expected);
    assert_eq!(bytes[59], 0);
}

#[test]
fn proof_with_extension_trace_carries_its_root() {
    let options = ProofOptions::new(4, 8, 0).unwrap();
    let info = TraceInfo { trace_len: 1, num_base_columns: 2, num_extension_columns: 1 };
    let (built, _) = run_transcript(true).build_proof(options, info, no_queries(), vec![]);
    assert_eq!(built.extension_trace_commitment, Some(vec![0x22; 32]));
    assert_eq!(built.base_trace_commitment, vec![0x11; 32]);
    assert_eq!(built.composition_trace_commitment, vec![0x33; 32]);
    assert_eq!(built.fri_proof.layer_roots, vec![vec![0x44u8; 32]]);
    assert_eq!(built.fri_proof.remainder, vec![f(6)]);
    assert_eq!(built.execution_trace_oods, vec![f(1), f(2)]);
    let bytes = built.head_to_bytes();
    assert_eq!(&bytes[59..91], &[0x22u8; 32][..]);
    assert_eq!(bytes[91], 1);
    assert_eq!(bytes.len(), 3 + 24 + 32 + 33 + 32 + 24 + 24 + 16);
}

#[test]
fn the_same_run_builds_the_same_proof_bytes() {
    let options = ProofOptions::new(4, 8, 0).unwrap();
    let info = TraceInfo { trace_len: 1, num_base_columns: 2, num_extension_columns: 1 };
    let (first, _) = run_transcript(true).build_proof(options, info, no_queries(), vec![]);
    let (second, _) = run_transcript(true).build_proof(options, info, no_queries(), vec![]);
    assert_eq!(first.head_to_bytes(), second.head_to_bytes());
    assert_eq!(first.pow_nonce, second.pow_nonce);
}

#[test]
fn degree_counts_the_trace_cells_multiplied() {
    assert_eq!(Expr::X.degree(), Some(0));
    assert_eq!(Expr::Trace(3, 1).degree(), Some(1));
    assert_eq!(Expr::Constant(f(2)).degree(), Some(0));
    let square = Expr::Mul(b(Expr::Trace(0, 0)), b(Expr::Trace(0, 1)));
    assert_eq!(square.degree(), Some(2));
    let sum = Expr::Add(b(Expr::Mul(b(Expr::Trace(0, 0)), b(Expr::Trace(0, 1)))), b(Expr::Trace(1, 0)));
    assert_eq!(sum.degree(), Some(2));
    assert_eq!(Expr::Pow(b(Expr::Trace(0, 0)), 5).degree(), Some(5));
    assert_eq!(Expr::Pow(b(Expr::Trace(0, 0)), 0).degree(), Some(0));
    assert_eq!(Expr::Pow(b(Expr::X), u64::MAX).degree(), Some(0));
    let huge = Expr::Pow(b(Expr::Pow(b(Expr::Trace(0, 0)), u64::MAX)), 2);
    assert_eq!(huge.degree(), None);
    assert_eq!(Expr::Inv(b(Expr::Trace(0, 0))).degree(), Some(1));
    assert_eq!(max_degree(&vec![]), Some(0));
    assert_eq!(max_degree(&vec![Expr::X, square, Expr::Trace(0, 0)]), Some(2));
    assert_eq!(max_degree(&vec![Expr::X, huge]), None);
}

#[test]
fn proof_is_encoded_head_then_fri_then_queries() {
    let options = ProofOptions::new(4, 8, 0).unwrap();
    let info = TraceInfo { trace_len: 1, num_base_columns: 2, num_extension_columns: 0 };
    let queries = Queries {
        base: vec![RowOpening {
            position: 2,
            values: vec![f(3), f(4)],
            path: vec![vec![0xbb; 32], vec![0xcc; 32]],
        }],
        extension: vec![],
        composition: vec![],
    };
    let openings =
        vec![vec![vec![Opening { position: 1, value: f(9), path: vec![vec![0xaa; 32]] }]]];
    let (built, _) = run_transcript(false).build_proof(options, info, queries, openings);
    let le = |v: u64| v.to_le_bytes().to_vec();
    let mut expected = built.head_to_bytes();
    // FRI: layer roots, remainder, opened cosets
    expected.extend(le(1));
    expected.extend(vec![0x44u8; 32]);
    expected.extend(le(1));
    expected.extend(le(6));
    // one query, one layer, one value in the coset
    expected.extend(le(1));
    expected.extend(le(1));
    expected.extend(le(1));
    expected.extend(le(1));
    expected.extend(le(9));
    expected.extend(le(1));
    expected.extend(vec![0xaau8; 32]);
    // queries: base, extension, composition, nonce
    expected.extend(le(1));
    expected.extend(le(2));
    expected.extend(le(2));
    expected.extend(le(3));
    expected.extend(le(4));
    expected.extend(le(2));
    expected.extend(vec![0xbbu8; 32]);
    expected.extend(vec![0xccu8; 32]);
    expected.extend(le(0));
    expected.extend(le(0));
    expected.extend(le(built.pow_nonce));
    assert_eq!(built.to_bytes(), expected);
}

#[test]
fn small_helpers_read_rows_and_slices() {
    let columns = vec![vec![f(1), f(2)], vec![f(3), f(4)]];
    assert!(columns_have_length(&columns, 2));
    assert!(!columns_have_length(&columns, 3));
    assert!(columns_have_length(&vec![], 9));
    assert_eq!(row_cells(&columns, 1), vec![f(2), f(4)]);
    assert_eq!(slice_felts(&vec![f(1), f(2), f(3)], 1, 3), vec![f(2), f(3)]);
    assert_eq!(slice_felts(&vec![f(1), f(2), f(3)], 2, 2), vec![]);
}

#[test]
fn rows_are_opened_at_every_position() {
    let columns = vec![(0..8).map(f).collect::<Vec<Felt>>(), (8..16).map(f).collect()];
    let tree = commit_to_rows(&columns, 8).ok().unwrap();
    let rows = open_rows(&columns, &tree, &vec![5, 0, 5]).ok().unwrap();
    assert_eq!(rows.len(), 3);
    assert_eq!(rows[0].position, 5);
    assert_eq!(rows[0].values, vec![f(5), f(13)]);
    assert_eq!(rows[1].values, vec![f(0), f(8)]);
    assert_eq!(rows[2].path, rows[0].path);
    let root = tree.root();
    assert!(rows.iter().all(|row| verify_row(&root, 8, row)));
    let forged = RowOpening { position: 5, values: vec![f(5), f(14)], path: rows[0].path.clone() };
    assert!(!verify_row(&root, 8, &forged));
    let moved = RowOpening { position: 4, values: vec![f(5), f(13)], path: rows[0].path.clone() };
    assert!(!verify_row(&root, 8, &moved));
    assert!(!verify_row(&root, usize::MAX, &rows[0]));
    assert!(open_rows(&columns, &tree, &vec![1, 8]).is_err());
    assert!(open_rows(&columns, &tree, &vec![]).ok().unwrap().is_empty());
}

/// A run of the pipeline on a trace of two columns; the transforms are made
/// by evaluating the polynomials point by point.
fn prove_small(grinding_factor: u8, num_queries: u8) -> (Vec<u8>, Vec<usize>) {
    let options = ProofOptions::new(num_queries, 8, grinding_factor).unwrap();
    let n = 8usize;
    let lde_size = options.lde_domain_size(n).unwrap();
    let offset = f(7);
    let lde_gen = root_of_unity(lde_size as u64);
    let trace_gen = root_of_unity(n as u64);
    let xs = coset(&offset, lde_size as u64);
    let info = TraceInfo { trace_len: n, num_base_columns: 2, num_extension_columns: 0 };
    let polys = vec![(1..=8).map(f).collect::<Vec<Felt>>(), (11..=18).map(f).collect()];
    let lde: Vec<Vec<Felt>> = polys.iter().map(|p| evaluations(p, &offset, 64)).collect();
    let base = CommittedTrace { columns: lde.clone(), tree: commit_to_rows(&lde, 64).ok().unwrap() };
    let mut channel = ProverChannel::new(&b"small".to_vec());
    channel.commit_base_trace(&base.tree.root());
    channel.get_constraint_composition_coeffs(2).unwrap();
    let segments = vec![(21..=28).map(f).collect::<Vec<Felt>>()];
    let segment_lde: Vec<Vec<Felt>> =
        segments.iter().map(|p| evaluations(p, &offset, 64)).collect();
    let composition = CommittedTrace {
        columns: segment_lde.clone(),
        tree: commit_to_rows(&segment_lde, 64).ok().unwrap(),
    };
    channel.commit_composition_trace(&composition.tree.root());
    let deep =
        deep_phase(&mut channel, &polys, &segments, &lde, &segment_lde, &xs, &offset, &trace_gen)
            .ok()
            .unwrap();
    assert_eq!(channel.stage, Stage::DeepCoeffsDrawn);
    let z = deep.composer.z;
    assert_ne!(z.pow(64), offset.pow(64));
    assert_eq!(deep.composer.z_next, z.mul(&trace_gen));
    assert_eq!(deep.composer.z_composition, z.pow(2));
    assert_eq!(deep.composer.trace_oods, vec![evaluate_at(&polys[0], &z), evaluate_at(&polys[1], &z)]);
    assert_eq!(channel.execution_trace_oods, deep.composer.trace_oods);
    assert_eq!(deep.evaluations.len(), 64);
    // The quotients divide exactly: the DEEP composition has degree < 8, so
    // folding it three times in two on a domain of 64 points leaves a constant.
    let fri_options = options.into_fri_options();
    let fri = FriProver::build_layers(
        FriOptions::new(8, 8, 8),
        &mut channel,
        deep.evaluations.clone(),
        &offset,
        &lde_gen,
    )
    .ok()
    .unwrap();
    assert_eq!(fri_options.folding_factor, 8);
    assert_eq!(fri.layers.len(), 1);
    assert!(fri.remainder.iter().all(|v| *v == fri.remainder[0]));
    channel.commit_fri_remainder(vec![fri.remainder[0]]);
    let seed = channel.coin.seed.clone();
    let (built, positions) =
        query_phase(channel, options, info, &base, &None, &composition, &fri.layers, 8, lde_size)
            .ok()
            .unwrap();
    let digest = hash_pair(&seed, &built.pow_nonce.to_le_bytes().to_vec());
    assert!(ministark::coin::count_leading_zero_bits(&digest) >= grinding_factor as usize);
    if grinding_factor == 0 {
        assert_eq!(built.pow_nonce, 0);
    }
    assert!(built.extension_trace_commitment.is_none());
    assert!(built.trace_queries.extension.is_empty());
    assert_eq!(built.trace_queries.base.len(), positions.len());
    assert_eq!(built.fri_proof.openings.len(), positions.len());
    assert_eq!(built.fri_proof.layer_roots.len(), 1);
    let layer = &fri.layers[0];
    for (j, p) in positions.iter().enumerate() {
        // the trace openings verify against the committed roots
        let row = &built.trace_queries.base[j];
        assert_eq!(row.position, *p);
        let leaf = hash_pair(&row_bytes(&lde, *p), &vec![]);
        assert!(verify_path(&built.base_trace_commitment, 64 + *p, &leaf, &row.path));
        assert!(verify_row(&built.base_trace_commitment, 64, row));
        assert!(!verify_row(&built.composition_trace_commitment, 64, row));
        let row = &built.trace_queries.composition[j];
        let leaf = hash_pair(&row_bytes(&segment_lde, *p), &vec![]);
        assert!(verify_path(&built.composition_trace_commitment, 64 + *p, &leaf, &row.path));
        // the opened values give the DEEP composition at the queried point
        let deep_row = DeepRow {
            trace_values: built.trace_queries.base[j].values.clone(),
            composition_values: built.trace_queries.composition[j].values.clone(),
        };
        assert_eq!(deep.composer.evaluate(&deep_row, &xs[*p]), Ok(deep.evaluations[*p]));
        // the opened coset of the layer folds into the remainder
        let cosets = &built.fri_proof.openings[j];
        assert_eq!(cosets.len(), 1);
        let values: Vec<Felt> = {
            let mut all = vec![f(0); 64];
            for opening in cosets[0].iter() {
                assert!(verify_path(
                    &built.fri_proof.layer_roots[0],
                    64 + opening.position,
                    &value_leaf(&opening.value),
                    &opening.path
                ));
                all[opening.position] = opening.value;
            }
            cosets[0].iter().map(|o| all[o.position]).collect()
        };
        let start = *p % 8;
        let coset_offset = offset.mul(&lde_gen.pow(start as u64));
        let folded = fold_by(&values, &coset_offset, &lde_gen.pow(8), &layer.alpha, 3);
        assert_eq!(folded, vec![fri.remainder[start]]);
    }
    (built.to_bytes(), positions)
}

#[test]
fn small_proof_opens_what_it_commits_to() {
    let (bytes, positions) = prove_small(4, 16);
    assert!(!positions.is_empty());
    assert!(positions.len() <= 16);
    assert!(!bytes.is_empty());
}

#[test]
fn small_proof_is_built_the_same_twice() {
    assert_eq!(prove_small(0, 8), prove_small(0, 8));
}

#[test]
fn small_proof_with_the_most_queries() {
    let (_, positions) = prove_small(0, 128);
    assert!(positions.len() <= 64);
    for (i, p) in positions.iter().enumerate() {
        assert!(*p < 64);
        assert!(!positions[..i].contains(p));
    }
}

#[test]
fn cosets_are_opened_in_every_layer() {
    let coeffs: Vec<Felt> = (1..=4).map(f).collect();
    let offset = f(7);
    let generator = root_of_unity(32);
    let evals = evaluations(&coeffs, &offset, 32);
    let mut channel = channel_before_fri();
    let prover = FriProver::build_layers(
        FriOptions::new(8, 2, 4),
        &mut channel,
        evals,
        &offset,
        &generator,
    )
    .ok()
    .unwrap();
    assert_eq!(prover.layers.len(), 3);
    let cosets = open_position(&prover.layers, 21, 2).ok().unwrap();
    assert_eq!(cosets.len(), 3);
    let positions: Vec<Vec<usize>> =
        cosets.iter().map(|c| c.iter().map(|o| o.position).collect()).collect();
    assert_eq!(positions, vec![vec![5, 21], vec![5, 13], vec![1, 5]]);
    let all = open_queries(&prover.layers, &vec![21, 3], 2).ok().unwrap();
    assert_eq!(all.len(), 2);
    assert_eq!(all[1][0][0].position, 3);
    assert_eq!(all[1][0][1].position, 19);
    assert!(open_queries(&prover.layers, &vec![21], 3).is_err());
    assert!(open_queries(&prover.layers, &vec![], 3).ok().unwrap().is_empty());
}

#[test]
fn constraints_above_the_composition_degree_are_invalid() {
    let cell = || Expr::Trace(0, 0);
    let of_degree = |d: u64, divisor: Divisor| {
        vec![Constraint { expr: Expr::Pow(b(cell()), d), divisor, degree_adjustment: 0 }]
    };
    // 2 * 7 - 7 = 7 < 8
    assert_eq!(check_degrees(&of_degree(2, Divisor::Transition), 8, 1), Ok(()));
    // 3 * 7 - 7 = 14, not below 8, below 16
    assert_eq!(
        check_degrees(&of_degree(3, Divisor::Transition), 8, 1),
        Err(ProvingError::InvalidConstraint)
    );
    assert_eq!(check_degrees(&of_degree(3, Divisor::Transition), 8, 2), Ok(()));
    // 1 * 7 - 1 = 6 < 8, and 2 * 7 - 1 = 13
    assert_eq!(check_degrees(&of_degree(1, Divisor::Boundary), 8, 1), Ok(()));
    assert_eq!(
        check_degrees(&of_degree(2, Divisor::Terminal), 8, 1),
        Err(ProvingError::InvalidConstraint)
    );
    // 9 * 1 - 1 = 8 is not below 2 * 4 = 8; 8 * 1 - 1 = 7 is
    assert_eq!(
        check_degrees(&of_degree(9, Divisor::Boundary), 2, 4),
        Err(ProvingError::InvalidConstraint)
    );
    assert_eq!(check_degrees(&of_degree(8, Divisor::Boundary), 2, 4), Ok(()));
    // on a trace of one row every cell is a constant
    assert_eq!(check_degrees(&of_degree(1000, Divisor::Boundary), 1, 1), Ok(()));
    assert_eq!(check_degrees(&vec![], 8, 0), Ok(()));
    let huge = vec![Constraint {
        expr: Expr::Pow(b(Expr::Pow(b(cell()), u64::MAX)), 2),
        divisor: Divisor::Boundary,
        degree_adjustment: 0,
    }];
    assert_eq!(check_degrees(&huge, 8, 64), Err(ProvingError::InvalidConstraint));
    let memory: Vec<Constraint> = MemoryTable::extension_transition_constraints(&vec![f(1); 11])
        .into_iter()
        .map(|expr| Constraint { expr, divisor: Divisor::Transition, degree_adjustment: 0 })
        .collect();
    assert_eq!(check_degrees(&memory, 16, 2), Ok(()));
    assert_eq!(check_degrees(&memory, 16, 1), Err(ProvingError::InvalidConstraint));
}

fn small_air() -> AirConfig {
    AirConfig { num_base_columns: 2, num_extension_columns: 0, ce_blowup_factor: 1 }
}

#[test]
fn transcript_is_seeded_with_context_options_and_length() {
    let options = ProofOptions::new(32, 8, 8).unwrap();
    let (channel, lde_size) =
        start_proof(&b"public".to_vec(), &options, &small_air(), 8, 2).ok().unwrap();
    assert_eq!(lde_size, 64);
    assert_eq!(channel.stage, Stage::Init);
    let mut context = b"public".to_vec();
    context.extend_from_slice(&[32, 8, 8]);
    context.extend_from_slice(&8u64.to_le_bytes());
    assert_eq!(channel.coin.seed, hash_pair(&context, &vec![]));
    assert_eq!(channel.coin.counter, 0);
    assert!(channel.extension_trace_root.is_none());
}

#[test]
fn proof_is_not_started_on_bad_dimensions() {
    let options = ProofOptions::new(32, 8, 8).unwrap();
    let air = small_air();
    let refused = |r: Result<(ProverChannel, usize), ProvingError>| {
        matches!(r, Err(ProvingError::ConfigError))
    };
    assert!(refused(start_proof(&vec![], &options, &air, 12, 2)));
    assert!(refused(start_proof(&vec![], &options, &air, 0, 2)));
    assert!(refused(start_proof(&vec![], &options, &air, 8, 3)));
    assert!(refused(start_proof(&vec![], &options, &air, 1 << 62, 2)));
    let greedy = AirConfig { num_base_columns: 2, num_extension_columns: 0, ce_blowup_factor: 16 };
    assert!(refused(start_proof(&vec![], &options, &greedy, 8, 2)));
    let bad = ProofOptions { num_queries: 0, blowup_factor: 8, grinding_factor: 0 };
    assert!(refused(start_proof(&vec![], &bad, &air, 8, 2)));
    let odd = ProofOptions { num_queries: 4, blowup_factor: 3, grinding_factor: 0 };
    assert!(refused(start_proof(&vec![], &odd, &air, 8, 2)));
    // the smallest trace: one row
    let one = AirConfig { num_base_columns: 1, num_extension_columns: 0, ce_blowup_factor: 8 };
    assert_eq!(start_proof(&vec![], &options, &one, 1, 1).ok().unwrap().1, 8);
}

#[test]
fn base_trace_is_committed_and_challenges_drawn() {
    let options = ProofOptions::new(4, 2, 0).unwrap();
    let (mut channel, lde_size) = start_proof(&vec![], &options, &small_air(), 2, 2).ok().unwrap();
    let seed = channel.coin.seed.clone();
    let lde = vec![vec![f(1), f(2), f(3), f(4)], vec![f(5), f(6), f(7), f(8)]];
    let (base, challenges) =
        base_trace_phase(&mut channel, lde.clone(), lde_size, 3).ok().unwrap();
    assert_eq!(channel.stage, Stage::BaseCommitted);
    assert_eq!(base.columns, lde);
    let root = commit_to_rows(&lde, 4).ok().unwrap().root();
    assert_eq!(base.tree.root(), root);
    assert_eq!(channel.base_trace_root, root);
    assert_eq!(channel.coin.seed, hash_pair(&seed, &root));
    let mut coin = PublicCoin { seed: hash_pair(&seed, &root), counter: 0 };
    assert_eq!(challenges, coin.draw_felts(3).unwrap());
    // a ragged matrix leaves the transcript as it was
    let (mut other, _) = start_proof(&vec![], &options, &small_air(), 2, 2).ok().unwrap();
    let ragged = vec![vec![f(1), f(2), f(3), f(4)], vec![f(5)]];
    assert!(matches!(
        base_trace_phase(&mut other, ragged, 4, 3),
        Err(ProvingError::ConfigError)
    ));
    assert_eq!(other.stage, Stage::Init);
    assert_eq!(other.coin.seed, seed);
    assert!(matches!(commit_matrix(vec![], 0), Err(ProvingError::ConfigError)));
}

fn after_base() -> (ProverChannel, Environment, Vec<Felt>) {
    let options = ProofOptions::new(4, 2, 0).unwrap();
    let (mut channel, lde_size) = start_proof(&vec![], &options, &small_air(), 2, 2).ok().unwrap();
    let lde = vec![vec![f(1), f(2), f(3), f(4)], vec![f(5), f(6), f(7), f(8)]];
    base_trace_phase(&mut channel, lde.clone(), lde_size, 0).ok().unwrap();
    let env = Environment { blowup: 2, columns: lde, challenges: vec![], hints: vec![] };
    (channel, env, coset(&f(7), 4))
}

#[test]
fn composition_phase_without_extension_absorbs_nothing() {
    let (mut channel, env, xs) = after_base();
    let seed = channel.coin.seed.clone();
    let constraints = vec![Constraint {
        expr: Expr::Sub(b(Expr::Trace(1, 0)), b(Expr::Trace(0, 0))),
        divisor: Divisor::Boundary,
        degree_adjustment: 0,
    }];
    let g = root_of_unity(2);
    let (extension, evals) =
        composition_phase(&mut channel, None, &constraints, &env, &small_air(), 2, &g, &xs)
            .ok()
            .unwrap();
    assert!(extension.is_none());
    assert!(channel.extension_trace_root.is_none());
    assert_eq!(channel.stage, Stage::ChallengesDrawn);
    assert_eq!(channel.coin.seed, seed);
    let mut coin = PublicCoin { seed, counter: 0 };
    let coeffs = coin.draw_felts(2).unwrap();
    let domain = TraceDomain { size: 2, last: g };
    assert_eq!(evals, compose_on_domain(&constraints, &coeffs, &env, &domain, &xs).unwrap());
    // (alpha + beta) * (5 - 1) / (x - 1) on the first row
    let expected = coeffs[0].add(&coeffs[1]).mul(&f(4)).mul(&xs[0].sub(&f(1)).inverse());
    assert_eq!(evals[0], expected);
}

#[test]
fn composition_phase_commits_the_extension_first() {
    let (mut channel, mut env, xs) = after_base();
    let seed = channel.coin.seed.clone();
    let extension = vec![vec![f(9), f(10), f(11), f(12)]];
    env.columns.push(extension[0].clone());
    let air = AirConfig { num_base_columns: 2, num_extension_columns: 1, ce_blowup_factor: 1 };
    let constraints = vec![Constraint {
        expr: Expr::Trace(2, 0),
        divisor: Divisor::Terminal,
        degree_adjustment: 0,
    }];
    let (committed, evals) = composition_phase(
        &mut channel,
        Some(extension.clone()),
        &constraints,
        &env,
        &air,
        2,
        &root_of_unity(2),
        &xs,
    )
    .ok()
    .unwrap();
    let root = commit_to_rows(&extension, 4).ok().unwrap().root();
    assert_eq!(committed.unwrap().tree.root(), root);
    assert_eq!(channel.extension_trace_root, Some(root.clone()));
    assert_eq!(channel.coin.seed, hash_pair(&seed, &root));
    assert_eq!(channel.stage, Stage::ChallengesDrawn);
    assert_eq!(evals.len(), 4);
}

#[test]
fn composition_phase_refuses_before_it_absorbs() {
    let g = root_of_unity(2);
    let cell = |column: usize| {
        vec![Constraint {
            expr: Expr::Trace(column, 0),
            divisor: Divisor::Boundary,
            degree_adjustment: 0,
        }]
    };
    // a constraint on a column that is not there
    let (mut channel, env, xs) = after_base();
    let seed = channel.coin.seed.clone();
    assert!(!constraints_in_scope(&cell(2), &env));
    assert!(constraints_in_scope(&cell(1), &env));
    assert!(matches!(
        composition_phase(&mut channel, None, &cell(2), &env, &small_air(), 2, &g, &xs),
        Err(ProvingError::InvalidConstraint)
    ));
    // a constraint of too high a degree: 3 * 1 - 1 is not below 1 * 2
    let cube = vec![Constraint {
        expr: Expr::Pow(b(Expr::Trace(0, 0)), 3),
        divisor: Divisor::Boundary,
        degree_adjustment: 0,
    }];
    assert!(matches!(
        composition_phase(&mut channel, None, &cube, &env, &small_air(), 2, &g, &xs),
        Err(ProvingError::InvalidConstraint)
    ));
    // an extension trace that the AIR does not declare, and one that is missing
    assert!(matches!(
        composition_phase(
            &mut channel,
            Some(vec![vec![f(1); 4]]),
            &cell(1),
            &env,
            &small_air(),
            2,
            &g,
            &xs
        ),
        Err(ProvingError::ConfigError)
    ));
    let air = AirConfig { num_base_columns: 2, num_extension_columns: 1, ce_blowup_factor: 1 };
    assert!(matches!(
        composition_phase(&mut channel, None, &cell(1), &env, &air, 2, &g, &xs),
        Err(ProvingError::ConfigError)
    ));
    assert!(matches!(
        composition_phase(&mut channel, Some(vec![vec![f(1); 3]]), &cell(1), &env, &air, 2, &g, &xs),
        Err(ProvingError::ConfigError)
    ));
    assert_eq!(channel.stage, Stage::BaseCommitted);
    assert_eq!(channel.coin.seed, seed);
    assert_eq!(channel.coin.counter, 0);
}

#[test]
fn composition_trace_is_committed_after_the_coefficients() {
    let (mut channel, env, xs) = after_base();
    composition_phase(&mut channel, None, &vec![], &env, &small_air(), 2, &root_of_unity(2), &xs)
        .ok()
        .unwrap();
    let seed = channel.coin.seed.clone();
    let lde = vec![vec![f(3), f(1), f(4), f(1)]];
    let committed = composition_commit_phase(&mut channel, lde.clone(), 4).ok().unwrap();
    let root = commit_to_rows(&lde, 4).ok().unwrap().root();
    assert_eq!(committed.tree.root(), root);
    assert_eq!(channel.composition_trace_root, root);
    assert_eq!(channel.coin.seed, hash_pair(&seed, &root));
    assert_eq!(channel.stage, Stage::CompositionCommitted);
}

#[test]
fn deep_phase_refuses_matrices_that_do_not_fit() {
    let (mut channel, env, xs) = after_base();
    composition_phase(&mut channel, None, &vec![], &env, &small_air(), 2, &root_of_unity(2), &xs)
        .ok()
        .unwrap();
    let lde = vec![vec![f(3), f(1), f(4), f(1)]];
    composition_commit_phase(&mut channel, lde.clone(), 4).ok().unwrap();
    let seed = channel.coin.seed.clone();
    let polys = vec![vec![f(1), f(2)], vec![f(3), f(4)]];
    let segments = vec![vec![f(5), f(6)]];
    let g = root_of_unity(2);
    // one execution column is missing
    let short = vec![env.columns[0].clone()];
    assert!(matches!(
        deep_phase(&mut channel, &polys, &segments, &short, &lde, &xs, &f(7), &g),
        Err(ProvingError::ConfigError)
    ));
    // the domain has more points than the columns have rows
    let long = coset(&f(7), 8);
    assert!(matches!(
        deep_phase(&mut channel, &polys, &segments, &env.columns, &lde, &long, &f(7), &g),
        Err(ProvingError::ConfigError)
    ));
    assert_eq!(channel.stage, Stage::CompositionCommitted);
    assert_eq!(channel.coin.seed, seed);
    assert_eq!(channel.coin.counter, 0);
    // the openings are absorbed, execution before composition, before the coefficients
    let deep = deep_phase(&mut channel, &polys, &segments, &env.columns, &lde, &xs, &f(7), &g)
        .ok()
        .unwrap();
    let here = felts_bytes(&deep.composer.trace_oods);
    let next = felts_bytes(&deep.composer.trace_next_oods);
    let states: Vec<u8> = here.into_iter().chain(next).collect();
    let absorbed = hash_pair(&hash_pair(&seed, &states), &felts_bytes(&deep.composer.composition_oods));
    assert_eq!(channel.coin.seed, absorbed);
    let mut coin = PublicCoin { seed: absorbed, counter: 0 };
    let coeffs = coin.draw_felts(5).unwrap();
    assert_eq!(deep.composer.trace_coeffs, coeffs[0..2].to_vec());
    assert_eq!(deep.composer.trace_next_coeffs, coeffs[2..4].to_vec());
    assert_eq!(deep.composer.composition_coeffs, coeffs[4..5].to_vec());
}

fn felts_bytes(elements: &Vec<Felt>) -> Vec<u8> {
    elements.iter().flat_map(|e| e.to_canonical().to_le_bytes()).collect()
}

#[test]
fn remainder_stands_on_the_folded_domain() {
    let offset = f(7);
    let evals = evaluations(&(1..=4).map(f).collect(), &offset, 32);
    let mut channel = channel_before_fri();
    let folded = FriProver::build_layers(
        FriOptions::new(8, 2, 4),
        &mut channel,
        evals.clone(),
        &offset,
        &root_of_unity(32),
    )
    .ok()
    .unwrap();
    // three layers: the last stands on the offset raised to the 4th power
    assert_eq!(remainder_offset(&folded, &offset), offset.pow(8));
    let mut other = channel_before_fri();
    let unfolded = FriProver::build_layers(
        FriOptions::new(8, 2, 64),
        &mut other,
        evals,
        &offset,
        &root_of_unity(32),
    )
    .ok()
    .unwrap();
    assert_eq!(remainder_offset(&unfolded, &offset), offset);
}

#[test]
fn query_phase_refuses_what_it_cannot_open() {
    let options = ProofOptions::new(4, 8, 0).unwrap();
    let info = TraceInfo { trace_len: 1, num_base_columns: 1, num_extension_columns: 0 };
    let lde = vec![(0..8).map(f).collect::<Vec<Felt>>()];
    let committed = || commit_matrix(lde.clone(), 8).ok().unwrap();
    let small = commit_matrix(vec![vec![f(1)]], 1).ok().unwrap();
    let ready = || {
        let mut channel = channel_before_fri();
        channel.commit_fri_remainder(vec![]);
        channel
    };
    let base = committed();
    let composition = committed();
    assert!(query_phase(ready(), options, info, &base, &None, &composition, &vec![], 8, 8).is_ok());
    assert!(matches!(
        query_phase(ready(), options, info, &base, &None, &composition, &vec![], 8, 0),
        Err(ProvingError::ConfigError)
    ));
    assert!(matches!(
        query_phase(ready(), options, info, &base, &None, &small, &vec![], 8, 8),
        Err(ProvingError::ConfigError)
    ));
    assert!(matches!(
        query_phase(ready(), options, info, &base, &Some(small), &composition, &vec![], 8, 8),
        Err(ProvingError::ConfigError)
    ));
}
