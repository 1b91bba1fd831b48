use ministark::composer::{Constraint, Divisor};
use ministark::error::ProvingError;
use ministark::expr::{Environment, Expr};
use ministark::field::{Felt, MODULUS};
use ministark::memory_constraints::{NUM_CHALLENGES, NUM_TERMINALS};
use ministark::memory_table::{make_dummy_after, pointer_key, MemoryTable};
use ministark::prover::validate_constraints;

fn f(v: u64) -> Felt {
    Felt::new(v)
}

fn processor_row(cycle: u64, instr: u64, mp: u64, mem_val: u64) -> [Felt; 7] {
    [f(cycle), f(0), f(instr), f(0), f(mp), f(mem_val), f(0)]
}

fn row(cycle: u64, mp: u64, mem_val: u64, dummy: u64) -> [Felt; 4] {
    [f(cycle), f(mp), f(mem_val), f(dummy)]
}

fn sample_matrix() -> Vec<[Felt; 4]> {
    MemoryTable::derive_matrix(&[
        processor_row(0, 43, 0, 0),
        processor_row(1, 62, 0, 1),
        processor_row(2, 43, 1, 0),
        processor_row(3, 60, 1, 1),
        processor_row(4, 43, 0, 1),
        processor_row(5, 0, 0, 2),
    ])
}

fn columns_of(matrix: &Vec<[Felt; 4]>, width: usize) -> Vec<Vec<Felt>> {
    let mut columns = Vec::new();
    for c in 0..width {
        columns.push(matrix.iter().map(|r| r[c]).collect::<Vec<Felt>>());
    }
    columns
}

fn transitions(exprs: Vec<Expr>) -> Vec<Constraint> {
    exprs
        .into_iter()
        .map(|expr| Constraint { expr, divisor: Divisor::Transition, degree_adjustment: 0 })
        .collect()
}

#[test]
fn new_table_is_empty() {
    let table = MemoryTable::new(3);
    assert_eq!(table.num_randomizers, 3);
    assert_eq!(table.num_padded_rows, 0);
    assert!(table.matrix.is_empty());
    assert_eq!(table.len(), 0);
}

#[test]
fn derive_matrix_sorts_by_pointer_and_fills_cycle_jumps() {
    assert_eq!(
        sample_matrix(),
        vec![
            row(0, 0, 0, 0),
            row(1, 0, 1, 0),
            row(2, 0, 1, 1),
            row(3, 0, 1, 1),
            row(4, 0, 1, 0),
            row(2, 1, 0, 0),
            row(3, 1, 1, 0),
        ]
    );
}

#[test]
fn derive_matrix_drops_rows_without_instruction() {
    let matrix = MemoryTable::derive_matrix(&[
        processor_row(0, 0, 0, 0),
        processor_row(1, 43, 0, 0),
        processor_row(2, 0, 0, 1),
    ]);
    assert_eq!(matrix, vec![row(1, 0, 0, 0)]);
    assert!(MemoryTable::derive_matrix(&[]).is_empty());
    assert!(MemoryTable::derive_matrix(&[processor_row(0, 0, 0, 0)]).is_empty());
}

#[test]
fn derive_matrix_keeps_processor_order_within_a_cell() {
    let matrix = MemoryTable::derive_matrix(&[
        processor_row(0, 43, 2, 0),
        processor_row(1, 43, 1, 7),
        processor_row(2, 43, 2, 1),
        processor_row(3, 43, 0, 9),
    ]);
    assert_eq!(
        matrix,
        vec![row(3, 0, 9, 0), row(1, 1, 7, 0), row(0, 2, 0, 0), row(1, 2, 0, 1), row(2, 2, 1, 0)]
    );
}

#[test]
fn derive_matrix_makes_one_pass_over_the_pairs_it_starts_with() {
    // Two rows make one pair, so one step: a jump of five cycles gets one dummy row.
    let matrix =
        MemoryTable::derive_matrix(&[processor_row(0, 43, 0, 4), processor_row(5, 43, 0, 4)]);
    assert_eq!(matrix, vec![row(0, 0, 4, 0), row(1, 0, 4, 1), row(5, 0, 4, 0)]);
}

#[test]
fn pointer_key_is_the_canonical_pointer() {
    assert_eq!(pointer_key(&row(9, 5, 1, 0)), 5);
    assert_eq!(pointer_key(&[f(0), Felt { raw: MODULUS + 2 }, f(0), f(0)]), 2);
}

#[test]
fn dummy_row_follows_its_row() {
    assert_eq!(make_dummy_after(&row(4, 2, 9, 0)), row(5, 2, 9, 1));
    assert_eq!(make_dummy_after(&row(MODULUS - 1, 2, 9, 1)), row(0, 2, 9, 1));
}

#[test]
fn pad_repeats_the_last_row_as_dummies() {
    let mut table = MemoryTable::new(0);
    table.set_matrix(vec![row(0, 0, 0, 0), row(1, 0, 5, 0)]);
    assert_eq!(table.len(), 2);
    table.pad(5);
    assert_eq!(
        table.matrix,
        vec![row(0, 0, 0, 0), row(1, 0, 5, 0), row(2, 0, 5, 1), row(3, 0, 5, 1), row(4, 0, 5, 1)]
    );
    assert_eq!(table.num_padded_rows, 3);
    assert_eq!(table.len(), 2);
    table.pad(3);
    assert_eq!(table.matrix.len(), 5);
    assert_eq!(table.len(), 2);
}

#[test]
fn set_matrix_forgets_the_padding() {
    let mut table = MemoryTable::new(1);
    table.set_matrix(vec![row(0, 0, 0, 0)]);
    table.pad(4);
    assert_eq!(table.num_padded_rows, 3);
    table.set_matrix(vec![row(0, 0, 0, 0), row(1, 0, 0, 0)]);
    assert_eq!(table.num_padded_rows, 0);
    assert_eq!(table.len(), 2);
    assert_eq!(table.num_randomizers, 1);
}

#[test]
fn counts_of_constraints() {
    let challenges = vec![f(1); NUM_CHALLENGES];
    let terminals = vec![f(1); NUM_TERMINALS];
    assert_eq!(MemoryTable::base_boundary_constraints().len(), 3);
    assert_eq!(MemoryTable::base_transition_constraints().len(), 6);
    assert_eq!(MemoryTable::transition_constraints().len(), 6);
    assert_eq!(MemoryTable::extension_boundary_constraints(&challenges).len(), 4);
    assert_eq!(MemoryTable::extension_transition_constraints(&challenges).len(), 7);
    assert_eq!(MemoryTable::extension_terminal_constraints(&challenges, &terminals).len(), 1);
}

#[test]
fn boundary_constraints_are_the_first_three_cells() {
    assert_eq!(
        MemoryTable::base_boundary_constraints(),
        vec![Expr::Trace(0, 0), Expr::Trace(1, 0), Expr::Trace(2, 0)]
    );
}

#[test]
fn derived_matrix_satisfies_the_transition_constraints() {
    let matrix = sample_matrix();
    let env = Environment {
        blowup: 1,
        columns: columns_of(&matrix, 4),
        challenges: vec![],
        hints: vec![],
    };
    let xs = vec![f(1); matrix.len()];
    let constraints = transitions(MemoryTable::base_transition_constraints());
    assert_eq!(validate_constraints(&constraints, &env, &xs), Ok(()));
}

#[test]
fn padded_matrix_satisfies_the_transition_constraints() {
    let mut table = MemoryTable::new(0);
    table.set_matrix(sample_matrix());
    table.pad(16);
    let env = Environment {
        blowup: 1,
        columns: columns_of(&table.matrix, 4),
        challenges: vec![],
        hints: vec![],
    };
    let xs = vec![f(1); 16];
    let constraints = transitions(MemoryTable::base_transition_constraints());
    assert_eq!(validate_constraints(&constraints, &env, &xs), Ok(()));
}

#[test]
fn tampered_cell_fails_validation() {
    let mut matrix = sample_matrix();
    // the memory value changes on a dummy row
    matrix[3][2] = f(2);
    let env = Environment {
        blowup: 1,
        columns: columns_of(&matrix, 4),
        challenges: vec![],
        hints: vec![],
    };
    let xs = vec![f(1); matrix.len()];
    let constraints = transitions(MemoryTable::base_transition_constraints());
    assert_eq!(
        validate_constraints(&constraints, &env, &xs),
        Err(ProvingError::DebugAssertionFailure)
    );
}

#[test]
fn first_row_of_derived_matrix_meets_the_boundary() {
    let matrix = sample_matrix();
    let env = Environment {
        blowup: 1,
        columns: columns_of(&matrix, 4),
        challenges: vec![],
        hints: vec![],
    };
    let xs = vec![f(1); matrix.len()];
    let constraints: Vec<Constraint> = MemoryTable::base_boundary_constraints()
        .into_iter()
        .map(|expr| Constraint { expr, divisor: Divisor::Boundary, degree_adjustment: 0 })
        .collect();
    assert_eq!(validate_constraints(&constraints, &env, &xs), Ok(()));
}

/// The running product of the memory table: it takes up the compressed row
/// on every row that is no dummy.
fn with_permutation(matrix: &Vec<[Felt; 4]>, challenges: &Vec<Felt>) -> (Vec<Vec<Felt>>, Felt) {
    let (d, e, g, beta) = (challenges[3], challenges[4], challenges[5], challenges[7]);
    let mut columns = columns_of(matrix, 4);
    let mut running = f(1);
    let mut permutation = Vec::new();
    for r in matrix.iter() {
        permutation.push(running);
        if r[3].is_zero() {
            let compressed = beta.sub(&r[0].mul(&d)).sub(&r[1].mul(&e)).sub(&r[2].mul(&g));
            running = running.mul(&compressed);
        }
    }
    columns.push(permutation);
    (columns, running)
}

#[test]
fn running_product_satisfies_the_extension_constraints() {
    let matrix = sample_matrix();
    let challenges: Vec<Felt> = (0..11u64).map(|i| f(1000 + 17 * i)).collect();
    let (columns, terminal) = with_permutation(&matrix, &challenges);
    let terminals = vec![f(0), terminal, f(0), f(0), f(0)];
    let env = Environment { blowup: 1, columns, challenges: vec![], hints: vec![] };
    let xs = vec![f(1); matrix.len()];
    let mut constraints = transitions(MemoryTable::extension_transition_constraints(&challenges));
    for expr in MemoryTable::extension_boundary_constraints(&challenges) {
        constraints.push(Constraint { expr, divisor: Divisor::Boundary, degree_adjustment: 0 });
    }
    for expr in MemoryTable::extension_terminal_constraints(&challenges, &terminals) {
        constraints.push(Constraint { expr, divisor: Divisor::Terminal, degree_adjustment: 0 });
    }
    assert_eq!(validate_constraints(&constraints, &env, &xs), Ok(()));
}

#[test]
fn corrupted_memory_row_breaks_the_permutation_argument() {
    let matrix = sample_matrix();
    let challenges: Vec<Felt> = (0..11u64).map(|i| f(1000 + 17 * i)).collect();
    let (mut columns, terminal) = with_permutation(&matrix, &challenges);
    // the memory value of a row changes after the running product was built
    columns[2][1] = f(3);
    let terminals = vec![f(0), terminal, f(0), f(0), f(0)];
    let env = Environment { blowup: 1, columns, challenges: vec![], hints: vec![] };
    let xs = vec![f(1); matrix.len()];
    let constraints = transitions(MemoryTable::extension_transition_constraints(&challenges));
    assert_eq!(
        validate_constraints(&constraints, &env, &xs),
        Err(ProvingError::DebugAssertionFailure)
    );
}

#[test]
fn wrong_terminal_breaks_the_terminal_constraint() {
    let matrix = sample_matrix();
    let challenges: Vec<Felt> = (0..11u64).map(|i| f(1000 + 17 * i)).collect();
    let (columns, terminal) = with_permutation(&matrix, &challenges);
    let terminals = vec![f(0), terminal.add(&f(1)), f(0), f(0), f(0)];
    let env = Environment { blowup: 1, columns, challenges: vec![], hints: vec![] };
    let xs = vec![f(1); matrix.len()];
    let constraints: Vec<Constraint> =
        MemoryTable::extension_terminal_constraints(&challenges, &terminals)
            .into_iter()
            .map(|expr| Constraint { expr, divisor: Divisor::Terminal, degree_adjustment: 0 })
            .collect();
    assert_eq!(
        validate_constraints(&constraints, &env, &xs),
        Err(ProvingError::DebugAssertionFailure)
    );
}

#[test]
fn constraint_on_a_missing_column_is_invalid() {
    let matrix = sample_matrix();
    let env = Environment {
        blowup: 1,
        columns: columns_of(&matrix, 4),
        challenges: vec![],
        hints: vec![],
    };
    let xs = vec![f(1); matrix.len()];
    let challenges = vec![f(1); 11];
    // the permutation column is not there
    let constraints = transitions(MemoryTable::extension_transition_constraints(&challenges));
    assert_eq!(
        validate_constraints(&constraints, &env, &xs),
        Err(ProvingError::InvalidConstraint)
    );
}

#[test]
fn extended_table_has_degree_three() {
    assert_eq!(MemoryTable::new(0).max_degree(), Some(3));
    let challenges = vec![f(1); NUM_CHALLENGES];
    let degrees: Vec<Option<usize>> = MemoryTable::extension_transition_constraints(&challenges)
        .iter()
        .map(|c| c.degree())
        .collect();
    assert_eq!(
        degrees,
        vec![Some(2), Some(2), Some(2), Some(2), Some(2), Some(2), Some(3)]
    );
    let terminals = vec![f(1); NUM_TERMINALS];
    assert_eq!(
        MemoryTable::extension_terminal_constraints(&challenges, &terminals)[0].degree(),
        Some(3)
    );
}

#[test]
fn row_and_its_dummy_satisfy_the_transition_constraints() {
    for first in [row(0, 0, 0, 0), row(MODULUS - 1, 5, 9, 0), row(7, 3, 2, 1)] {
        let matrix = vec![first, make_dummy_after(&first)];
        let env = Environment {
            blowup: 1,
            columns: columns_of(&matrix, 4),
            challenges: vec![],
            hints: vec![],
        };
        let constraints = transitions(MemoryTable::transition_constraints());
        assert_eq!(validate_constraints(&constraints, &env, &vec![f(1); 2]), Ok(()));
    }
}
