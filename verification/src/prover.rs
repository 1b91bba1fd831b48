use vstd::prelude::*;
use crate::channel::{successor, Stage, Step};
use crate::composer::{all_in_scope, Constraint, Divisor};
use crate::error::ProvingError;
use crate::expr::{eval_spec, in_scope, Environment};
use crate::field::Felt;
use crate::options::{is_power_of_two, word_is_power_of_two, ProofOptions};
use crate::stark_proof::TraceInfo;

verus! {

/// What an AIR declares of its trace: the numbers of columns, and the blowup
/// factor that the degree of its constraints needs.
#[derive(Debug, Clone, Copy, PartialEq, Eq, Structural)]
pub struct AirConfig {
    pub num_base_columns: usize,
    pub num_extension_columns: usize,
    pub ce_blowup_factor: usize,
}

/// The trace fits the AIR and the options: its length is a power of two, it
/// has the declared numbers of columns, and the constraints need no larger
/// blowup than the evaluation domain has.
pub open spec fn dimensions_ok(
    air: AirConfig,
    options: ProofOptions,
    trace_len: usize,
    num_base_columns: usize,
    num_extension_columns: usize,
) -> bool {
    &&& is_power_of_two(trace_len as int)
    &&& num_base_columns == air.num_base_columns
    &&& num_extension_columns == air.num_extension_columns
    &&& air.ce_blowup_factor <= options.blowup_factor
}

/// The step that the prover takes next at a stage; none once the proof is
/// built. After the base trace, the extension trace is committed where the
/// AIR has one.
pub open spec fn planned_step(stage: Stage, has_extension: bool) -> Option<Step> {
    match stage {
        Stage::Init => Some(Step::CommitBaseTrace),
        Stage::BaseCommitted => if has_extension {
            Some(Step::CommitExtensionTrace)
        } else {
            Some(Step::DrawChallenges)
        },
        Stage::ExtensionCommitted => Some(Step::DrawChallenges),
        Stage::ChallengesDrawn => Some(Step::CommitCompositionTrace),
        Stage::CompositionCommitted => Some(Step::DrawOodPoint),
        Stage::OodDrawn => Some(Step::SendOodEvals),
        Stage::OodEvalsSent => Some(Step::DrawDeepCoeffs),
        Stage::DeepCoeffsDrawn => Some(Step::CommitFri),
        Stage::FriCommitted => Some(Step::Grind),
        Stage::Grinded => Some(Step::DrawQueries),
        Stage::QueriesDrawn => Some(Step::BuildProof),
        Stage::ProofBuilt => None,
    }
}

/// The stage reached from `stage` by following the plan for `steps` steps.
pub open spec fn stage_after(stage: Stage, has_extension: bool, steps: nat) -> Stage
    decreases steps,
{
    if steps == 0 {
        stage
    } else {
        match planned_step(stage, has_extension) {
            Some(step) => match successor(stage, step) {
                Some(next) => stage_after(next, has_extension, (steps - 1) as nat),
                None => stage,
            },
            None => stage,
        }
    }
}

/// The planned step is always in order.
pub proof fn lemma_plan_is_in_order(stage: Stage, has_extension: bool)
    requires
        stage != Stage::ProofBuilt,
    ensures
        planned_step(stage, has_extension) is Some,
        successor(stage, planned_step(stage, has_extension)->Some_0) is Some,
{
}

/// Following the plan from the start builds the proof: in eleven steps with
/// an extension trace, in ten without.
pub proof fn lemma_plan_builds_proof(has_extension: bool)
    ensures
        stage_after(
            Stage::Init,
            has_extension,
            if has_extension {
                11
            } else {
                10
            },
        ) == Stage::ProofBuilt,
{
    reveal_with_fuel(stage_after, 12);
}

/// The rows on which a constraint with this divisor has to vanish, as a
/// half-open range of a trace of `n` rows.
pub open spec fn claimed_rows(divisor: Divisor, n: int) -> (int, int) {
    match divisor {
        Divisor::Boundary => (0, if n > 0 {
            1
        } else {
            0
        }),
        Divisor::Terminal => (if n > 0 {
            n - 1
        } else {
            0
        }, n),
        Divisor::Transition => (0, if n > 0 {
            n - 1
        } else {
            0
        }),
    }
}

/// The constraint is in scope and vanishes on row `row` of the trace.
pub open spec fn holds_on_row(constraint: Constraint, env: Environment, xs: Seq<Felt>, row: int) -> bool {
    in_scope(constraint.expr, env) && eval_spec(constraint.expr, env, xs[row].value(), row) == 0
}

/// The constraint holds on every row that it claims.
pub open spec fn constraint_holds(constraint: Constraint, env: Environment, xs: Seq<Felt>) -> bool {
    forall|row: int|
        claimed_rows(constraint.divisor, xs.len() as int).0 <= row < claimed_rows(
            constraint.divisor,
            xs.len() as int,
        ).1 ==> #[trigger] holds_on_row(constraint, env, xs, row)
}

/// The step to take next.
pub fn next_step(stage: Stage, has_extension: bool) -> (r: Option<Step>)
    ensures
        r == planned_step(stage, has_extension),
        r is Some ==> successor(stage, r->Some_0) is Some,
{
    match stage {
        Stage::Init => Some(Step::CommitBaseTrace),
        Stage::BaseCommitted => if has_extension {
            Some(Step::CommitExtensionTrace)
        } else {
            Some(Step::DrawChallenges)
        },
        Stage::ExtensionCommitted => Some(Step::DrawChallenges),
        Stage::ChallengesDrawn => Some(Step::CommitCompositionTrace),
        Stage::CompositionCommitted => Some(Step::DrawOodPoint),
        Stage::OodDrawn => Some(Step::SendOodEvals),
        Stage::OodEvalsSent => Some(Step::DrawDeepCoeffs),
        Stage::DeepCoeffsDrawn => Some(Step::CommitFri),
        Stage::FriCommitted => Some(Step::Grind),
        Stage::Grinded => Some(Step::DrawQueries),
        Stage::QueriesDrawn => Some(Step::BuildProof),
        Stage::ProofBuilt => None,
    }
}

/// Checks the dimensions of a trace against the AIR and the options before
/// any work is done on it.
pub fn check_dimensions(
    air: &AirConfig,
    options: &ProofOptions,
    trace_len: usize,
    num_base_columns: usize,
    num_extension_columns: usize,
) -> (r: Result<TraceInfo, ProvingError>)
    ensures
        dimensions_ok(*air, *options, trace_len, num_base_columns, num_extension_columns) ==> r
            == Ok::<TraceInfo, ProvingError>(
            (TraceInfo { trace_len, num_base_columns, num_extension_columns }),
        ),
        !dimensions_ok(*air, *options, trace_len, num_base_columns, num_extension_columns) ==> r
            == Err::<TraceInfo, ProvingError>(ProvingError::ConfigError),
{
    if !word_is_power_of_two(trace_len) {
        return Err(ProvingError::ConfigError);
    }
    if num_base_columns != air.num_base_columns || num_extension_columns
        != air.num_extension_columns {
        return Err(ProvingError::ConfigError);
    }
    if air.ce_blowup_factor > options.blowup_factor as usize {
        return Err(ProvingError::ConfigError);
    }
    Ok(TraceInfo { trace_len, num_base_columns, num_extension_columns })
}

/// Checks one constraint on the rows `lo..hi` of the trace.
pub fn validate_on_rows(
    constraint: &Constraint,
    env: &Environment,
    xs: &Vec<Felt>,
    lo: usize,
    hi: usize,
) -> (r: Result<(), ProvingError>)
    requires
        env.wf(),
        lo <= hi <= xs@.len(),
    ensures
        r is Ok <==> forall|row: int| lo <= row < hi ==> #[trigger] holds_on_row(*constraint, *env, xs@, row),
        r is Err ==> if in_scope(constraint.expr, *env) {
            r->Err_0 == ProvingError::DebugAssertionFailure
        } else {
            r->Err_0 == ProvingError::InvalidConstraint
        },
{
    let mut row: usize = lo;
    while row < hi
        invariant
            env.wf(),
            lo <= row <= hi,
            hi <= xs@.len(),
            forall|k: int| lo <= k < row ==> #[trigger] holds_on_row(*constraint, *env, xs@, k),
        decreases hi - row,
    {
        match constraint.expr.eval(env, &xs[row], row) {
            Ok(value) => {
                if !value.is_zero() {
                    assert(!holds_on_row(*constraint, *env, xs@, row as int));
                    return Err(ProvingError::DebugAssertionFailure);
                }
            },
            Err(_) => {
                assert(!holds_on_row(*constraint, *env, xs@, row as int));
                return Err(ProvingError::InvalidConstraint);
            },
        }
        row += 1;
    }
    Ok(())
}

/// Checks that every constraint vanishes on the rows that it claims: the
/// first row, the last row, or every row but the last. The environment holds
/// the trace itself, and `xs` the points of the trace domain, one for each
/// row.
pub fn validate_constraints(constraints: &Vec<Constraint>, env: &Environment, xs: &Vec<Felt>) -> (r:
    Result<(), ProvingError>)
    requires
        env.wf(),
    ensures
        r is Ok <==> forall|i: int|
            0 <= i < constraints@.len() ==> constraint_holds(#[trigger] constraints@[i], *env, xs@),
        r is Err ==> r->Err_0 == ProvingError::DebugAssertionFailure || r->Err_0
            == ProvingError::InvalidConstraint,
        r is Err && all_in_scope(constraints@, *env) ==> r->Err_0
            == ProvingError::DebugAssertionFailure,
        r is Err && r->Err_0 == ProvingError::InvalidConstraint ==> !all_in_scope(
            constraints@,
            *env,
        ),
{
    let n: usize = xs.len();
    let mut i: usize = 0;
    while i < constraints.len()
        invariant
            env.wf(),
            n == xs@.len(),
            i <= constraints@.len(),
            forall|k: int| 0 <= k < i ==> constraint_holds(#[trigger] constraints@[k], *env, xs@),
        decreases constraints@.len() - i,
    {
        let constraint = &constraints[i];
        let (lo, hi): (usize, usize) = match constraint.divisor {
            Divisor::Boundary => (0, if n > 0 {
                1
            } else {
                0
            }),
            Divisor::Terminal => (if n > 0 {
                n - 1
            } else {
                0
            }, n),
            Divisor::Transition => (0, if n > 0 {
                n - 1
            } else {
                0
            }),
        };
        match validate_on_rows(constraint, env, xs, lo, hi) {
            Ok(_) => {},
            Err(e) => {
                assert(!constraint_holds(constraints@[i as int], *env, xs@));
                return Err(e);
            },
        }
        i += 1;
    }
    Ok(())
}

} // verus!
