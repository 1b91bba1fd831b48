use vstd::prelude::*;
use crate::error::ProvingError;
use crate::field::{fadd, finv, fmul, fsub, Felt};

verus! {

/// The sum over the first `n` columns of `coefficient * (value - opening)`.
pub open spec fn weighted_differences_of(
    coefficients: Seq<Felt>,
    values: Seq<Felt>,
    openings: Seq<Felt>,
    n: nat,
) -> int
    decreases n,
{
    if n == 0 {
        0
    } else {
        fadd(
            weighted_differences_of(coefficients, values, openings, (n - 1) as nat),
            fmul(
                coefficients[n - 1].value(),
                fsub(values[n - 1].value(), openings[n - 1].value()),
            ),
        )
    }
}

/// One group of quotients of the DEEP composition at `x`: the weighted
/// differences between the columns and their openings at `point`, divided by
/// `x - point`.
pub open spec fn quotient_of(
    coefficients: Seq<Felt>,
    values: Seq<Felt>,
    openings: Seq<Felt>,
    x: int,
    point: int,
) -> int {
    fmul(
        weighted_differences_of(coefficients, values, openings, values.len()),
        finv(fsub(x, point)),
    )
}

/// What the DEEP composition takes at one point `x` of the evaluation
/// domain.
pub struct DeepRow {
    /// The values of the execution trace columns on this row.
    pub trace_values: Vec<Felt>,
    /// The values of the composition trace columns on this row.
    pub composition_values: Vec<Felt>,
}

/// The openings and coefficients of the DEEP composition, the same for every
/// row.
pub struct DeepComposer {
    /// The out-of-domain point `z`.
    pub z: Felt,
    /// The point after it: `z` times the generator of the trace domain.
    pub z_next: Felt,
    /// The point at which the composition trace is opened.
    pub z_composition: Felt,
    pub trace_oods: Vec<Felt>,
    pub trace_next_oods: Vec<Felt>,
    pub composition_oods: Vec<Felt>,
    pub trace_coeffs: Vec<Felt>,
    pub trace_next_coeffs: Vec<Felt>,
    pub composition_coeffs: Vec<Felt>,
}

impl DeepComposer {
    /// There is one opening at each point, and one coefficient, for every
    /// column.
    pub open spec fn wf(&self) -> bool {
        &&& self.trace_next_oods@.len() == self.trace_oods@.len()
        &&& self.trace_coeffs@.len() == self.trace_oods@.len()
        &&& self.trace_next_coeffs@.len() == self.trace_oods@.len()
        &&& self.composition_coeffs@.len() == self.composition_oods@.len()
    }

    /// The row has as many values as the composer has columns.
    pub open spec fn fits(&self, row: &DeepRow) -> bool {
        &&& row.trace_values@.len() == self.trace_oods@.len()
        &&& row.composition_values@.len() == self.composition_oods@.len()
    }

    /// The DEEP composition at `x`: the three groups of quotients, for the
    /// openings at `z`, at the next point and of the composition trace.
    pub open spec fn value_of(&self, row: &DeepRow, x: int) -> int {
        self.value_for(row.trace_values@, row.composition_values@, x)
    }

    /// The rows of the two matrices fit the composer, and every column has
    /// one value for each point.
    pub open spec fn fits_domain(
        &self,
        trace: Seq<Vec<Felt>>,
        composition: Seq<Vec<Felt>>,
        n: nat,
    ) -> bool {
        &&& self.wf()
        &&& trace.len() == self.trace_oods@.len()
        &&& composition.len() == self.composition_oods@.len()
        &&& columns_are(trace, n)
        &&& columns_are(composition, n)
    }

    /// The DEEP composition at `x` for a row given by its cells.
    pub open spec fn value_for(
        &self,
        trace_values: Seq<Felt>,
        composition_values: Seq<Felt>,
        x: int,
    ) -> int {
        fadd(
            fadd(
                quotient_of(self.trace_coeffs@, trace_values, self.trace_oods@, x, self.z.value()),
                quotient_of(
                    self.trace_next_coeffs@,
                    trace_values,
                    self.trace_next_oods@,
                    x,
                    self.z_next.value(),
                ),
            ),
            quotient_of(
                self.composition_coeffs@,
                composition_values,
                self.composition_oods@,
                x,
                self.z_composition.value(),
            ),
        )
    }

    /// Evaluates the DEEP composition on the whole evaluation domain: row
    /// `i` of the two extended traces at the point `xs[i]`. Matrices whose
    /// dimensions do not fit are refused.
    pub fn evaluate_on_domain(
        &self,
        trace: &Vec<Vec<Felt>>,
        composition: &Vec<Vec<Felt>>,
        xs: &Vec<Felt>,
    ) -> (r: Result<Vec<Felt>, ProvingError>)
        ensures
            self.fits_domain(trace@, composition@, xs@.len()) ==> r is Ok && r->Ok_0@.len()
                == xs@.len() && forall|i: int|
                0 <= i < xs@.len() ==> (#[trigger] r->Ok_0@[i]).is_canonical() && r->Ok_0@[i].value()
                    == self.value_for(cells_at(trace@, i), cells_at(composition@, i), xs@[i].value()),
            !self.fits_domain(trace@, composition@, xs@.len()) ==> r == Err::<
                Vec<Felt>,
                ProvingError,
            >(ProvingError::ConfigError),
    {
        if !self.is_well_formed() || trace.len() != self.trace_oods.len() || composition.len()
            != self.composition_oods.len() || !columns_have_length(trace, xs.len())
            || !columns_have_length(composition, xs.len()) {
            return Err(ProvingError::ConfigError);
        }
        let mut out: Vec<Felt> = Vec::new();
        let mut i: usize = 0;
        while i < xs.len()
            invariant
                i <= xs@.len(),
                self.fits_domain(trace@, composition@, xs@.len()),
                out@.len() == i,
                forall|k: int|
                    0 <= k < i ==> (#[trigger] out@[k]).is_canonical() && out@[k].value()
                        == self.value_for(
                        cells_at(trace@, k),
                        cells_at(composition@, k),
                        xs@[k].value(),
                    ),
            decreases xs@.len() - i,
        {
            let row = DeepRow {
                trace_values: row_cells(trace, i),
                composition_values: row_cells(composition, i),
            };
            match self.evaluate(&row, &xs[i]) {
                Ok(value) => {
                    out.push(value);
                },
                Err(e) => {
                    return Err(ProvingError::ConfigError);
                },
            }
            i += 1;
        }
        Ok(out)
    }

    /// Whether the counts of openings and coefficients agree.
    pub fn is_well_formed(&self) -> (r: bool)
        ensures
            r == self.wf(),
    {
        self.trace_next_oods.len() == self.trace_oods.len() && self.trace_coeffs.len()
            == self.trace_oods.len() && self.trace_next_coeffs.len() == self.trace_oods.len()
            && self.composition_coeffs.len() == self.composition_oods.len()
    }

    /// Evaluates the DEEP composition at the point `x` of the evaluation
    /// domain. A row whose column counts do not fit is refused.
    pub fn evaluate(&self, row: &DeepRow, x: &Felt) -> (r: Result<Felt, ProvingError>)
        ensures
            self.wf() && self.fits(row) ==> r is Ok && r->Ok_0.is_canonical() && r->Ok_0.value()
                == self.value_of(row, x.value()),
            !(self.wf() && self.fits(row)) ==> r == Err::<Felt, ProvingError>(
                ProvingError::ConfigError,
            ),
    {
        if !self.is_well_formed() || row.trace_values.len() != self.trace_oods.len()
            || row.composition_values.len() != self.composition_oods.len() {
            return Err(ProvingError::ConfigError);
        }
        let here: Felt = quotient(&self.trace_coeffs, &row.trace_values, &self.trace_oods, x, &self.z);
        let next: Felt = quotient(
            &self.trace_next_coeffs,
            &row.trace_values,
            &self.trace_next_oods,
            x,
            &self.z_next,
        );
        let composition: Felt = quotient(
            &self.composition_coeffs,
            &row.composition_values,
            &self.composition_oods,
            x,
            &self.z_composition,
        );
        Ok(here.add(&next).add(&composition))
    }
}

/// Every column has `n` cells.
pub open spec fn columns_are(columns: Seq<Vec<Felt>>, n: nat) -> bool {
    forall|c: int| 0 <= c < columns.len() ==> (#[trigger] columns[c])@.len() == n
}

/// The cells of row `i` of a column-major matrix.
pub open spec fn cells_at(columns: Seq<Vec<Felt>>, i: int) -> Seq<Felt> {
    Seq::new(columns.len(), |c: int| columns[c]@[i])
}

/// Whether every column has `n` cells.
pub fn columns_have_length(columns: &Vec<Vec<Felt>>, n: usize) -> (r: bool)
    ensures
        r == columns_are(columns@, n as nat),
{
    let mut c: usize = 0;
    while c < columns.len()
        invariant
            c <= columns@.len(),
            forall|k: int| 0 <= k < c ==> (#[trigger] columns@[k])@.len() == n,
        decreases columns@.len() - c,
    {
        if columns[c].len() != n {
            return false;
        }
        c += 1;
    }
    true
}

/// Reads row `i` of a column-major matrix.
pub fn row_cells(columns: &Vec<Vec<Felt>>, i: usize) -> (r: Vec<Felt>)
    requires
        forall|c: int| 0 <= c < columns@.len() ==> i < (#[trigger] columns@[c])@.len(),
    ensures
        r@ == cells_at(columns@, i as int),
{
    let mut values: Vec<Felt> = Vec::new();
    let mut c: usize = 0;
    while c < columns.len()
        invariant
            c <= columns@.len(),
            forall|k: int| 0 <= k < columns@.len() ==> i < (#[trigger] columns@[k])@.len(),
            values@.len() == c,
            forall|k: int| 0 <= k < c ==> #[trigger] values@[k] == columns@[k]@[i as int],
        decreases columns@.len() - c,
    {
        values.push(columns[c][i]);
        c += 1;
    }
    proof {
        assert(values@ =~= cells_at(columns@, i as int));
    }
    values
}

/// Computes one group of quotients at `x`.
pub fn quotient(
    coefficients: &Vec<Felt>,
    values: &Vec<Felt>,
    openings: &Vec<Felt>,
    x: &Felt,
    point: &Felt,
) -> (r: Felt)
    requires
        coefficients@.len() == values@.len(),
        openings@.len() == values@.len(),
    ensures
        r.is_canonical(),
        r.value() == quotient_of(coefficients@, values@, openings@, x.value(), point.value()),
{
    let mut sum: Felt = Felt::zero();
    let mut j: usize = 0;
    while j < values.len()
        invariant
            j <= values@.len(),
            coefficients@.len() == values@.len(),
            openings@.len() == values@.len(),
            sum.is_canonical(),
            sum.value() == weighted_differences_of(coefficients@, values@, openings@, j as nat),
        decreases values@.len() - j,
    {
        let difference: Felt = values[j].sub(&openings[j]);
        sum = sum.add(&coefficients[j].mul(&difference));
        j += 1;
    }
    sum.mul(&x.sub(point).inverse())
}

} // verus!
