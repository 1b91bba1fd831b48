use vstd::prelude::*;
use crate::error::ProvingError;

verus! {

pub const MIN_NUM_QUERIES: u8 = 1;
pub const MAX_NUM_QUERIES: u8 = 128;
pub const MIN_BLOWUP_FACTOR: u8 = 2;
pub const MAX_BLOWUP_FACTOR: u8 = 64;
pub const MAX_GRINDING_FACTOR: u8 = 64;
pub const FRI_FOLDING_FACTOR: usize = 8;
pub const FRI_MAX_REMAINDER_SIZE: usize = 64;

/// `n` is a power of two: 1, or twice a power of two.
pub open spec fn is_power_of_two(n: int) -> bool
    decreases n,
{
    n == 1 || (n > 1 && n % 2 == 0 && is_power_of_two(n / 2))
}

/// The ranges every set of options has to respect.
pub open spec fn options_in_range(num_queries: u8, blowup_factor: u8, grinding_factor: u8) -> bool {
    &&& MIN_NUM_QUERIES <= num_queries <= MAX_NUM_QUERIES
    &&& MIN_BLOWUP_FACTOR <= blowup_factor <= MAX_BLOWUP_FACTOR
    &&& is_power_of_two(blowup_factor as int)
    &&& grinding_factor <= MAX_GRINDING_FACTOR
}

/// The product of two powers of two is a power of two.
pub proof fn lemma_power_of_two_product(a: int, b: int)
    requires
        is_power_of_two(a),
        is_power_of_two(b),
    ensures
        is_power_of_two(a * b),
    decreases a,
{
    if a == 1 {
        assert(a * b == b);
    } else {
        lemma_power_of_two_product(a / 2, b);
        assert(a == 2 * (a / 2));
        assert(a * b == 2 * ((a / 2) * b)) by (nonlinear_arith)
            requires a == 2 * (a / 2);
        assert((a / 2) * b >= 1) by (nonlinear_arith)
            requires a / 2 >= 1, b >= 1;
        assert((a * b) / 2 == (a / 2) * b);
    }
}

/// Whether a byte is one of 1, 2, 4, ..., 128.
pub fn byte_is_power_of_two(b: u8) -> (r: bool)
    ensures
        r == is_power_of_two(b as int),
{
    proof {
        reveal_with_fuel(is_power_of_two, 10);
    }
    b == 1 || b == 2 || b == 4 || b == 8 || b == 16 || b == 32 || b == 64 || b == 128
}

/// Parameters of the FRI low-degree test.
#[derive(Debug, Clone, Copy, PartialEq, Eq, Structural)]
pub struct FriOptions {
    pub folding_factor: usize,
    pub max_remainder_size: usize,
    pub blowup_factor: usize,
}

impl FriOptions {
    pub fn new(blowup_factor: usize, folding_factor: usize, max_remainder_size: usize) -> (r: Self)
        ensures
            r.blowup_factor == blowup_factor,
            r.folding_factor == folding_factor,
            r.max_remainder_size == max_remainder_size,
    {
        FriOptions { folding_factor, max_remainder_size, blowup_factor }
    }
}

/// Parameters that fix the security and the size of a proof.
#[derive(Debug, Clone, Copy, PartialEq, Eq, Structural)]
pub struct ProofOptions {
    pub num_queries: u8,
    pub blowup_factor: u8,
    pub grinding_factor: u8,
}

impl ProofOptions {
    /// Options built by `new` are always in range.
    pub open spec fn wf(self) -> bool {
        options_in_range(self.num_queries, self.blowup_factor, self.grinding_factor)
    }

    /// Builds a set of options, or refuses one that is out of range: the
    /// number of queries lies in 1..=128, the blowup factor is a power of two
    /// in 2..=64, and the grinding factor is at most 64 bits.
    pub fn new(num_queries: u8, blowup_factor: u8, grinding_factor: u8) -> (r: Result<Self, ProvingError>)
        ensures
            options_in_range(num_queries, blowup_factor, grinding_factor) ==> r == Ok::<Self, ProvingError>(
                (ProofOptions { num_queries, blowup_factor, grinding_factor }),
            ),
            !options_in_range(num_queries, blowup_factor, grinding_factor) ==> r == Err::<Self, ProvingError>(
                ProvingError::ConfigError,
            ),
    {
        if num_queries < MIN_NUM_QUERIES || num_queries > MAX_NUM_QUERIES {
            return Err(ProvingError::ConfigError);
        }
        if blowup_factor < MIN_BLOWUP_FACTOR || blowup_factor > MAX_BLOWUP_FACTOR {
            return Err(ProvingError::ConfigError);
        }
        if !byte_is_power_of_two(blowup_factor) {
            return Err(ProvingError::ConfigError);
        }
        if grinding_factor > MAX_GRINDING_FACTOR {
            return Err(ProvingError::ConfigError);
        }
        Ok(ProofOptions { num_queries, blowup_factor, grinding_factor })
    }

    /// The FRI parameters that go with these options: the same blowup factor,
    /// folding by 8, and a remainder of at most 64 coefficients.
    pub fn into_fri_options(self) -> (r: FriOptions)
        ensures
            r.blowup_factor == self.blowup_factor as usize,
            r.folding_factor == FRI_FOLDING_FACTOR,
            r.max_remainder_size == FRI_MAX_REMAINDER_SIZE,
    {
        FriOptions::new(self.blowup_factor as usize, FRI_FOLDING_FACTOR, FRI_MAX_REMAINDER_SIZE)
    }

    /// The size of the evaluation domain for a trace of `trace_len` rows: the
    /// trace length times the blowup factor. A trace length that is no power
    /// of two, or a domain that does not fit the machine word, is refused.
    pub fn lde_domain_size(&self, trace_len: usize) -> (r: Result<usize, ProvingError>)
        requires
            self.wf(),
        ensures
            match r {
                Ok(n) => n == trace_len * self.blowup_factor
                    && is_power_of_two(trace_len as int)
                    && is_power_of_two(n as int),
                Err(e) => e == ProvingError::ConfigError && !(is_power_of_two(trace_len as int)
                    && trace_len * self.blowup_factor <= usize::MAX),
            },
    {
        if !word_is_power_of_two(trace_len) {
            return Err(ProvingError::ConfigError);
        }
        let beta: usize = self.blowup_factor as usize;
        match trace_len.checked_mul(beta) {
            Some(n) => {
                proof {
                    lemma_power_of_two_product(trace_len as int, self.blowup_factor as int);
                }
                Ok(n)
            },
            None => Err(ProvingError::ConfigError),
        }
    }
}

/// Whether a machine word is a power of two.
pub fn word_is_power_of_two(n: usize) -> (r: bool)
    ensures
        r == is_power_of_two(n as int),
{
    if n == 0 {
        return false;
    }
    let mut m: usize = n;
    while m % 2 == 0
        invariant
            m >= 1,
            is_power_of_two(m as int) == is_power_of_two(n as int),
        decreases m,
    {
        m = m / 2;
    }
    m == 1
}

} // verus!
