use vstd::prelude::*;
use vstd::bytes::{spec_u64_to_le_bytes, u64_to_le_bytes};
use crate::error::ProvingError;
use crate::field::{fpow, Felt, MODULUS};
use crate::hash::{digest_of_pair, draw, draw_of, hash_pair, sha256, sha256_digest};

verus! {

/// The source of the verifier's randomness: a digest of everything absorbed
/// so far, and the number of draws made since the last absorption.
pub struct PublicCoin {
    pub seed: Vec<u8>,
    pub counter: u64,
}

/// The first counter after `counter` whose draw is a canonical field element.
/// Larger draws are passed over, so that the element is uniform.
pub open spec fn next_accepted(seed: Seq<u8>, counter: u64) -> Option<u64>
    decreases u64::MAX - counter,
{
    if counter == u64::MAX {
        None
    } else if draw_of(seed, (counter + 1) as u64) < MODULUS {
        Some((counter + 1) as u64)
    } else {
        next_accepted(seed, (counter + 1) as u64)
    }
}

/// The next `n` field elements that a coin with this seed and counter gives,
/// and the counter after them; `None` where the counter runs out first.
pub open spec fn felts_of(seed: Seq<u8>, counter: u64, n: nat) -> Option<(Seq<Felt>, u64)>
    decreases n,
{
    if n == 0 {
        Some((Seq::<Felt>::empty(), counter))
    } else {
        match felts_of(seed, counter, (n - 1) as nat) {
            None => None,
            Some((elements, c)) => match next_accepted(seed, c) {
                None => None,
                Some(c2) => Some((elements.push(Felt { raw: draw_of(seed, c2) }), c2)),
            },
        }
    }
}

/// `z` lies in the coset of the subgroup of order `size` that `offset`
/// spans.
pub open spec fn in_coset(z: int, size: u64, offset: int) -> bool {
    fpow(z, size as nat) == fpow(offset, size as nat)
}

/// The next field element outside the coset that a coin with this seed and
/// counter gives, and the counter after it.
pub open spec fn outside_of(seed: Seq<u8>, counter: u64, size: u64, offset: int) -> Option<
    (Felt, u64),
>
    decreases u64::MAX - counter,
{
    match next_accepted(seed, counter) {
        None => None,
        Some(c) => if c <= counter {
            None
        } else if in_coset(draw_of(seed, c) as int, size, offset) {
            outside_of(seed, c, size, offset)
        } else {
            Some((Felt { raw: draw_of(seed, c) }, c))
        },
    }
}

/// Number of zero bits at the head of a byte.
pub open spec fn leading_zeros_of_byte(b: u8) -> nat {
    if b >= 128 {
        0
    } else if b >= 64 {
        1
    } else if b >= 32 {
        2
    } else if b >= 16 {
        3
    } else if b >= 8 {
        4
    } else if b >= 4 {
        5
    } else if b >= 2 {
        6
    } else if b >= 1 {
        7
    } else {
        8
    }
}

/// Number of zero bits at the head of a byte string.
pub open spec fn leading_zero_bits(bytes: Seq<u8>) -> nat
    decreases bytes.len(),
{
    if bytes.len() == 0 {
        0
    } else if bytes[0] == 0 {
        8 + leading_zero_bits(bytes.drop_first())
    } else {
        leading_zeros_of_byte(bytes[0])
    }
}

/// The digest of the seed followed by the nonce starts with at least
/// `factor` zero bits.
pub open spec fn is_valid_nonce(seed: Seq<u8>, nonce: u64, factor: u8) -> bool {
    leading_zero_bits(digest_of_pair(seed, spec_u64_to_le_bytes(nonce))) >= factor
}

/// The `j`-th position drawn after `counter` in a domain of `size` rows.
pub open spec fn position_of(seed: Seq<u8>, counter: u64, j: int, size: usize) -> usize {
    (draw_of(seed, (counter + 1 + j) as u64) % (size as u64)) as usize
}

/// The first `n` positions drawn after `counter`.
pub open spec fn positions_of(seed: Seq<u8>, counter: u64, n: nat, size: usize) -> Seq<usize> {
    Seq::new(n, |j: int| position_of(seed, counter, j, size))
}

/// The sequence without the elements that occurred before in it.
pub open spec fn dedup(s: Seq<usize>) -> Seq<usize>
    decreases s.len(),
{
    if s.len() == 0 {
        s
    } else {
        let rest = dedup(s.drop_last());
        if rest.contains(s.last()) {
            rest
        } else {
            rest.push(s.last())
        }
    }
}

/// A sequence without its repeats holds no element twice, and holds exactly
/// the elements of the sequence.
pub proof fn lemma_dedup(s: Seq<usize>)
    ensures
        dedup(s).no_duplicates(),
        dedup(s).len() <= s.len(),
        forall|x: usize| dedup(s).contains(x) <==> s.contains(x),
    decreases s.len(),
{
    if s.len() > 0 {
        let head = s.drop_last();
        let rest = dedup(head);
        lemma_dedup(head);
        assert forall|x: usize| dedup(s).contains(x) <==> s.contains(x) by {
            if s.contains(x) {
                let i = choose|i: int| 0 <= i < s.len() && s[i] == x;
                if i < s.len() - 1 {
                    assert(head[i] == x);
                    assert(head.contains(x));
                    assert(rest.contains(x));
                    if !rest.contains(s.last()) {
                        let k = choose|k: int| 0 <= k < rest.len() && rest[k] == x;
                        assert(rest.push(s.last())[k] == x);
                    }
                } else {
                    if !rest.contains(s.last()) {
                        assert(rest.push(s.last())[rest.len() as int] == x);
                    }
                }
            }
            if dedup(s).contains(x) {
                let k = choose|k: int| 0 <= k < dedup(s).len() && dedup(s)[k] == x;
                if k < rest.len() {
                    assert(rest[k] == x);
                    assert(rest.contains(x));
                    assert(head.contains(x));
                    let i = choose|i: int| 0 <= i < head.len() && head[i] == x;
                    assert(s[i] == x);
                } else {
                    assert(x == s.last());
                    assert(s[s.len() - 1] == x);
                }
            }
        }
    }
}

/// The query positions are distinct, lie in the domain, and are no more
/// than were asked for.
pub proof fn lemma_positions_distinct_and_in_range(
    seed: Seq<u8>,
    counter: u64,
    n: nat,
    size: usize,
)
    requires
        size > 0,
    ensures
        dedup(positions_of(seed, counter, n, size)).no_duplicates(),
        dedup(positions_of(seed, counter, n, size)).len() <= n,
        forall|i: int|
            0 <= i < dedup(positions_of(seed, counter, n, size)).len() ==> #[trigger] dedup(
                positions_of(seed, counter, n, size),
            )[i] < size,
{
    let all = positions_of(seed, counter, n, size);
    let kept = dedup(all);
    lemma_dedup(all);
    assert forall|i: int| 0 <= i < kept.len() implies #[trigger] kept[i] < size by {
        assert(kept.contains(kept[i]));
        assert(all.contains(kept[i]));
        let j = choose|j: int| 0 <= j < all.len() && all[j] == kept[i];
        assert(all[j] == position_of(seed, counter, j, size));
    }
}

/// Where `n` elements cannot be drawn, no more can.
pub proof fn lemma_felts_run_out(seed: Seq<u8>, counter: u64, n: nat, m: nat)
    requires
        felts_of(seed, counter, n) is None,
        n <= m,
    ensures
        felts_of(seed, counter, m) is None,
    decreases m,
{
    if n < m {
        lemma_felts_run_out(seed, counter, n, (m - 1) as nat);
    }
}

/// Whether a drawn word is a canonical field element.
pub fn accepts(word: u64) -> (r: bool)
    ensures
        r == (word < MODULUS),
{
    word < MODULUS
}

/// Counts the zero bits at the head of a byte.
pub fn count_leading_zeros_of_byte(b: u8) -> (n: usize)
    ensures
        n == leading_zeros_of_byte(b),
{
    if b >= 128 {
        0
    } else if b >= 64 {
        1
    } else if b >= 32 {
        2
    } else if b >= 16 {
        3
    } else if b >= 8 {
        4
    } else if b >= 4 {
        5
    } else if b >= 2 {
        6
    } else if b >= 1 {
        7
    } else {
        8
    }
}

/// Counts the zero bits at the head of a byte string.
pub fn count_leading_zero_bits(bytes: &Vec<u8>) -> (n: usize)
    requires
        bytes@.len() <= usize::MAX / 8,
    ensures
        n == leading_zero_bits(bytes@),
{
    let mut i: usize = 0;
    proof {
        assert(bytes@.skip(0) == bytes@);
    }
    while i < bytes.len()
        invariant
            i <= bytes@.len(),
            bytes@.len() <= usize::MAX / 8,
            leading_zero_bits(bytes@) == 8 * i + leading_zero_bits(bytes@.skip(i as int)),
        decreases bytes@.len() - i,
    {
        proof {
            assert(bytes@.skip(i as int)[0] == bytes@[i as int]);
            assert(bytes@.skip(i as int).drop_first() == bytes@.skip(i + 1));
        }
        if bytes[i] != 0 {
            return 8 * i + count_leading_zeros_of_byte(bytes[i]);
        }
        i += 1;
    }
    proof {
        assert(bytes@.skip(i as int).len() == 0);
    }
    8 * i
}

/// Whether a digest starts with at least `factor` zero bits.
pub fn meets_threshold(digest: &Vec<u8>, factor: u8) -> (r: bool)
    requires
        digest@.len() <= usize::MAX / 8,
    ensures
        r == (leading_zero_bits(digest@) >= factor),
{
    count_leading_zero_bits(digest) >= factor as usize
}

/// Whether `value` stands in `list`.
pub fn holds(list: &Vec<usize>, value: usize) -> (r: bool)
    ensures
        r == list@.contains(value),
{
    let mut i: usize = 0;
    while i < list.len()
        invariant
            i <= list@.len(),
            forall|k: int| 0 <= k < i ==> list@[k] != value,
        decreases list@.len() - i,
    {
        if list[i] == value {
            return true;
        }
        i += 1;
    }
    false
}

impl PublicCoin {
    /// A coin seeded with the digest of `context`.
    pub fn new(context: &Vec<u8>) -> (coin: Self)
        ensures
            coin.seed@ == sha256_digest(context@),
            coin.counter == 0,
    {
        PublicCoin { seed: sha256(context.as_slice()), counter: 0 }
    }

    /// Absorbs `data`: the new seed is the digest of the old seed followed
    /// by the data, and the draws start over.
    pub fn reseed(&mut self, data: &Vec<u8>)
        ensures
            final(self).seed@ == digest_of_pair(old(self).seed@, data@),
            final(self).counter == 0,
    {
        self.seed = hash_pair(&self.seed, data);
        self.counter = 0;
    }

    /// Draws one field element, uniform over the field: words that are not
    /// canonical are passed over. Fails only where the counter runs out.
    pub fn draw_felt(&mut self) -> (r: Result<Felt, ProvingError>)
        ensures
            final(self).seed@ == old(self).seed@,
            match next_accepted(old(self).seed@, old(self).counter) {
                Some(c) => r == Ok::<Felt, ProvingError>((Felt { raw: draw_of(old(self).seed@, c) }))
                    && final(self).counter == c,
                None => r == Err::<Felt, ProvingError>(ProvingError::Fail) && final(self).counter
                    == u64::MAX,
            },
    {
        while self.counter < u64::MAX
            invariant
                self.seed@ == old(self).seed@,
                next_accepted(self.seed@, self.counter) == next_accepted(
                    old(self).seed@,
                    old(self).counter,
                ),
            decreases u64::MAX - self.counter,
        {
            self.counter = self.counter + 1;
            let word: u64 = draw(&self.seed, self.counter);
            if accepts(word) {
                return Ok(Felt { raw: word });
            }
        }
        Err(ProvingError::Fail)
    }

    /// Draws `n` field elements.
    pub fn draw_felts(&mut self, n: usize) -> (r: Result<Vec<Felt>, ProvingError>)
        ensures
            final(self).seed@ == old(self).seed@,
            match felts_of(old(self).seed@, old(self).counter, n as nat) {
                Some((elements, c)) => r is Ok && r->Ok_0@ == elements && final(self).counter == c,
                None => r == Err::<Vec<Felt>, ProvingError>(ProvingError::Fail) && final(self).counter == u64::MAX,
            },
    {
        let mut out: Vec<Felt> = Vec::new();
        let mut i: usize = 0;
        while i < n
            invariant
                i <= n,
                self.seed@ == old(self).seed@,
                felts_of(old(self).seed@, old(self).counter, i as nat) == Some(
                    (out@, self.counter),
                ),
            decreases n - i,
        {
            match self.draw_felt() {
                Ok(element) => {
                    out.push(element);
                },
                Err(_) => {
                    proof {
                        lemma_felts_run_out(
                            old(self).seed@,
                            old(self).counter,
                            (i + 1) as nat,
                            n as nat,
                        );
                    }
                    return Err(ProvingError::Fail);
                },
            }
            i += 1;
        }
        Ok(out)
    }

    /// Draws a field element outside the coset of order `size` that `offset`
    /// spans: elements of the coset are passed over.
    pub fn draw_outside(&mut self, size: u64, offset: &Felt) -> (r: Result<Felt, ProvingError>)
        ensures
            final(self).seed@ == old(self).seed@,
            match outside_of(old(self).seed@, old(self).counter, size, offset.value()) {
                Some((z, c)) => r == Ok::<Felt, ProvingError>(z) && final(self).counter == c
                    && !in_coset(z.value(), size, offset.value()),
                None => r == Err::<Felt, ProvingError>(ProvingError::Fail) && final(self).counter
                    == u64::MAX,
            },
    {
        let target: Felt = offset.pow(size);
        loop
            invariant
                self.seed@ == old(self).seed@,
                target.is_canonical(),
                target.value() == fpow(offset.value(), size as nat),
                outside_of(self.seed@, self.counter, size, offset.value()) == outside_of(
                    old(self).seed@,
                    old(self).counter,
                    size,
                    offset.value(),
                ),
            decreases u64::MAX - self.counter,
        {
            let ghost before = self.counter;
            proof {
                lemma_next_accepted_is_later(self.seed@, self.counter);
            }
            match self.draw_felt() {
                Ok(z) => {
                    let image: Felt = z.pow(size);
                    if !image.equals(&target) {
                        return Ok(z);
                    }
                },
                Err(_) => {
                    return Err(ProvingError::Fail);
                },
            }
        }
    }

    /// Searches the least nonce whose digest with the seed starts with
    /// `factor` zero bits, and absorbs it. With a factor of zero nothing is
    /// searched: the nonce is 0.
    pub fn grind(&mut self, factor: u8) -> (r: Result<u64, ProvingError>)
        ensures
            factor == 0 ==> r == Ok::<u64, ProvingError>(0),
            match r {
                Ok(nonce) => is_valid_nonce(old(self).seed@, nonce, factor) && (forall|m: u64|
                    m < nonce ==> !#[trigger] is_valid_nonce(old(self).seed@, m, factor))
                    && final(self).seed@ == digest_of_pair(
                    old(self).seed@,
                    spec_u64_to_le_bytes(nonce),
                ) && final(self).counter == 0,
                Err(e) => e == ProvingError::Fail && (forall|m: u64| !#[trigger] is_valid_nonce(
                    old(self).seed@,
                    m,
                    factor,
                )) && final(self).seed@ == old(self).seed@ && final(self).counter == old(self).counter,
            },
    {
        let mut nonce: u64 = 0;
        if factor > 0 {
            let mut found: bool = false;
            while !found
                invariant
                    self.seed@ == old(self).seed@,
                    self.counter == old(self).counter,
                    forall|m: u64| m < nonce ==> !#[trigger] is_valid_nonce(self.seed@, m, factor),
                    found ==> is_valid_nonce(self.seed@, nonce, factor),
                decreases (u64::MAX - nonce) + (if found { 0int } else { 1int }),
            {
                let tail = u64_to_le_bytes(nonce);
                let digest = hash_pair(&self.seed, &tail);
                if meets_threshold(&digest, factor) {
                    found = true;
                } else {
                    if nonce == u64::MAX {
                        return Err(ProvingError::Fail);
                    }
                    nonce = nonce + 1;
                }
            }
        }
        let tail = u64_to_le_bytes(nonce);
        self.reseed(&tail);
        Ok(nonce)
    }

    /// Draws `n` positions in a domain of `size` rows and drops the repeats.
    pub fn draw_positions(&mut self, n: usize, size: usize) -> (r: Result<Vec<usize>, ProvingError>)
        requires
            size > 0,
        ensures
            final(self).seed@ == old(self).seed@,
            old(self).counter + n <= u64::MAX ==> r is Ok && r->Ok_0@ == dedup(
                positions_of(old(self).seed@, old(self).counter, n as nat, size),
            ) && final(self).counter == old(self).counter + n,
            old(self).counter + n > u64::MAX ==> r == Err::<Vec<usize>, ProvingError>(
                ProvingError::Fail,
            ) && final(self).counter == old(self).counter,
    {
        if n as u64 > u64::MAX - self.counter {
            return Err(ProvingError::Fail);
        }
        let ghost all = positions_of(old(self).seed@, old(self).counter, n as nat, size);
        let mut out: Vec<usize> = Vec::new();
        let mut j: usize = 0;
        while j < n
            invariant
                j <= n,
                size > 0,
                self.seed@ == old(self).seed@,
                self.counter == old(self).counter + j,
                old(self).counter + n <= u64::MAX,
                all == positions_of(old(self).seed@, old(self).counter, n as nat, size),
                out@ == dedup(all.take(j as int)),
            decreases n - j,
        {
            self.counter = self.counter + 1;
            let word: u64 = draw(&self.seed, self.counter);
            let position: usize = (word % (size as u64)) as usize;
            proof {
                assert(all.take(j + 1).drop_last() == all.take(j as int));
                assert(all.take(j + 1).last() == position);
            }
            if !holds(&out, position) {
                out.push(position);
            }
            j += 1;
        }
        proof {
            assert(all.take(n as int) == all);
        }
        Ok(out)
    }
}

/// The seed of a transcript that started from `seed` and absorbed the
/// messages in turn.
pub open spec fn seed_of(seed: Seq<u8>, messages: Seq<Seq<u8>>) -> Seq<u8>
    decreases messages.len(),
{
    if messages.len() == 0 {
        seed
    } else {
        digest_of_pair(seed_of(seed, messages.drop_last()), messages.last())
    }
}

/// Absorbing one more message is one more reseeding.
pub proof fn lemma_seed_of_push(seed: Seq<u8>, messages: Seq<Seq<u8>>, message: Seq<u8>)
    ensures
        seed_of(seed, messages.push(message)) == digest_of_pair(seed_of(seed, messages), message),
{
    assert(messages.push(message).drop_last() == messages);
}

/// The next accepted counter lies after the counter it was asked from.
pub proof fn lemma_next_accepted_is_later(seed: Seq<u8>, counter: u64)
    ensures
        match next_accepted(seed, counter) {
            Some(c) => c > counter && draw_of(seed, c) < MODULUS,
            None => true,
        },
    decreases u64::MAX - counter,
{
    if counter < u64::MAX && draw_of(seed, (counter + 1) as u64) >= MODULUS {
        lemma_next_accepted_is_later(seed, (counter + 1) as u64);
    }
}

} // verus!
