//! The condition interface: a reversible byte transform whose reverse
//! direction is gated by a satisfaction predicate.

use vstd::prelude::*;

verus! {

/// Why a layer refused to hand a payload back.
#[derive(Clone, Copy, Debug, PartialEq, Eq, Structural)]
pub enum LayerError {
    /// The layer's unlock condition does not hold at the instant it was asked.
    ConditionNotSatisfied,
    /// The layer's inverse transform cannot process the bytes it was given.
    MalformedInput,
}

/// The outcome of one inverse step: the condition is looked at first, and only
/// where it holds does the inverse transform speak.
pub open spec fn gate(satisfied: bool, inverted: Option<Seq<u8>>) -> Result<Seq<u8>, LayerError> {
    if !satisfied {
        Err(LayerError::ConditionNotSatisfied)
    } else {
        match inverted {
            Some(bytes) => Ok(bytes),
            None => Err(LayerError::MalformedInput),
        }
    }
}

/// The mathematical content of a decrypt result: the bytes by their view.
pub open spec fn outcome(r: Result<Vec<u8>, LayerError>) -> Result<Seq<u8>, LayerError> {
    match r {
        Ok(bytes) => Ok(bytes@),
        Err(e) => Err(e),
    }
}

/// One unlock condition. Instants are nanoseconds since the Unix epoch; the
/// caller samples the clock and hands the reading in, so every answer is a
/// function of the layer's immutable state and the arguments alone.
pub trait CryptoLayer {
    /// The forward transform on a payload.
    spec fn forward(&self, data: Seq<u8>) -> Seq<u8>;

    /// The inverse transform, `None` where the bytes cannot be processed.
    spec fn inverse(&self, data: Seq<u8>) -> Option<Seq<u8>>;

    /// Whether the unlock condition holds at the instant `now`.
    spec fn satisfied_at(&self, now: u128) -> bool;

    /// The inverse transform undoes the forward transform of the same layer.
    proof fn inverse_undoes_forward(&self, data: Seq<u8>)
        ensures
            self.inverse(self.forward(data)) == Some(data),
    ;

    /// Applies the forward transform. Never fails.
    fn encrypt(&self, data: &[u8]) -> (out: Vec<u8>)
        ensures
            out@ == self.forward(data@),
    ;

    /// Applies the inverse transform if the condition holds at `now`, and
    /// fails with `ConditionNotSatisfied` otherwise.
    fn decrypt(&self, data: &[u8], now: u128) -> (out: Result<Vec<u8>, LayerError>)
        ensures
            outcome(out) == gate(self.satisfied_at(now), self.inverse(data@)),
    ;

    /// Evaluates the unlock condition at the instant `now`.
    fn is_satisfied(&self, now: u128) -> (ok: bool)
        ensures
            ok == self.satisfied_at(now),
    ;
}

} // verus!
