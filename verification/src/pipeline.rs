//! The pipeline: an ordered sequence of layers, applied in insertion order in
//! both directions.

use crate::clock::current_time;
use crate::layer::{gate, outcome, CryptoLayer, LayerError};
use vstd::prelude::*;
use vstd::slice::slice_to_vec;

verus! {

/// The forward transforms of `layers`, applied first to last.
pub open spec fn fold_forward<L: CryptoLayer>(layers: Seq<L>, data: Seq<u8>) -> Seq<u8>
    decreases layers.len(),
{
    if layers.len() == 0 {
        data
    } else {
        layers.last().forward(fold_forward(layers.drop_last(), data))
    }
}

/// The gated inverse transforms of `layers`, applied first to last, all at the
/// instant `now`; the first failure is the result.
pub open spec fn fold_inverse<L: CryptoLayer>(layers: Seq<L>, data: Seq<u8>, now: u128) -> Result<
    Seq<u8>,
    LayerError,
>
    decreases layers.len(),
{
    if layers.len() == 0 {
        Ok(data)
    } else {
        match fold_inverse(layers.drop_last(), data, now) {
            Ok(bytes) => gate(layers.last().satisfied_at(now), layers.last().inverse(bytes)),
            Err(e) => Err(e),
        }
    }
}

/// An ordered sequence of layers of one type. Insertion order is application
/// order, in both directions.
pub struct CryptoPipeline<L: CryptoLayer> {
    layers: Vec<L>,
}

impl<L: CryptoLayer> CryptoPipeline<L> {
    /// The layers in insertion order.
    pub closed spec fn layers(&self) -> Seq<L> {
        self.layers@
    }

    /// An empty pipeline.
    pub fn new() -> (pipeline: Self)
        ensures
            pipeline.layers() == Seq::<L>::empty(),
    {
        CryptoPipeline { layers: Vec::new() }
    }

    /// Appends `layer` behind the layers already there.
    pub fn add_layer(&mut self, layer: L)
        ensures
            final(self).layers() == old(self).layers().push(layer),
    {
        self.layers.push(layer);
    }

    /// Applies every layer's forward transform, in insertion order.
    pub fn encrypt(&self, data: &[u8]) -> (out: Vec<u8>)
        ensures
            out@ == fold_forward(self.layers(), data@),
    {
        let mut result = slice_to_vec(data);
        let mut i: usize = 0;
        while i < self.layers.len()
            invariant
                i <= self.layers@.len(),
                result@ == fold_forward(self.layers@.take(i as int), data@),
            decreases self.layers@.len() - i,
        {
            proof {
                let next = self.layers@.take(i + 1);
                assert(next.drop_last() == self.layers@.take(i as int));
            }
            result = self.layers[i].encrypt(result.as_slice());
            i = i + 1;
        }
        proof {
            assert(self.layers@.take(i as int) == self.layers@);
        }
        result
    }

    /// Applies every layer's gated inverse transform, in insertion order, all
    /// at the instant `now`. Stops at the first layer that fails.
    pub fn decrypt_at(&self, data: &[u8], now: u128) -> (out: Result<Vec<u8>, LayerError>)
        ensures
            outcome(out) == fold_inverse(self.layers(), data@, now),
    {
        let mut result = slice_to_vec(data);
        let mut i: usize = 0;
        while i < self.layers.len()
            invariant
                i <= self.layers@.len(),
                fold_inverse(self.layers@.take(i as int), data@, now) == Ok::<Seq<u8>, LayerError>(
                    result@,
                ),
            decreases self.layers@.len() - i,
        {
            proof {
                let next = self.layers@.take(i + 1);
                assert(next.drop_last() == self.layers@.take(i as int));
            }
            if !self.layers[i].is_satisfied(now) {
                proof {
                    lemma_failure_is_final(self.layers@, i + 1, data@, now);
                }
                return Err(LayerError::ConditionNotSatisfied);
            }
            match self.layers[i].decrypt(result.as_slice(), now) {
                Ok(bytes) => {
                    result = bytes;
                },
                Err(e) => {
                    proof {
                        lemma_failure_is_final(self.layers@, i + 1, data@, now);
                    }
                    return Err(e);
                },
            }
            i = i + 1;
        }
        proof {
            assert(self.layers@.take(i as int) == self.layers@);
        }
        Ok(result)
    }

    /// Samples the clock once and decrypts at that instant. The result is
    /// that of `decrypt_at` for some instant; where the instant makes no
    /// difference to these layers on this payload, the result is fixed.
    pub fn decrypt(&self, data: &[u8]) -> (out: Result<Vec<u8>, LayerError>)
        ensures
            exists|now: u128| outcome(out) == #[trigger] fold_inverse(self.layers(), data@, now),
            (forall|now: u128| #[trigger]
                fold_inverse(self.layers(), data@, now) == fold_inverse(self.layers(), data@, 0))
                ==> outcome(out) == fold_inverse(self.layers(), data@, 0),
    {
        let now: u128 = current_time();
        self.decrypt_at(data, now)
    }
}

/// A failure among the first `k` layers is the result of the whole fold,
/// whatever the layers behind them are.
pub proof fn lemma_failure_is_final<L: CryptoLayer>(
    layers: Seq<L>,
    k: int,
    data: Seq<u8>,
    now: u128,
)
    requires
        0 <= k <= layers.len(),
        fold_inverse(layers.take(k), data, now) is Err,
    ensures
        fold_inverse(layers, data, now) == fold_inverse(layers.take(k), data, now),
    decreases layers.len(),
{
    if k == layers.len() {
        assert(layers.take(k) == layers);
    } else {
        assert(layers.drop_last().take(k) == layers.take(k));
        lemma_failure_is_final(layers.drop_last(), k, data, now);
    }
}

} // verus!
