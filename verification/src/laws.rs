//! What holds of every pipeline: the order of application, the finality of a
//! failure, and the way back from an encrypted payload.

use crate::layer::{gate, CryptoLayer, LayerError};
use crate::layers::Lock;
use crate::pipeline::{fold_forward, fold_inverse, lemma_failure_is_final};
use vstd::prelude::*;

verus! {

/// Every layer's condition holds at the instant `now`.
pub open spec fn all_satisfied<L: CryptoLayer>(layers: Seq<L>, now: u128) -> bool {
    forall|i: int| 0 <= i < layers.len() ==> (#[trigger] layers[i]).satisfied_at(now)
}

/// The inverse transform of `early` can be moved across the forward transform
/// of `late`: undoing `early` after `late` gives what `late` makes of the
/// payload with `early` undone.
pub open spec fn passes_through<L: CryptoLayer>(early: L, late: L) -> bool {
    forall|data: Seq<u8>|
        early.inverse(data) is Some ==> early.inverse(#[trigger] late.forward(data)) == Some(
            late.forward(early.inverse(data).unwrap()),
        )
}

/// Each layer's inverse transform passes through the forward transform of
/// every layer behind it.
pub open spec fn independent<L: CryptoLayer>(layers: Seq<L>) -> bool {
    forall|i: int, j: int|
        0 <= i < j < layers.len() ==> #[trigger] passes_through(layers[i], layers[j])
}

/// The forward fold, read from the front: the first layer is applied to the
/// payload, and the layers behind it to what it returns.
pub proof fn lemma_fold_forward_head<L: CryptoLayer>(layers: Seq<L>, data: Seq<u8>)
    requires
        layers.len() > 0,
    ensures
        fold_forward(layers, data) == fold_forward(layers.drop_first(), layers[0].forward(data)),
    decreases layers.len(),
{
    let tail = layers.drop_first();
    if layers.len() == 1 {
        assert(fold_forward(layers.drop_last(), data) == data);
        assert(fold_forward(tail, layers[0].forward(data)) == layers[0].forward(data));
    } else {
        lemma_fold_forward_head(layers.drop_last(), data);
        assert(tail.drop_last() == layers.drop_last().drop_first());
        assert(tail.last() == layers.last());
    }
}

/// The inverse fold, read from the front: the first layer's gated inverse is
/// applied to the payload, and the layers behind it to what it returns.
pub proof fn lemma_fold_inverse_head<L: CryptoLayer>(layers: Seq<L>, data: Seq<u8>, now: u128)
    requires
        layers.len() > 0,
    ensures
        fold_inverse(layers, data, now) == match gate(
            layers[0].satisfied_at(now),
            layers[0].inverse(data),
        ) {
            Ok(bytes) => fold_inverse(layers.drop_first(), bytes, now),
            Err(e) => Err(e),
        },
    decreases layers.len(),
{
    let tail = layers.drop_first();
    if layers.len() == 1 {
        assert(fold_inverse(layers.drop_last(), data, now) == Ok::<Seq<u8>, LayerError>(data));
        match gate(layers[0].satisfied_at(now), layers[0].inverse(data)) {
            Ok(bytes) => {
                assert(fold_inverse(tail, bytes, now) == Ok::<Seq<u8>, LayerError>(bytes));
            },
            Err(e) => {},
        }
    } else {
        lemma_fold_inverse_head(layers.drop_last(), data, now);
        assert(tail.drop_last() == layers.drop_last().drop_first());
        assert(tail.last() == layers.last());
    }
}

/// An inverse transform that passes through each of `layers` passes through
/// their forward fold.
pub proof fn lemma_inverse_passes_through_fold<L: CryptoLayer>(
    early: L,
    layers: Seq<L>,
    data: Seq<u8>,
)
    requires
        forall|j: int| 0 <= j < layers.len() ==> #[trigger] passes_through(early, layers[j]),
        early.inverse(data) is Some,
    ensures
        early.inverse(fold_forward(layers, data)) == Some(
            fold_forward(layers, early.inverse(data).unwrap()),
        ),
    decreases layers.len(),
{
    if layers.len() > 0 {
        let front = layers.drop_last();
        assert forall|j: int| 0 <= j < front.len() implies #[trigger] passes_through(
            early,
            front[j],
        ) by {
            assert(front[j] == layers[j]);
        }
        lemma_inverse_passes_through_fold(early, front, data);
        assert(passes_through(early, layers[layers.len() - 1]));
    }
}

/// Decrypting what the same pipeline encrypted returns the payload, for every
/// payload, where every condition holds at the instant of decryption and the
/// layers are independent. Because both
/// directions run first to last, independence is what lets each inverse reach
/// its own forward transform through those applied after it; gating-only
/// layers, which leave the payload as it is, are independent of every layer.
pub proof fn lemma_round_trip<L: CryptoLayer>(layers: Seq<L>, data: Seq<u8>, now: u128)
    requires
        all_satisfied(layers, now),
        independent(layers),
    ensures
        fold_inverse(layers, fold_forward(layers, data), now) == Ok::<Seq<u8>, LayerError>(data),
    decreases layers.len(),
{
    if layers.len() > 0 {
        let head = layers[0];
        let tail = layers.drop_first();
        let sealed = head.forward(data);
        head.inverse_undoes_forward(data);
        assert forall|j: int| 0 <= j < tail.len() implies #[trigger] passes_through(
            head,
            tail[j],
        ) by {
            assert(tail[j] == layers[j + 1]);
            assert(passes_through(layers[0], layers[j + 1]));
        }
        lemma_fold_forward_head(layers, data);
        lemma_inverse_passes_through_fold(head, tail, sealed);
        lemma_fold_inverse_head(layers, fold_forward(layers, data), now);
        assert(head.satisfied_at(now));
        assert forall|i: int| 0 <= i < tail.len() implies (#[trigger] tail[i]).satisfied_at(
            now,
        ) by {
            assert(tail[i] == layers[i + 1]);
        }
        assert forall|i: int, j: int| 0 <= i < j < tail.len() implies #[trigger] passes_through(
            tail[i],
            tail[j],
        ) by {
            assert(passes_through(layers[i + 1], layers[j + 1]));
        }
        lemma_round_trip(tail, data, now);
    }
}

/// A layer appended to a pipeline runs last in both directions: on what the
/// layers before it return, and not at all where one of them fails.
pub proof fn lemma_appended_layer_runs_last<L: CryptoLayer>(
    layers: Seq<L>,
    layer: L,
    data: Seq<u8>,
    now: u128,
)
    ensures
        fold_forward(layers.push(layer), data) == layer.forward(fold_forward(layers, data)),
        fold_inverse(layers.push(layer), data, now) == match fold_inverse(layers, data, now) {
            Ok(bytes) => gate(layer.satisfied_at(now), layer.inverse(bytes)),
            Err(e) => Err(e),
        },
{
    assert(layers.push(layer).drop_last() == layers);
    assert(layers.push(layer).last() == layer);
}

/// A pipeline of two layers applies the first layer and then the second, in
/// both directions.
pub proof fn lemma_two_layers_in_order<L: CryptoLayer>(
    first: L,
    second: L,
    data: Seq<u8>,
    now: u128,
)
    ensures
        fold_forward(seq![first, second], data) == second.forward(first.forward(data)),
        fold_inverse(seq![first, second], data, now) == match gate(
            first.satisfied_at(now),
            first.inverse(data),
        ) {
            Ok(bytes) => gate(second.satisfied_at(now), second.inverse(bytes)),
            Err(e) => Err(e),
        },
{
    let both = seq![first, second];
    let one = both.drop_last();
    assert(one.len() == 1 && one.last() == first);
    assert(one.drop_last().len() == 0);
    assert(both.last() == second);
    assert(fold_forward(one.drop_last(), data) == data);
    assert(fold_forward(one, data) == first.forward(data));
    assert(fold_inverse(one.drop_last(), data, now) == Ok::<Seq<u8>, LayerError>(data));
    assert(fold_inverse(one, data, now) == gate(first.satisfied_at(now), first.inverse(data)));
}

/// Where the layers before layer `k` succeed and layer `k`'s condition does
/// not hold, the whole fold fails with `ConditionNotSatisfied`: neither the
/// inverse of layer `k` nor any layer behind it has a say.
pub proof fn lemma_fail_fast<L: CryptoLayer>(
    layers: Seq<L>,
    k: int,
    data: Seq<u8>,
    now: u128,
)
    requires
        0 <= k < layers.len(),
        fold_inverse(layers.take(k), data, now) is Ok,
        !layers[k].satisfied_at(now),
    ensures
        fold_inverse(layers, data, now) == Err::<Seq<u8>, LayerError>(
            LayerError::ConditionNotSatisfied,
        ),
{
    let upto = layers.take(k + 1);
    assert(upto.drop_last() == layers.take(k));
    assert(upto.last() == layers[k]);
    lemma_failure_is_final(layers, k + 1, data, now);
}

/// The built-in locks leave the payload as it is, so in any order they are
/// independent of each other.
pub proof fn lemma_locks_are_independent(layers: Seq<Lock>)
    ensures
        independent(layers),
{
    assert forall|i: int, j: int| 0 <= i < j < layers.len() implies #[trigger] passes_through(
        layers[i],
        layers[j],
    ) by {
        assert forall|data: Seq<u8>| layers[i].inverse(data) is Some implies layers[i].inverse(
            #[trigger] layers[j].forward(data),
        ) == Some(layers[j].forward(layers[i].inverse(data).unwrap())) by {
            assert(layers[j].forward(data) == data);
            assert(layers[i].inverse(data) == Some(data));
        }
    }
}

/// A pipeline of built-in locks hands every payload through unchanged in both
/// directions, provided every lock is open at the instant of decryption.
pub proof fn lemma_locks_round_trip(layers: Seq<Lock>, data: Seq<u8>, now: u128)
    requires
        all_satisfied(layers, now),
    ensures
        fold_forward(layers, data) == data,
        fold_inverse(layers, data, now) == Ok::<Seq<u8>, LayerError>(data),
    decreases layers.len(),
{
    if layers.len() > 0 {
        let front = layers.drop_last();
        assert forall|i: int| 0 <= i < front.len() implies (#[trigger] front[i]).satisfied_at(
            now,
        ) by {
            assert(front[i] == layers[i]);
        }
        lemma_locks_round_trip(front, data, now);
        assert(layers.last() == layers[layers.len() - 1]);
        assert(layers.last().forward(data) == data);
        assert(layers.last().inverse(data) == Some(data));
    }
}

} // verus!
