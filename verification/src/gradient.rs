use vstd::prelude::*;
use crate::layer::{lemma_slot_in_bounds, weight_slot, Linear};

verus! {

impl<T: Copy> Linear<T> {
    /// The weights that leave input unit `from`, one per output unit, in the
    /// order of the output units.
    pub fn outgoing_weights(&self, from: usize) -> (column: Vec<T>)
        requires
            self.well_formed(),
            from < self.input_size,
        ensures
            column@.len() == self.length,
            forall|to: int| 0 <= to < self.length ==> #[trigger] column@[to] == self.weight(from as int, to),
    {
        let mut column: Vec<T> = Vec::new();
        let mut to: usize = 0;
        while to < self.length
            invariant
                to <= self.length,
                self.well_formed(),
                from < self.input_size,
                column@.len() == to,
                forall|t: int| 0 <= t < to ==> #[trigger] column@[t] == self.weight(from as int, t),
            decreases self.length - to,
        {
            column.push(self.get_weight(from, to));
            to = to + 1;
        }
        column
    }

    /// `delta` is what `rule` returns for output unit `n` of this layer,
    /// given the layer's cached activations, the targets and the unit's
    /// cached pre-activation sum.
    pub open spec fn output_delta_at<G: Fn(&[T], &[T], usize, T) -> T>(
        &self,
        expected: Seq<T>,
        rule: &G,
        n: int,
        delta: T,
    ) -> bool {
        exists|outputs: &[T], targets: &[T]|
            {
                &&& #[trigger] rule.ensures((outputs, targets, n as usize, self.potentials@[n]), delta)
                &&& outputs@ == self.outputs@
                &&& targets@ == expected
            }
    }

    /// Error signals of the last layer: overwrites `deltas[n]`, for every
    /// output unit `n`, with what `rule` makes of the cached activations,
    /// the targets, `n` and the unit's cached pre-activation sum.
    pub fn output_deltas<G: Fn(&[T], &[T], usize, T) -> T>(
        &self,
        expected: &[T],
        deltas: &mut Vec<T>,
        rule: &G,
    )
        requires
            self.well_formed(),
            old(deltas)@.len() == self.length,
            expected@.len() >= self.length,
            forall|outputs: &[T], targets: &[T], n: usize, potential: T|
                n < outputs@.len() && n < targets@.len() ==> #[trigger] rule.requires(
                    (outputs, targets, n, potential),
                ),
        ensures
            final(deltas)@.len() == self.length,
            forall|n: int|
                0 <= n < self.length ==> self.output_delta_at(expected@, rule, n, #[trigger] final(deltas)@[n]),
    {
        let mut n: usize = 0;
        while n < self.length
            invariant
                n <= self.length,
                self.well_formed(),
                deltas@.len() == self.length,
                expected@.len() >= self.length,
                forall|outputs: &[T], targets: &[T], n: usize, potential: T|
                    n < outputs@.len() && n < targets@.len() ==> #[trigger] rule.requires(
                        (outputs, targets, n, potential),
                    ),
                forall|m: int| 0 <= m < n ==> self.output_delta_at(expected@, rule, m, #[trigger] deltas@[m]),
            decreases self.length - n,
        {
            let outputs = self.outputs.as_slice();
            let delta = rule(outputs, expected, n, self.potentials[n]);
            deltas.set(n, delta);
            assert(self.output_delta_at(expected@, rule, n as int, delta));
            n = n + 1;
        }
    }

    /// `delta` is what `rule` returns for unit `n` of this layer, given the
    /// weights that lead from it into `next`, the error signals of `next`
    /// and the unit's cached pre-activation sum.
    pub open spec fn hidden_delta_at<H: Fn(&[T], &[T], T) -> T>(
        &self,
        next: &Linear<T>,
        next_deltas: Seq<T>,
        rule: &H,
        n: int,
        delta: T,
    ) -> bool {
        exists|outgoing: &[T], signals: &[T]|
            {
                &&& #[trigger] rule.ensures((outgoing, signals, self.potentials@[n]), delta)
                &&& signals@ == next_deltas
                &&& outgoing@.len() == next.length
                &&& forall|m: int| 0 <= m < next.length ==> #[trigger] outgoing@[m] == next.weight(n, m)
            }
    }

    /// Error signals of a layer that has the layer `next` after it:
    /// overwrites `deltas[n]`, for every unit `n`, with what `rule` makes of
    /// the weights from `n` into `next`, the error signals of `next` and the
    /// unit's cached pre-activation sum.
    pub fn hidden_deltas<H: Fn(&[T], &[T], T) -> T>(
        &self,
        next: &Linear<T>,
        next_deltas: &[T],
        deltas: &mut Vec<T>,
        rule: &H,
    )
        requires
            self.well_formed(),
            next.well_formed(),
            next.input_size == self.length,
            next_deltas@.len() == next.length,
            old(deltas)@.len() == self.length,
            forall|outgoing: &[T], signals: &[T], potential: T|
                outgoing@.len() == signals@.len() ==> #[trigger] rule.requires((outgoing, signals, potential)),
        ensures
            final(deltas)@.len() == self.length,
            forall|n: int|
                0 <= n < self.length ==> self.hidden_delta_at(
                    next,
                    next_deltas@,
                    rule,
                    n,
                    #[trigger] final(deltas)@[n],
                ),
    {
        let mut n: usize = 0;
        while n < self.length
            invariant
                n <= self.length,
                self.well_formed(),
                next.well_formed(),
                next.input_size == self.length,
                next_deltas@.len() == next.length,
                deltas@.len() == self.length,
                forall|outgoing: &[T], signals: &[T], potential: T|
                    outgoing@.len() == signals@.len() ==> #[trigger] rule.requires(
                        (outgoing, signals, potential),
                    ),
                forall|m: int|
                    0 <= m < n ==> self.hidden_delta_at(next, next_deltas@, rule, m, #[trigger] deltas@[m]),
            decreases self.length - n,
        {
            let column = next.outgoing_weights(n);
            let delta = rule(column.as_slice(), next_deltas, self.potentials[n]);
            deltas.set(n, delta);
            assert(self.hidden_delta_at(next, next_deltas@, rule, n as int, delta));
            n = n + 1;
        }
    }

    /// Every bias is what `sum` makes of its value in `before` and the
    /// unit's error signal; every weight is what `blend` makes of its value
    /// in `before`, the error signal of the unit it leads to and the input
    /// it comes from.
    pub open spec fn accumulated_from<A: Fn(T, T) -> T, M: Fn(T, T, T) -> T>(
        &self,
        before: &Linear<T>,
        deltas: Seq<T>,
        previous: Seq<T>,
        sum: &A,
        blend: &M,
    ) -> bool {
        &&& forall|n: int|
            0 <= n < self.length ==> sum.ensures((before.bias@[n], deltas[n]), #[trigger] self.bias@[n])
        &&& forall|from: int, to: int|
            0 <= from < self.input_size && 0 <= to < self.length ==> blend.ensures(
                (before.weight(from, to), deltas[to], previous[from]),
                #[trigger] self.weight(from, to),
            )
    }

    /// Adds one unit's share of a sample's gradient to the weights that
    /// lead into it; every other weight stays.
    fn accumulate_unit<M: Fn(T, T, T) -> T>(&mut self, to: usize, delta: T, previous: &[T], blend: &M)
        requires
            old(self).well_formed(),
            to < old(self).length,
            previous@.len() == old(self).input_size,
            forall|p: T, s: T, g: T| #[trigger] blend.requires((p, s, g)),
        ensures
            final(self).well_formed(),
            final(self).same_shape(old(self)),
            final(self).bias@ == old(self).bias@,
            final(self).potentials@ == old(self).potentials@,
            final(self).outputs@ == old(self).outputs@,
            forall|from: int|
                0 <= from < old(self).input_size ==> blend.ensures(
                    (old(self).weight(from, to as int), delta, previous@[from]),
                    #[trigger] final(self).weight(from, to as int),
                ),
            forall|f: int, t: int|
                0 <= f < old(self).input_size && 0 <= t < old(self).length && t != to
                    ==> #[trigger] final(self).weight(f, t) == old(self).weight(f, t),
    {
        let mut from: usize = 0;
        while from < self.input_size
            invariant
                from <= self.input_size,
                self.well_formed(),
                self.same_shape(old(self)),
                to < self.length,
                previous@.len() == self.input_size,
                self.bias@ == old(self).bias@,
                self.potentials@ == old(self).potentials@,
                self.outputs@ == old(self).outputs@,
                forall|p: T, s: T, g: T| #[trigger] blend.requires((p, s, g)),
                forall|f: int|
                    0 <= f < from ==> blend.ensures(
                        (old(self).weight(f, to as int), delta, previous@[f]),
                        #[trigger] self.weight(f, to as int),
                    ),
                forall|f: int, t: int|
                    0 <= f < self.input_size && 0 <= t < self.length && (t != to || f >= from)
                        ==> #[trigger] self.weight(f, t) == old(self).weight(f, t),
            decreases self.input_size - from,
        {
            let value = blend(self.get_weight(from, to), delta, previous[from]);
            self.set_weight(from, to, value);
            from = from + 1;
        }
    }

    /// Adds one sample's gradient to this accumulator: `deltas[n]` to the
    /// bias of every unit `n` through `sum`, and `deltas[n]` times
    /// `previous[k]` to the weight from `k` to `n` through `blend`. The
    /// caches are not touched.
    pub fn accumulate<A: Fn(T, T) -> T, M: Fn(T, T, T) -> T>(
        &mut self,
        deltas: &[T],
        previous: &[T],
        sum: &A,
        blend: &M,
    )
        requires
            old(self).well_formed(),
            deltas@.len() == old(self).length,
            previous@.len() == old(self).input_size,
            forall|a: T, b: T| #[trigger] sum.requires((a, b)),
            forall|p: T, s: T, g: T| #[trigger] blend.requires((p, s, g)),
        ensures
            final(self).well_formed(),
            final(self).same_shape(old(self)),
            final(self).potentials@ == old(self).potentials@,
            final(self).outputs@ == old(self).outputs@,
            final(self).accumulated_from(old(self), deltas@, previous@, sum, blend),
    {
        let mut n: usize = 0;
        while n < self.length
            invariant
                n <= self.length,
                self.well_formed(),
                self.same_shape(old(self)),
                deltas@.len() == self.length,
                previous@.len() == self.input_size,
                self.potentials@ == old(self).potentials@,
                self.outputs@ == old(self).outputs@,
                forall|a: T, b: T| #[trigger] sum.requires((a, b)),
                forall|p: T, s: T, g: T| #[trigger] blend.requires((p, s, g)),
                forall|m: int|
                    0 <= m < n ==> sum.ensures((old(self).bias@[m], deltas@[m]), #[trigger] self.bias@[m]),
                forall|m: int| n <= m < self.length ==> #[trigger] self.bias@[m] == old(self).bias@[m],
                forall|f: int, t: int|
                    0 <= f < self.input_size && 0 <= t < n ==> blend.ensures(
                        (old(self).weight(f, t), deltas@[t], previous@[f]),
                        #[trigger] self.weight(f, t),
                    ),
                forall|f: int, t: int|
                    0 <= f < self.input_size && n <= t < self.length ==> #[trigger] self.weight(f, t)
                        == old(self).weight(f, t),
            decreases self.length - n,
        {
            let delta = deltas[n];
            let bias = sum(self.get_bias(n), delta);
            let ghost before = *self;
            self.set_bias(n, bias);
            let ghost between = *self;
            self.accumulate_unit(n, delta, previous, blend);
            proof {
                assert forall|f: int, t: int| 0 <= f < self.input_size && 0 <= t < self.length implies (
                #[trigger] between.weight(f, t)) == before.weight(f, t) by {}
                assert forall|f: int, t: int|
                    0 <= f < self.input_size && 0 <= t < self.length && t != n implies (
                #[trigger] self.weight(f, t)) == before.weight(f, t) by {
                    assert(between.weight(f, t) == before.weight(f, t));
                }
                assert forall|f: int| 0 <= f < self.input_size implies blend.ensures(
                    (old(self).weight(f, n as int), deltas@[n as int], previous@[f]),
                    #[trigger] self.weight(f, n as int),
                ) by {
                    assert(between.weight(f, n as int) == before.weight(f, n as int));
                }
            }
            n = n + 1;
        }
    }

    /// Every bias and weight is what `blend` makes of its value in `before`,
    /// of `scale` and of the entry of `gradient` in the same place.
    pub open spec fn stepped_from<M: Fn(T, T, T) -> T>(
        &self,
        before: &Linear<T>,
        gradient: &Linear<T>,
        scale: T,
        blend: &M,
    ) -> bool {
        &&& forall|n: int|
            0 <= n < self.length ==> blend.ensures(
                (before.bias@[n], scale, gradient.bias@[n]),
                #[trigger] self.bias@[n],
            )
        &&& forall|from: int, to: int|
            0 <= from < self.input_size && 0 <= to < self.length ==> blend.ensures(
                (before.weight(from, to), scale, gradient.weight(from, to)),
                #[trigger] self.weight(from, to),
            )
    }

    /// One descent step on this layer: every bias and every weight `p`
    /// becomes `blend(p, scale, g)`, where `g` is the entry of `gradient` in
    /// the same place. The caches are not touched.
    pub fn apply_step<M: Fn(T, T, T) -> T>(&mut self, gradient: &Linear<T>, scale: T, blend: &M)
        requires
            old(self).well_formed(),
            gradient.well_formed(),
            gradient.same_shape(old(self)),
            forall|p: T, s: T, g: T| #[trigger] blend.requires((p, s, g)),
        ensures
            final(self).well_formed(),
            final(self).same_shape(old(self)),
            final(self).potentials@ == old(self).potentials@,
            final(self).outputs@ == old(self).outputs@,
            final(self).stepped_from(old(self), gradient, scale, blend),
    {
        let n_bias: usize = self.bias.len();
        let mut n: usize = 0;
        while n < n_bias
            invariant
                n <= n_bias,
                n_bias == self.length,
                self.well_formed(),
                gradient.well_formed(),
                gradient.same_shape(old(self)),
                self.same_shape(old(self)),
                self.weights@ == old(self).weights@,
                self.potentials@ == old(self).potentials@,
                self.outputs@ == old(self).outputs@,
                forall|p: T, s: T, g: T| #[trigger] blend.requires((p, s, g)),
                forall|m: int|
                    0 <= m < n ==> blend.ensures(
                        (old(self).bias@[m], scale, gradient.bias@[m]),
                        #[trigger] self.bias@[m],
                    ),
                forall|m: int| n <= m < n_bias ==> #[trigger] self.bias@[m] == old(self).bias@[m],
            decreases n_bias - n,
        {
            let value = blend(self.bias[n], scale, gradient.bias[n]);
            self.bias.set(n, value);
            n = n + 1;
        }
        let n_weights: usize = self.weights.len();
        let mut slot: usize = 0;
        while slot < n_weights
            invariant
                slot <= n_weights,
                n_weights == self.weights@.len(),
                self.well_formed(),
                gradient.well_formed(),
                gradient.same_shape(old(self)),
                self.same_shape(old(self)),
                self.potentials@ == old(self).potentials@,
                self.outputs@ == old(self).outputs@,
                forall|p: T, s: T, g: T| #[trigger] blend.requires((p, s, g)),
                forall|m: int|
                    0 <= m < self.length ==> blend.ensures(
                        (old(self).bias@[m], scale, gradient.bias@[m]),
                        #[trigger] self.bias@[m],
                    ),
                forall|s: int|
                    0 <= s < slot ==> blend.ensures(
                        (old(self).weights@[s], scale, gradient.weights@[s]),
                        #[trigger] self.weights@[s],
                    ),
                forall|s: int| slot <= s < n_weights ==> #[trigger] self.weights@[s] == old(self).weights@[s],
            decreases n_weights - slot,
        {
            let value = blend(self.weights[slot], scale, gradient.weights[slot]);
            self.weights.set(slot, value);
            slot = slot + 1;
        }
        proof {
            assert forall|from: int, to: int|
                0 <= from < self.input_size && 0 <= to < self.length implies blend.ensures(
                (old(self).weight(from, to), scale, gradient.weight(from, to)),
                #[trigger] self.weight(from, to),
            ) by {
                lemma_slot_in_bounds(self.input_size as int, self.length as int, from, to);
                let s = weight_slot(self.input_size as int, from, to);
                assert(blend.ensures((old(self).weights@[s], scale, gradient.weights@[s]), self.weights@[s]));
            }
        }
    }
}

} // verus!
