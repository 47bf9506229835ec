use vstd::prelude::*;
use vstd::slice::slice_to_vec;
use crate::brain::Brain;
use crate::error::Error;

verus! {

/// The arithmetic of a training step, supplied by the caller for the scalar
/// type in use.
pub struct Kernels<U, G, H, A, M, R> {
    /// From a layer's input, the weights into one unit and the unit's bias:
    /// the unit's pre-activation sum and its activation.
    pub unit: U,
    /// From the last layer's activations, the targets, a unit's index and
    /// its pre-activation sum: the unit's error signal.
    pub output_rule: G,
    /// From the weights that leave a unit, the error signals of the layer
    /// they lead to and the unit's pre-activation sum: the unit's error
    /// signal.
    pub hidden_rule: H,
    /// The sum of two scalars.
    pub sum: A,
    /// `blend(p, a, b)` is `p` plus the product of `a` and `b`.
    pub blend: M,
    /// From the learning rate and the number of samples in a batch: the
    /// factor by which the summed gradient is scaled, sign included.
    pub rate: R,
}

impl<T: Copy> Brain<T> {
    /// The error buffer of the last layer holds what `rule` makes of that
    /// layer's caches and the targets.
    pub open spec fn output_signals<G: Fn(&[T], &[T], usize, T) -> T>(&self, expected: Seq<T>, rule: &G) -> bool {
        let last = self.layers@.len() - 1;
        forall|n: int|
            0 <= n < self.layers@[last].length ==> self.layers@[last].output_delta_at(
                expected,
                rule,
                n,
                #[trigger] self.deltas@[last]@[n],
            )
    }

    /// The error buffer of layer `l` holds what `rule` makes of the weights
    /// into layer `l + 1`, the error buffer of layer `l + 1` and the cached
    /// pre-activation sums of layer `l`.
    pub open spec fn layer_signals<H: Fn(&[T], &[T], T) -> T>(&self, rule: &H, l: int) -> bool {
        forall|n: int|
            0 <= n < self.layers@[l].length ==> self.layers@[l].hidden_delta_at(
                &self.layers@[l + 1],
                self.deltas@[l + 1]@,
                rule,
                n,
                #[trigger] self.deltas@[l]@[n],
            )
    }

    /// `layer_signals` holds of every layer from `from` on, but the last.
    pub open spec fn hidden_signals<H: Fn(&[T], &[T], T) -> T>(&self, rule: &H, from: int) -> bool {
        forall|l: int| from <= l < self.layers@.len() - 1 ==> #[trigger] self.layer_signals(rule, l)
    }

    /// From layer `from` on, every accumulator of the workspace is its
    /// value in `before` plus the gradient of one sample: the layer's error
    /// signals, and their products with what the layer read on `data`.
    pub open spec fn accumulated<A: Fn(T, T) -> T, M: Fn(T, T, T) -> T>(
        &self,
        before: &Brain<T>,
        data: Seq<T>,
        sum: &A,
        blend: &M,
        from: int,
    ) -> bool {
        forall|l: int|
            from <= l < self.layers@.len() ==> (#[trigger] self.tmp_layers@[l]).accumulated_from(
                &before.tmp_layers@[l],
                self.deltas@[l]@,
                self.input_of(data, l),
                sum,
                blend,
            )
    }

    /// Every layer's parameters are what `blend` makes of their values in
    /// `before`, of `scale` and of the workspace.
    pub open spec fn updated_from<M: Fn(T, T, T) -> T>(&self, before: &Brain<T>, scale: T, blend: &M) -> bool {
        forall|l: int|
            0 <= l < self.layers@.len() ==> (#[trigger] self.layers@[l]).stepped_from(
                &before.layers@[l],
                &self.tmp_layers@[l],
                scale,
                blend,
            )
    }

    /// Computes the error signals of every layer from the caches of the
    /// most recent forward pass: the last layer's from the targets, then
    /// each earlier layer's from those of the layer after it.
    pub fn compute_deltas<G: Fn(&[T], &[T], usize, T) -> T, H: Fn(&[T], &[T], T) -> T>(
        &mut self,
        expected: &[T],
        output_rule: &G,
        hidden_rule: &H,
    )
        requires
            old(self).well_formed(),
            old(self).layers@.len() > 0,
            expected@.len() >= old(self).layers@.last().length,
            forall|outputs: &[T], targets: &[T], n: usize, potential: T|
                n < outputs@.len() && n < targets@.len() ==> #[trigger] output_rule.requires(
                    (outputs, targets, n, potential),
                ),
            forall|outgoing: &[T], signals: &[T], potential: T|
                outgoing@.len() == signals@.len() ==> #[trigger] hidden_rule.requires(
                    (outgoing, signals, potential),
                ),
        ensures
            final(self).well_formed(),
            final(self).input_size == old(self).input_size,
            final(self).learn_rate == old(self).learn_rate,
            final(self).layers == old(self).layers,
            final(self).tmp_layers == old(self).tmp_layers,
            final(self).output_signals(expected@, output_rule),
            final(self).hidden_signals(hidden_rule, 0),
    {
        let n: usize = self.layers.len();
        let last: usize = n - 1;
        let ghost start = *self;
        assert(self.layers@[last as int].well_formed());
        assert(self.deltas@[last as int]@.len() == self.layers@[last as int].length);
        self.layers[last].output_deltas(expected, &mut self.deltas[last], output_rule);
        assert(self.deltas@ == start.deltas@.update(last as int, self.deltas@[last as int]));
        let mut index: usize = last;
        while index > 0
            invariant
                index <= last,
                last + 1 == self.layers@.len(),
                self.well_formed(),
                self.input_size == old(self).input_size,
                self.learn_rate == old(self).learn_rate,
                self.layers == old(self).layers,
                self.tmp_layers == old(self).tmp_layers,
                forall|outgoing: &[T], signals: &[T], potential: T|
                    outgoing@.len() == signals@.len() ==> #[trigger] hidden_rule.requires(
                        (outgoing, signals, potential),
                    ),
                self.output_signals(expected@, output_rule),
                self.hidden_signals(hidden_rule, index as int),
            decreases index,
        {
            index = index - 1;
            let ghost before = *self;
            assert(self.layers@[index as int].well_formed());
            assert(self.layers@[index + 1].well_formed());
            assert(self.deltas@[index as int]@.len() == self.layers@[index as int].length);
            assert(self.deltas@[index + 1]@.len() == self.layers@[index + 1].length);
            let next_deltas: Vec<T> = slice_to_vec(self.deltas[index + 1].as_slice());
            self.layers[index].hidden_deltas(
                &self.layers[index + 1],
                next_deltas.as_slice(),
                &mut self.deltas[index],
                hidden_rule,
            );
            proof {
                assert(self.deltas@ == before.deltas@.update(index as int, self.deltas@[index as int]));
                assert(self.deltas@[last as int] == before.deltas@[last as int]);
                assert(self.layer_signals(hidden_rule, index as int));
                assert forall|l: int| index <= l < self.layers@.len() - 1 implies #[trigger] self.layer_signals(
                    hidden_rule,
                    l,
                ) by {
                    if l > index {
                        assert(before.layer_signals(hidden_rule, l));
                        assert(self.deltas@[l] == before.deltas@[l]);
                        assert(self.deltas@[l + 1] == before.deltas@[l + 1]);
                    }
                }
            }
        }
    }

    /// Adds the gradient of one sample to the workspace, layer by layer,
    /// from the error signals and from what each layer read in the most
    /// recent forward pass on `data`.
    pub fn accumulate_sample<A: Fn(T, T) -> T, M: Fn(T, T, T) -> T>(&mut self, data: &[T], sum: &A, blend: &M)
        requires
            old(self).well_formed(),
            data@.len() == old(self).input_size,
            forall|a: T, b: T| #[trigger] sum.requires((a, b)),
            forall|p: T, s: T, g: T| #[trigger] blend.requires((p, s, g)),
        ensures
            final(self).well_formed(),
            final(self).input_size == old(self).input_size,
            final(self).learn_rate == old(self).learn_rate,
            final(self).layers == old(self).layers,
            final(self).deltas == old(self).deltas,
            final(self).accumulated(old(self), data@, sum, blend, 0),
    {
        let n: usize = self.layers.len();
        let mut l: usize = n;
        while l > 0
            invariant
                l <= n,
                n == self.layers@.len(),
                self.well_formed(),
                data@.len() == self.input_size,
                self.input_size == old(self).input_size,
                self.learn_rate == old(self).learn_rate,
                self.layers == old(self).layers,
                self.deltas == old(self).deltas,
                forall|a: T, b: T| #[trigger] sum.requires((a, b)),
                forall|p: T, s: T, g: T| #[trigger] blend.requires((p, s, g)),
                forall|k: int| 0 <= k < l ==> #[trigger] self.tmp_layers@[k] == old(self).tmp_layers@[k],
                self.accumulated(old(self), data@, sum, blend, l as int),
            decreases l,
        {
            l = l - 1;
            let ghost before = *self;
            assert(self.layers@[l as int].well_formed());
            assert(self.tmp_layers@[l as int].well_formed());
            assert(self.deltas@[l as int]@.len() == self.layers@[l as int].length);
            if l == 0 {
                self.tmp_layers[l].accumulate(self.deltas[l].as_slice(), data, sum, blend);
            } else {
                assert(self.layers@[l - 1].well_formed());
                self.tmp_layers[l].accumulate(
                    self.deltas[l].as_slice(),
                    self.layers[l - 1].get_outputs(),
                    sum,
                    blend,
                );
            }
            proof {
                assert(self.tmp_layers@ == before.tmp_layers@.update(l as int, self.tmp_layers@[l as int]));
                assert forall|k: int| l <= k < self.layers@.len() implies (
                #[trigger] self.tmp_layers@[k]).accumulated_from(
                    &old(self).tmp_layers@[k],
                    self.deltas@[k]@,
                    self.input_of(data@, k),
                    sum,
                    blend,
                ) by {
                    if k > l {
                        assert(self.tmp_layers@[k] == before.tmp_layers@[k]);
                    }
                }
            }
        }
    }

    /// One descent step on every layer: each bias and weight `p` becomes
    /// `blend(p, scale, g)`, where `g` is the workspace entry in the same
    /// place. Workspace, error buffers and caches are not touched.
    pub fn apply_update<M: Fn(T, T, T) -> T>(&mut self, scale: T, blend: &M)
        requires
            old(self).well_formed(),
            forall|p: T, s: T, g: T| #[trigger] blend.requires((p, s, g)),
        ensures
            final(self).well_formed(),
            final(self).input_size == old(self).input_size,
            final(self).learn_rate == old(self).learn_rate,
            final(self).tmp_layers == old(self).tmp_layers,
            final(self).deltas == old(self).deltas,
            final(self).layers@.len() == old(self).layers@.len(),
            forall|l: int|
                0 <= l < final(self).layers@.len() ==> {
                    &&& (#[trigger] final(self).layers@[l]).same_shape(&old(self).layers@[l])
                    &&& final(self).layers@[l].potentials@ == old(self).layers@[l].potentials@
                    &&& final(self).layers@[l].outputs@ == old(self).layers@[l].outputs@
                },
            final(self).updated_from(old(self), scale, blend),
    {
        let n: usize = self.layers.len();
        let mut l: usize = 0;
        while l < n
            invariant
                l <= n,
                n == self.layers@.len(),
                n == old(self).layers@.len(),
                self.well_formed(),
                old(self).well_formed(),
                self.input_size == old(self).input_size,
                self.learn_rate == old(self).learn_rate,
                self.tmp_layers == old(self).tmp_layers,
                self.deltas == old(self).deltas,
                forall|p: T, s: T, g: T| #[trigger] blend.requires((p, s, g)),
                forall|k: int|
                    0 <= k < n ==> {
                        &&& (#[trigger] self.layers@[k]).same_shape(&old(self).layers@[k])
                        &&& self.layers@[k].potentials@ == old(self).layers@[k].potentials@
                        &&& self.layers@[k].outputs@ == old(self).layers@[k].outputs@
                    },
                forall|k: int| l <= k < n ==> #[trigger] self.layers@[k] == old(self).layers@[k],
                forall|k: int|
                    0 <= k < l ==> (#[trigger] self.layers@[k]).stepped_from(
                        &old(self).layers@[k],
                        &self.tmp_layers@[k],
                        scale,
                        blend,
                    ),
            decreases n - l,
        {
            let ghost before = *self;
            assert(self.layers@[l as int].well_formed());
            assert(self.tmp_layers@[l as int].well_formed());
            assert(self.tmp_layers@[l as int].same_shape(&self.layers@[l as int]));
            self.layers[l].apply_step(&self.tmp_layers[l], scale, blend);
            proof {
                assert(self.layers@ == before.layers@.update(l as int, self.layers@[l as int]));
                assert forall|k: int| 0 <= k < n implies {
                    &&& (#[trigger] self.layers@[k]).well_formed()
                    &&& self.layers@[k].input_size == self.input_size_of(k)
                    &&& self.layers@[k].same_shape(&old(self).layers@[k])
                    &&& self.layers@[k].potentials@ == old(self).layers@[k].potentials@
                    &&& self.layers@[k].outputs@ == old(self).layers@[k].outputs@
                } by {
                    assert(before.layers@[k].well_formed());
                    assert(before.layers@[k].same_shape(&old(self).layers@[k]));
                    if k > 0 {
                        assert(before.layers@[k - 1].same_shape(&old(self).layers@[k - 1]));
                    }
                    if k != l {
                        assert(self.layers@[k] == before.layers@[k]);
                    }
                }
                assert forall|k: int| 0 <= k < l + 1 implies (#[trigger] self.layers@[k]).stepped_from(
                    &old(self).layers@[k],
                    &self.tmp_layers@[k],
                    scale,
                    blend,
                ) by {
                    if k < l {
                        assert(self.layers@[k] == before.layers@[k]);
                    }
                }
                assert forall|k: int| 0 <= k < n implies {
                    &&& (#[trigger] self.tmp_layers@[k]).well_formed()
                    &&& self.tmp_layers@[k].same_shape(&self.layers@[k])
                } by {
                    assert(before.tmp_layers@[k].same_shape(&before.layers@[k]));
                    assert(self.layers@[k].same_shape(&old(self).layers@[k]));
                }
                assert forall|k: int| 0 <= k < n implies (#[trigger] self.deltas@[k])@.len()
                    == self.layers@[k].length by {
                    assert(before.deltas@[k]@.len() == before.layers@[k].length);
                    assert(self.layers@[k].same_shape(&old(self).layers@[k]));
                }
            }
            l = l + 1;
        }
    }
}

impl<T: Copy> Brain<T> {
    /// Every kernel accepts the arguments that a training step hands it.
    pub open spec fn kernels_ready<
        U: Fn(&[T], &[T], T) -> (T, T),
        G: Fn(&[T], &[T], usize, T) -> T,
        H: Fn(&[T], &[T], T) -> T,
        A: Fn(T, T) -> T,
        M: Fn(T, T, T) -> T,
        R: Fn(T, usize) -> T,
    >(k: &Kernels<U, G, H, A, M, R>) -> bool {
        &&& forall|input: &[T], row: &[T], bias: T|
            input@.len() == row@.len() ==> #[trigger] k.unit.requires((input, row, bias))
        &&& forall|outputs: &[T], targets: &[T], n: usize, potential: T|
            n < outputs@.len() && n < targets@.len() ==> #[trigger] k.output_rule.requires(
                (outputs, targets, n, potential),
            )
        &&& forall|outgoing: &[T], signals: &[T], potential: T|
            outgoing@.len() == signals@.len() ==> #[trigger] k.hidden_rule.requires(
                (outgoing, signals, potential),
            )
        &&& forall|a: T, b: T| #[trigger] k.sum.requires((a, b))
        &&& forall|p: T, s: T, g: T| #[trigger] k.blend.requires((p, s, g))
        &&& forall|rate: T, samples: usize| #[trigger] k.rate.requires((rate, samples))
    }

    /// This network is `before` after one sample went through it: same
    /// parameters, caches from a forward pass on `data`, error signals
    /// from those caches and `expected`, and the sample's gradient added to
    /// the workspace of `before`.
    pub open spec fn sample_step<
        U: Fn(&[T], &[T], T) -> (T, T),
        G: Fn(&[T], &[T], usize, T) -> T,
        H: Fn(&[T], &[T], T) -> T,
        A: Fn(T, T) -> T,
        M: Fn(T, T, T) -> T,
        R: Fn(T, usize) -> T,
    >(&self, before: &Brain<T>, data: Seq<T>, expected: Seq<T>, k: &Kernels<U, G, H, A, M, R>) -> bool {
        &&& self.well_formed()
        &&& self.same_parameters(before)
        &&& self.learn_rate == before.learn_rate
        &&& self.propagated(data, &k.unit, self.layers@.len() as int)
        &&& self.output_signals(expected, &k.output_rule)
        &&& self.hidden_signals(&k.hidden_rule, 0)
        &&& self.accumulated(before, data, &k.sum, &k.blend, 0)
    }

    /// Sample `i` of the batch leads from `trace[i]` to `trace[i + 1]`.
    pub open spec fn step_at<
        U: Fn(&[T], &[T], T) -> (T, T),
        G: Fn(&[T], &[T], usize, T) -> T,
        H: Fn(&[T], &[T], T) -> T,
        A: Fn(T, T) -> T,
        M: Fn(T, T, T) -> T,
        R: Fn(T, usize) -> T,
    >(
        trace: Seq<Brain<T>>,
        i: int,
        data_arr: Seq<Vec<T>>,
        expected_arr: Seq<Vec<T>>,
        k: &Kernels<U, G, H, A, M, R>,
    ) -> bool {
        trace[i + 1].sample_step(&trace[i], data_arr[i]@, expected_arr[i]@, k)
    }

    /// `trace` records the network after the workspace was reset and after
    /// each of the first `upto` samples of the batch, in order.
    pub open spec fn batch_trace<
        U: Fn(&[T], &[T], T) -> (T, T),
        G: Fn(&[T], &[T], usize, T) -> T,
        H: Fn(&[T], &[T], T) -> T,
        A: Fn(T, T) -> T,
        M: Fn(T, T, T) -> T,
        R: Fn(T, usize) -> T,
    >(
        trace: Seq<Brain<T>>,
        start: &Brain<T>,
        data_arr: Seq<Vec<T>>,
        expected_arr: Seq<Vec<T>>,
        zero: T,
        k: &Kernels<U, G, H, A, M, R>,
        upto: int,
    ) -> bool {
        &&& trace.len() == upto + 1
        &&& trace[0].well_formed()
        &&& trace[0].layers == start.layers
        &&& trace[0].input_size == start.input_size
        &&& trace[0].learn_rate == start.learn_rate
        &&& trace[0].workspace_is(zero)
        &&& forall|i: int| 0 <= i < upto ==> #[trigger] Self::step_at(trace, i, data_arr, expected_arr, k)
    }

    /// This network is `start` after a whole batch: `trace` records the
    /// reset and the samples, and every parameter is what `blend` makes of
    /// its value in `start`, of `scale` and of the workspace as the last
    /// sample left it, where `scale` is what `rate` makes of the learning
    /// rate and the number of samples.
    pub open spec fn batch_result<
        U: Fn(&[T], &[T], T) -> (T, T),
        G: Fn(&[T], &[T], usize, T) -> T,
        H: Fn(&[T], &[T], T) -> T,
        A: Fn(T, T) -> T,
        M: Fn(T, T, T) -> T,
        R: Fn(T, usize) -> T,
    >(
        &self,
        start: &Brain<T>,
        trace: Seq<Brain<T>>,
        scale: T,
        data_arr: Seq<Vec<T>>,
        expected_arr: Seq<Vec<T>>,
        zero: T,
        k: &Kernels<U, G, H, A, M, R>,
    ) -> bool {
        let n = data_arr.len() as int;
        &&& Self::batch_trace(trace, start, data_arr, expected_arr, zero, k, n)
        &&& k.rate.ensures((start.learn_rate, n as usize), scale)
        &&& self.tmp_layers == trace[n].tmp_layers
        &&& self.deltas == trace[n].deltas
        &&& self.learn_rate == start.learn_rate
        &&& self.input_size == start.input_size
        &&& self.layers@.len() == start.layers@.len()
        &&& self.updated_from(&trace[n], scale, &k.blend)
        &&& forall|l: int|
            0 <= l < self.layers@.len() ==> {
                &&& (#[trigger] self.layers@[l]).same_shape(&start.layers@[l])
                &&& self.layers@[l].potentials@ == trace[n].layers@[l].potentials@
                &&& self.layers@[l].outputs@ == trace[n].layers@[l].outputs@
            }
    }

    /// Some sample of the batch does not have the network's input size.
    pub open spec fn has_misfit(&self, data_arr: Seq<Vec<T>>) -> bool {
        exists|i: int| 0 <= i < data_arr.len() && (#[trigger] data_arr[i])@.len() != self.input_size
    }

    /// Runs one sample through the network: a forward pass on `data`, the
    /// error signals of every layer against `expected`, and the sample's
    /// gradient added to the workspace. A `data` of the wrong length is
    /// rejected and nothing is changed.
    pub fn train_sample<
        U: Fn(&[T], &[T], T) -> (T, T),
        G: Fn(&[T], &[T], usize, T) -> T,
        H: Fn(&[T], &[T], T) -> T,
        A: Fn(T, T) -> T,
        M: Fn(T, T, T) -> T,
        R: Fn(T, usize) -> T,
    >(&mut self, data: &[T], expected: &[T], k: &Kernels<U, G, H, A, M, R>) -> (res: Result<(), Error>)
        requires
            old(self).well_formed(),
            old(self).layers@.len() > 0,
            expected@.len() >= old(self).layers@.last().length,
            Self::kernels_ready(k),
        ensures
            final(self).well_formed(),
            data@.len() != old(self).input_size ==> {
                &&& res == Err::<(), Error>(Error::InputSizeMismatch)
                &&& final(self).input_size == old(self).input_size
                &&& final(self).learn_rate == old(self).learn_rate
                &&& final(self).layers == old(self).layers
                &&& final(self).tmp_layers == old(self).tmp_layers
                &&& final(self).deltas == old(self).deltas
            },
            data@.len() == old(self).input_size ==> {
                &&& res == Ok::<(), Error>(())
                &&& final(self).sample_step(old(self), data@, expected@, k)
            },
    {
        match self.forward(data, &k.unit) {
            Err(e) => {
                return Err(e);
            },
            Ok(()) => {},
        }
        let ghost passed = *self;
        assert(self.layers@.last().length == old(self).layers@.last().length);
        self.compute_deltas(expected, &k.output_rule, &k.hidden_rule);
        let ghost signalled = *self;
        self.accumulate_sample(data, &k.sum, &k.blend);
        proof {
            assert(self.layers == passed.layers);
            assert(self.deltas == signalled.deltas);
            assert(self.propagated(data@, &k.unit, self.layers@.len() as int));
            assert(self.output_signals(expected@, &k.output_rule));
            assert forall|l: int| 0 <= l < self.layers@.len() - 1 implies #[trigger] self.layer_signals(
                &k.hidden_rule,
                l,
            ) by {
                assert(signalled.layer_signals(&k.hidden_rule, l));
            }
            assert(self.accumulated(old(self), data@, &k.sum, &k.blend, 0));
        }
        Ok(())
    }

    /// One training step on a batch. Batches of different lengths are
    /// rejected with `BatchSizeMismatch` before anything is changed.
    /// Otherwise the workspace is reset to `zero` and the samples go
    /// through the network in order; a sample of the wrong length ends the
    /// call with `InputSizeMismatch` and leaves every weight and bias as it
    /// was. After the last sample every parameter takes one step along the
    /// summed gradient, scaled by what `rate` makes of the learning rate
    /// and the batch size.
    pub fn backpropagation<
        U: Fn(&[T], &[T], T) -> (T, T),
        G: Fn(&[T], &[T], usize, T) -> T,
        H: Fn(&[T], &[T], T) -> T,
        A: Fn(T, T) -> T,
        M: Fn(T, T, T) -> T,
        R: Fn(T, usize) -> T,
    >(
        &mut self,
        data_arr: &[Vec<T>],
        expected_result_arr: &[Vec<T>],
        zero: T,
        k: &Kernels<U, G, H, A, M, R>,
    ) -> (res: Result<(), Error>)
        requires
            old(self).well_formed(),
            old(self).layers@.len() > 0,
            forall|i: int|
                0 <= i < expected_result_arr@.len() ==> (#[trigger] expected_result_arr@[i])@.len() >= old(
                    self,
                ).layers@.last().length,
            Self::kernels_ready(k),
        ensures
            final(self).well_formed(),
            final(self).input_size == old(self).input_size,
            final(self).learn_rate == old(self).learn_rate,
            final(self).layers@.len() == old(self).layers@.len(),
            data_arr@.len() != expected_result_arr@.len() ==> {
                &&& res == Err::<(), Error>(Error::BatchSizeMismatch)
                &&& final(self).layers == old(self).layers
                &&& final(self).tmp_layers == old(self).tmp_layers
                &&& final(self).deltas == old(self).deltas
            },
            data_arr@.len() == expected_result_arr@.len() && old(self).has_misfit(data_arr@) ==> {
                &&& res == Err::<(), Error>(Error::InputSizeMismatch)
                &&& final(self).same_parameters(old(self))
            },
            data_arr@.len() == expected_result_arr@.len() && !old(self).has_misfit(data_arr@) ==> {
                &&& res == Ok::<(), Error>(())
                &&& exists|trace: Seq<Brain<T>>, scale: T| #[trigger]
                    final(self).batch_result(
                        old(self),
                        trace,
                        scale,
                        data_arr@,
                        expected_result_arr@,
                        zero,
                        k,
                    )
            },
    {
        if data_arr.len() != expected_result_arr.len() {
            return Err(Error::BatchSizeMismatch);
        }
        self.reset_workspace(zero);
        let batch_size: usize = data_arr.len();
        let scale = (k.rate)(self.learn_rate, batch_size);
        let ghost mut trace: Seq<Brain<T>> = seq![*self];
        let mut idx: usize = 0;
        while idx < batch_size
            invariant
                idx <= batch_size,
                batch_size == data_arr@.len(),
                batch_size == expected_result_arr@.len(),
                self.well_formed(),
                old(self).well_formed(),
                old(self).layers@.len() > 0,
                self.same_parameters(old(self)),
                self.learn_rate == old(self).learn_rate,
                forall|i: int|
                    0 <= i < expected_result_arr@.len() ==> (#[trigger] expected_result_arr@[i])@.len() >= old(
                        self,
                    ).layers@.last().length,
                Self::kernels_ready(k),
                forall|i: int| 0 <= i < idx ==> (#[trigger] data_arr@[i])@.len() == self.input_size,
                Self::batch_trace(trace, old(self), data_arr@, expected_result_arr@, zero, k, idx as int),
                trace[idx as int] == *self,
            decreases batch_size - idx,
        {
            let ghost before = *self;
            assert(self.layers@.last().same_shape(&old(self).layers@.last()));
            match self.train_sample(data_arr[idx].as_slice(), expected_result_arr[idx].as_slice(), k) {
                Err(e) => {
                    assert(data_arr@[idx as int]@.len() != old(self).input_size);
                    return Err(e);
                },
                Ok(()) => {},
            }
            proof {
                let longer = trace.push(*self);
                assert(Self::step_at(longer, idx as int, data_arr@, expected_result_arr@, k));
                assert forall|i: int| 0 <= i < idx + 1 implies #[trigger] Self::step_at(
                    longer,
                    i,
                    data_arr@,
                    expected_result_arr@,
                    k,
                ) by {
                    if i < idx {
                        assert(Self::step_at(trace, i, data_arr@, expected_result_arr@, k));
                        assert(longer[i] == trace[i]);
                        assert(longer[i + 1] == trace[i + 1]);
                    }
                }
                assert(longer[0] == trace[0]);
                trace = longer;
            }
            idx = idx + 1;
        }
        let ghost summed = *self;
        self.apply_update(scale, &k.blend);
        proof {
            assert(!old(self).has_misfit(data_arr@));
            assert forall|l: int| 0 <= l < self.layers@.len() implies (#[trigger] self.layers@[l]).same_shape(
                &old(self).layers@[l],
            ) by {
                assert(summed.layers@[l].same_shape(&old(self).layers@[l]));
            }
            assert(self.batch_result(old(self), trace, scale, data_arr@, expected_result_arr@, zero, k));
        }
        Ok(())
    }
}

} // verus!
