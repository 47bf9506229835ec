use vstd::prelude::*;
use vstd::slice::slice_to_vec;
use crate::error::Error;
use crate::layer::{filled, Linear};

verus! {

/// A stack of dense layers with everything a training step needs beside it:
/// one gradient accumulator per layer, of the same shape, and one buffer of
/// error signals per layer.
pub struct Brain<T> {
    pub input_size: usize,
    pub layers: Vec<Linear<T>>,
    /// Gradient workspace: `tmp_layers[l]` has the shape of `layers[l]`.
    pub tmp_layers: Vec<Linear<T>>,
    /// Error signals: `deltas[l]` has one entry per output unit of `layers[l]`.
    pub deltas: Vec<Vec<T>>,
    pub learn_rate: T,
}

impl<T: Copy> Brain<T> {
    /// Number of values that layer `l` reads: the network's input size for
    /// the first layer, the size of the layer before it for every other.
    pub open spec fn input_size_of(&self, l: int) -> int {
        if l == 0 {
            self.input_size as int
        } else {
            self.layers@[l - 1].length as int
        }
    }

    /// Number of values that the next layer to be added will read.
    pub open spec fn next_input_size(&self) -> int {
        self.input_size_of(self.layers@.len() as int)
    }

    /// The layers chain, and workspace and error buffers match them.
    pub open spec fn well_formed(&self) -> bool {
        &&& self.tmp_layers@.len() == self.layers@.len()
        &&& self.deltas@.len() == self.layers@.len()
        &&& forall|l: int|
            0 <= l < self.layers@.len() ==> {
                &&& (#[trigger] self.layers@[l]).well_formed()
                &&& self.layers@[l].input_size == self.input_size_of(l)
            }
        &&& forall|l: int|
            0 <= l < self.layers@.len() ==> {
                &&& (#[trigger] self.tmp_layers@[l]).well_formed()
                &&& self.tmp_layers@[l].same_shape(&self.layers@[l])
            }
        &&& forall|l: int|
            0 <= l < self.layers@.len() ==> (#[trigger] self.deltas@[l])@.len()
                == self.layers@[l].length
    }

    /// Same layer count, shapes, weights and biases as `other`.
    pub open spec fn same_parameters(&self, other: &Brain<T>) -> bool {
        &&& self.input_size == other.input_size
        &&& self.layers@.len() == other.layers@.len()
        &&& forall|l: int|
            0 <= l < self.layers@.len() ==> {
                &&& (#[trigger] self.layers@[l]).same_shape(&other.layers@[l])
                &&& self.layers@[l].weights@ == other.layers@[l].weights@
                &&& self.layers@[l].bias@ == other.layers@[l].bias@
            }
    }

    /// What layer `l` reads in a forward pass on `data`: `data` itself for
    /// the first layer, the activations of the layer before it otherwise.
    pub open spec fn input_of(&self, data: Seq<T>, l: int) -> Seq<T> {
        if l == 0 {
            data
        } else {
            self.layers@[l - 1].outputs@
        }
    }

    /// The caches of the first `upto` layers are what a forward pass on
    /// `data` with `unit` leaves in them.
    pub open spec fn propagated<F: Fn(&[T], &[T], T) -> (T, T)>(
        &self,
        data: Seq<T>,
        unit: &F,
        upto: int,
    ) -> bool {
        forall|l: int|
            0 <= l < upto ==> (#[trigger] self.layers@[l]).computed_by(
                self.input_of(data, l),
                unit,
                self.layers@[l].length as int,
            )
    }

    /// A network without layers that reads `input_size` values.
    pub fn new(input_size: usize, learn_rate: T) -> (brain: Self)
        ensures
            brain.well_formed(),
            brain.input_size == input_size,
            brain.learn_rate == learn_rate,
            brain.layers@.len() == 0,
    {
        Brain {
            input_size,
            layers: Vec::new(),
            tmp_layers: Vec::new(),
            deltas: Vec::new(),
            learn_rate,
        }
    }

    /// Overwrites the learning rate.
    pub fn set_learn_rate(&mut self, rate: T)
        ensures
            final(self).learn_rate == rate,
            final(self).input_size == old(self).input_size,
            final(self).layers == old(self).layers,
            final(self).tmp_layers == old(self).tmp_layers,
            final(self).deltas == old(self).deltas,
    {
        self.learn_rate = rate;
    }

    /// Appends a layer of `output_size` units that reads what the network
    /// so far produces, together with its gradient accumulator and its
    /// error buffer. The layer's weights and biases are what `init` answers
    /// (see `Linear::new`); its caches, the accumulator and the error buffer
    /// hold `zero`. The layers that were there stay as they were.
    pub fn add_layer<I: Fn(usize) -> T>(&mut self, output_size: usize, zero: T, init: &I)
        requires
            old(self).well_formed(),
            output_size * old(self).next_input_size() <= usize::MAX,
            forall|place: usize| #[trigger] init.requires((place,)),
        ensures
            final(self).well_formed(),
            final(self).input_size == old(self).input_size,
            final(self).learn_rate == old(self).learn_rate,
            final(self).layers@.len() == old(self).layers@.len() + 1,
            forall|l: int|
                0 <= l < old(self).layers@.len() ==> {
                    &&& final(self).layers@[l] == old(self).layers@[l]
                    &&& final(self).tmp_layers@[l] == old(self).tmp_layers@[l]
                    &&& final(self).deltas@[l] == old(self).deltas@[l]
                },
            final(self).layers@.last().input_size == old(self).next_input_size(),
            final(self).layers@.last().length == output_size,
            forall|i: int|
                0 <= i < output_size * old(self).next_input_size() ==> init.ensures(
                    (i as usize,),
                    #[trigger] final(self).layers@.last().weights@[i],
                ),
            forall|n: int|
                0 <= n < output_size ==> init.ensures((n as usize,), #[trigger] final(self).layers@.last().bias@[n]),
            final(self).layers@.last().potentials@ == Seq::new(output_size as nat, |i: int| zero),
            final(self).layers@.last().outputs@ == Seq::new(output_size as nat, |i: int| zero),
            final(self).tmp_layers@.last().holds_only(zero),
            final(self).deltas@.last()@ == Seq::new(output_size as nat, |i: int| zero),
    {
        let n: usize = self.layers.len();
        let input_size: usize = if n == 0 {
            self.input_size
        } else {
            self.layers[n - 1].size()
        };
        let new_layer = Linear::new(input_size, output_size, zero, init);
        self.tmp_layers.push(Linear::uniform(input_size, output_size, zero));
        self.layers.push(new_layer);
        self.deltas.push(filled(output_size, zero));
    }

    /// Feeds `data` to the first layer and each layer's activations to the
    /// next, refreshing the caches of every layer; `unit` computes one
    /// output unit from its input vector, incoming weights and bias. A
    /// `data` of the wrong length is rejected and nothing is changed.
    pub fn forward<F: Fn(&[T], &[T], T) -> (T, T)>(&mut self, data: &[T], unit: &F) -> (res: Result<(), Error>)
        requires
            old(self).well_formed(),
            forall|input: &[T], row: &[T], bias: T|
                input@.len() == row@.len() ==> #[trigger] unit.requires((input, row, bias)),
        ensures
            final(self).well_formed(),
            final(self).same_parameters(old(self)),
            final(self).tmp_layers == old(self).tmp_layers,
            final(self).deltas == old(self).deltas,
            final(self).learn_rate == old(self).learn_rate,
            data@.len() != old(self).input_size ==> {
                &&& res == Err::<(), Error>(Error::InputSizeMismatch)
                &&& final(self).layers == old(self).layers
            },
            data@.len() == old(self).input_size ==> {
                &&& res == Ok::<(), Error>(())
                &&& final(self).propagated(data@, unit, final(self).layers@.len() as int)
            },
    {
        if data.len() != self.input_size {
            return Err(Error::InputSizeMismatch);
        }
        let n: usize = self.layers.len();
        let mut l: usize = 0;
        while l < n
            invariant
                l <= n,
                n == self.layers@.len(),
                self.well_formed(),
                self.same_parameters(old(self)),
                self.tmp_layers == old(self).tmp_layers,
                self.deltas == old(self).deltas,
                self.learn_rate == old(self).learn_rate,
                data@.len() == self.input_size,
                forall|input: &[T], row: &[T], bias: T|
                    input@.len() == row@.len() ==> #[trigger] unit.requires((input, row, bias)),
                self.propagated(data@, unit, l as int),
            decreases n - l,
        {
            let input: Vec<T> = if l == 0 {
                slice_to_vec(data)
            } else {
                slice_to_vec(self.layers[l - 1].get_outputs())
            };
            let ghost before = *self;
            assert(self.layers@[l as int].well_formed());
            let layer = &mut self.layers[l];
            layer.forward(input.as_slice(), unit);
            proof {
                assert(self.layers@ == before.layers@.update(l as int, self.layers@[l as int]));
                assert forall|k: int| 0 <= k < l + 1 implies (#[trigger] self.layers@[k]).computed_by(
                    self.input_of(data@, k),
                    unit,
                    self.layers@[k].length as int,
                ) by {
                    if k < l {
                        assert(self.layers@[k] == before.layers@[k]);
                        assert(before.layers@[k].computed_by(
                            before.input_of(data@, k),
                            unit,
                            before.layers@[k].length as int,
                        ));
                    }
                }
            }
            l = l + 1;
        }
        Ok(())
    }

    /// `value` is what `loss` returns for the last layer's cached
    /// activations and the targets.
    pub open spec fn loss_of<C: Fn(&[T], &[T]) -> T>(&self, expected: Seq<T>, loss: &C, value: T) -> bool {
        exists|outputs: &[T], targets: &[T]|
            {
                &&& #[trigger] loss.ensures((outputs, targets), value)
                &&& outputs@ == self.layers@.last().outputs@
                &&& targets@ == expected
            }
    }

    /// Runs a forward pass on `inputs` and hands the last layer's
    /// activations and `expected_results` to `loss`. An `inputs` of the
    /// wrong length is rejected and nothing is changed.
    pub fn cost<F: Fn(&[T], &[T], T) -> (T, T), C: Fn(&[T], &[T]) -> T>(
        &mut self,
        inputs: &[T],
        expected_results: &[T],
        unit: &F,
        loss: &C,
    ) -> (res: Result<T, Error>)
        requires
            old(self).well_formed(),
            old(self).layers@.len() > 0,
            expected_results@.len() >= old(self).layers@.last().length,
            forall|input: &[T], row: &[T], bias: T|
                input@.len() == row@.len() ==> #[trigger] unit.requires((input, row, bias)),
            forall|outputs: &[T], targets: &[T]|
                outputs@.len() <= targets@.len() ==> #[trigger] loss.requires((outputs, targets)),
        ensures
            final(self).well_formed(),
            final(self).same_parameters(old(self)),
            final(self).tmp_layers == old(self).tmp_layers,
            final(self).deltas == old(self).deltas,
            final(self).learn_rate == old(self).learn_rate,
            inputs@.len() != old(self).input_size ==> {
                &&& res == Err::<T, Error>(Error::InputSizeMismatch)
                &&& final(self).layers == old(self).layers
            },
            inputs@.len() == old(self).input_size ==> {
                &&& res is Ok
                &&& final(self).propagated(inputs@, unit, final(self).layers@.len() as int)
                &&& final(self).loss_of(expected_results@, loss, res->Ok_0)
            },
    {
        match self.forward(inputs, unit) {
            Err(e) => {
                return Err(e);
            },
            Ok(()) => {},
        }
        let last: usize = self.layers.len() - 1;
        assert(self.layers@[last as int].well_formed());
        assert(self.layers@[last as int].same_shape(&old(self).layers@[last as int]));
        let value = loss(self.layers[last].get_outputs(), expected_results);
        Ok(value)
    }

    /// Overwrites every weight and bias of the gradient workspace with
    /// `zero`, whatever an earlier batch left there. The layers themselves
    /// are not touched.
    pub fn reset_workspace(&mut self, zero: T)
        requires
            old(self).well_formed(),
        ensures
            final(self).well_formed(),
            final(self).input_size == old(self).input_size,
            final(self).layers == old(self).layers,
            final(self).deltas == old(self).deltas,
            final(self).learn_rate == old(self).learn_rate,
            final(self).workspace_is(zero),
    {
        let n: usize = self.tmp_layers.len();
        let mut l: usize = 0;
        while l < n
            invariant
                l <= n,
                n == self.tmp_layers@.len(),
                self.well_formed(),
                self.input_size == old(self).input_size,
                self.layers == old(self).layers,
                self.deltas == old(self).deltas,
                self.learn_rate == old(self).learn_rate,
                forall|k: int| 0 <= k < l ==> (#[trigger] self.tmp_layers@[k]).holds_only(zero),
            decreases n - l,
        {
            let ghost before = *self;
            assert(self.tmp_layers@[l as int].well_formed());
            let layer = &mut self.tmp_layers[l];
            layer.fill(zero);
            proof {
                assert(self.tmp_layers@ == before.tmp_layers@.update(l as int, self.tmp_layers@[l as int]));
                assert forall|k: int| 0 <= k < l + 1 implies (#[trigger] self.tmp_layers@[k]).holds_only(zero) by {
                    if k < l {
                        assert(self.tmp_layers@[k] == before.tmp_layers@[k]);
                    }
                }
            }
            l = l + 1;
        }
    }

    /// A reset forgets what was there: two networks of the same shapes
    /// whose workspaces were both reset to `zero` hold the same workspace
    /// parameters, whatever each held before.
    pub proof fn lemma_reset_forgets(&self, other: &Brain<T>, zero: T)
        requires
            self.well_formed(),
            other.well_formed(),
            self.layers@.len() == other.layers@.len(),
            forall|l: int|
                0 <= l < self.layers@.len() ==> (#[trigger] self.layers@[l]).same_shape(&other.layers@[l]),
            self.workspace_is(zero),
            other.workspace_is(zero),
        ensures
            forall|l: int|
                0 <= l < self.layers@.len() ==> {
                    &&& (#[trigger] self.tmp_layers@[l]).weights@ == other.tmp_layers@[l].weights@
                    &&& self.tmp_layers@[l].bias@ == other.tmp_layers@[l].bias@
                },
    {
        assert forall|l: int| 0 <= l < self.layers@.len() implies {
            &&& (#[trigger] self.tmp_layers@[l]).weights@ == other.tmp_layers@[l].weights@
            &&& self.tmp_layers@[l].bias@ == other.tmp_layers@[l].bias@
        } by {
            assert(self.tmp_layers@[l].same_shape(&self.layers@[l]));
            assert(other.tmp_layers@[l].same_shape(&other.layers@[l]));
            assert(self.layers@[l].same_shape(&other.layers@[l]));
            assert(self.tmp_layers@[l].holds_only(zero));
            assert(other.tmp_layers@[l].holds_only(zero));
            assert(self.tmp_layers@[l].weights@ =~= other.tmp_layers@[l].weights@);
            assert(self.tmp_layers@[l].bias@ =~= other.tmp_layers@[l].bias@);
        }
    }

    /// Every weight and every bias of the gradient workspace is `value`.
    pub open spec fn workspace_is(&self, value: T) -> bool {
        forall|l: int| 0 <= l < self.tmp_layers@.len() ==> (#[trigger] self.tmp_layers@[l]).holds_only(value)
    }
}

} // verus!
