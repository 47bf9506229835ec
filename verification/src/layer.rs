use vstd::prelude::*;

verus! {

/// One dense layer: a `length` by `input_size` weight matrix kept row by
/// row, one bias per output unit, and the two caches that the most recent
/// forward pass filled.
pub struct Linear<T> {
    pub input_size: usize,
    pub length: usize,
    /// The weight from input unit `from` to output unit `to` is kept at
    /// `to * input_size + from`.
    pub weights: Vec<T>,
    pub bias: Vec<T>,
    /// Weighted sum plus bias of each output unit, before activation.
    pub potentials: Vec<T>,
    /// Value of each output unit after activation.
    pub outputs: Vec<T>,
}

/// Position of the weight `(from, to)` in row-major storage with rows of
/// `input_size` entries.
pub open spec fn weight_slot(input_size: int, from: int, to: int) -> int {
    to * input_size + from
}

/// Every pair inside an `input_size` by `length` matrix has a slot inside
/// the storage.
pub proof fn lemma_slot_in_bounds(input_size: int, length: int, from: int, to: int)
    requires
        0 <= from < input_size,
        0 <= to < length,
    ensures
        0 <= weight_slot(input_size, from, to) < length * input_size,
        to * input_size + input_size <= length * input_size,
        0 <= to * input_size,
{
    assert(0 <= to * input_size && to * input_size + input_size <= length * input_size)
        by (nonlinear_arith)
        requires
            0 <= to < length,
            0 < input_size,
    ;
}

/// Two pairs that share a slot are the same pair.
pub proof fn lemma_slot_injective(input_size: int, from_a: int, to_a: int, from_b: int, to_b: int)
    requires
        0 <= from_a < input_size,
        0 <= from_b < input_size,
        0 <= to_a,
        0 <= to_b,
        weight_slot(input_size, from_a, to_a) == weight_slot(input_size, from_b, to_b),
    ensures
        from_a == from_b,
        to_a == to_b,
{
    if to_a < to_b {
        assert(to_a * input_size + input_size <= to_b * input_size) by (nonlinear_arith)
            requires
                to_a < to_b,
                0 < input_size,
        ;
    } else if to_b < to_a {
        assert(to_b * input_size + input_size <= to_a * input_size) by (nonlinear_arith)
            requires
                to_b < to_a,
                0 < input_size,
        ;
    }
}

/// A vector of `n` copies of `value`.
pub fn filled<T: Copy>(n: usize, value: T) -> (v: Vec<T>)
    ensures
        v@ == Seq::new(n as nat, |i: int| value),
{
    let mut v: Vec<T> = Vec::new();
    let mut i: usize = 0;
    while i < n
        invariant
            i <= n,
            v@ == Seq::new(i as nat, |k: int| value),
        decreases n - i,
    {
        v.push(value);
        i = i + 1;
        assert(v@ =~= Seq::new(i as nat, |k: int| value));
    }
    v
}

/// A vector of `n` entries, the entry at each place being what `init`
/// answers for that place; the places are asked in order.
pub fn drawn<T: Copy, I: Fn(usize) -> T>(n: usize, init: &I) -> (v: Vec<T>)
    requires
        forall|place: usize| #[trigger] init.requires((place,)),
    ensures
        v@.len() == n,
        forall|i: int| 0 <= i < n ==> init.ensures((i as usize,), #[trigger] v@[i]),
{
    let mut v: Vec<T> = Vec::new();
    let mut i: usize = 0;
    while i < n
        invariant
            i <= n,
            v@.len() == i,
            forall|place: usize| #[trigger] init.requires((place,)),
            forall|k: int| 0 <= k < i ==> init.ensures((k as usize,), #[trigger] v@[k]),
        decreases n - i,
    {
        let value = init(i);
        v.push(value);
        i = i + 1;
    }
    v
}

impl<T: Copy> Linear<T> {
    /// The storage has the sizes that the two dimensions call for.
    pub open spec fn well_formed(&self) -> bool {
        &&& self.weights.len() == self.length * self.input_size
        &&& self.bias.len() == self.length
        &&& self.potentials.len() == self.length
        &&& self.outputs.len() == self.length
    }

    /// Every weight and every bias is `value`.
    pub open spec fn holds_only(&self, value: T) -> bool {
        &&& forall|i: int| 0 <= i < self.weights@.len() ==> self.weights@[i] == value
        &&& forall|i: int| 0 <= i < self.bias@.len() ==> self.bias@[i] == value
    }

    /// The weight from input unit `from` to output unit `to`.
    pub open spec fn weight(&self, from: int, to: int) -> T {
        self.weights@[weight_slot(self.input_size as int, from, to)]
    }

    /// Same dimensions as `other`.
    pub open spec fn same_shape(&self, other: &Linear<T>) -> bool {
        self.input_size == other.input_size && self.length == other.length
    }

    /// A layer of the given dimensions in which every weight, bias and cache
    /// entry is `value`.
    pub fn uniform(input_size: usize, output_size: usize, value: T) -> (layer: Self)
        requires
            output_size * input_size <= usize::MAX,
        ensures
            layer.well_formed(),
            layer.input_size == input_size,
            layer.length == output_size,
            layer.weights@ == Seq::new((output_size * input_size) as nat, |i: int| value),
            layer.bias@ == Seq::new(output_size as nat, |i: int| value),
            layer.potentials@ == Seq::new(output_size as nat, |i: int| value),
            layer.outputs@ == Seq::new(output_size as nat, |i: int| value),
    {
        Linear {
            input_size,
            length: output_size,
            weights: filled(output_size * input_size, value),
            bias: filled(output_size, value),
            potentials: filled(output_size, value),
            outputs: filled(output_size, value),
        }
    }

    /// A fresh layer of the given dimensions. Each weight is what `init`
    /// answers for its place in the storage and each bias what it answers
    /// for its unit, the weights being asked first; both caches hold
    /// `zero`.
    pub fn new<I: Fn(usize) -> T>(input_size: usize, output_size: usize, zero: T, init: &I) -> (layer: Self)
        requires
            output_size * input_size <= usize::MAX,
            forall|place: usize| #[trigger] init.requires((place,)),
        ensures
            layer.well_formed(),
            layer.input_size == input_size,
            layer.length == output_size,
            forall|i: int|
                0 <= i < output_size * input_size ==> init.ensures((i as usize,), #[trigger] layer.weights@[i]),
            forall|n: int| 0 <= n < output_size ==> init.ensures((n as usize,), #[trigger] layer.bias@[n]),
            layer.potentials@ == Seq::new(output_size as nat, |i: int| zero),
            layer.outputs@ == Seq::new(output_size as nat, |i: int| zero),
    {
        let weights = drawn(output_size * input_size, init);
        let bias = drawn(output_size, init);
        Linear {
            input_size,
            length: output_size,
            weights,
            bias,
            potentials: filled(output_size, zero),
            outputs: filled(output_size, zero),
        }
    }

    /// Number of output units.
    pub fn size(&self) -> (n: usize)
        ensures
            n == self.length,
    {
        self.length
    }

    /// The cached activations of the most recent forward pass.
    pub fn get_outputs(&self) -> (out: &[T])
        ensures
            out@ == self.outputs@,
    {
        self.outputs.as_slice()
    }

    /// The cached pre-activation sums of the most recent forward pass.
    pub fn get_potentials(&self) -> (out: &[T])
        ensures
            out@ == self.potentials@,
    {
        self.potentials.as_slice()
    }

    /// The weight from input unit `from` to output unit `to`.
    pub fn get_weight(&self, from: usize, to: usize) -> (w: T)
        requires
            self.well_formed(),
            from < self.input_size,
            to < self.length,
        ensures
            w == self.weight(from as int, to as int),
    {
        proof {
            lemma_slot_in_bounds(self.input_size as int, self.length as int, from as int, to as int);
        }
        self.weights[to * self.input_size + from]
    }

    /// The bias of output unit `neuron`.
    pub fn get_bias(&self, neuron: usize) -> (b: T)
        requires
            self.well_formed(),
            neuron < self.length,
        ensures
            b == self.bias@[neuron as int],
    {
        self.bias[neuron]
    }

    /// The weights that lead into output unit `to`, one per input unit, in
    /// the order of the input units.
    pub fn incoming_weights(&self, to: usize) -> (row: &[T])
        requires
            self.well_formed(),
            to < self.length,
        ensures
            row@.len() == self.input_size,
            forall|from: int| 0 <= from < self.input_size ==> #[trigger] row@[from] == self.weight(from, to as int),
    {
        proof {
            if self.input_size > 0 {
                lemma_slot_in_bounds(self.input_size as int, self.length as int, 0, to as int);
            } else {
                assert(to * self.input_size == 0) by (nonlinear_arith)
                    requires
                        self.input_size == 0,
                ;
            }
        }
        let start: usize = to * self.input_size;
        let row = vstd::slice::slice_subrange(self.weights.as_slice(), start, start + self.input_size);
        row
    }

    /// Overwrites the weight from input unit `from` to output unit `to` and
    /// leaves every other weight, every bias and both caches as they were.
    pub fn set_weight(&mut self, from: usize, to: usize, val: T)
        requires
            old(self).well_formed(),
            from < old(self).input_size,
            to < old(self).length,
        ensures
            final(self).well_formed(),
            final(self).same_shape(old(self)),
            final(self).weight(from as int, to as int) == val,
            forall|f: int, t: int|
                0 <= f < old(self).input_size && 0 <= t < old(self).length && (f != from || t != to)
                    ==> #[trigger] final(self).weight(f, t) == old(self).weight(f, t),
            final(self).bias@ == old(self).bias@,
            final(self).potentials@ == old(self).potentials@,
            final(self).outputs@ == old(self).outputs@,
    {
        proof {
            lemma_slot_in_bounds(self.input_size as int, self.length as int, from as int, to as int);
        }
        let slot: usize = to * self.input_size + from;
        self.weights.set(slot, val);
        proof {
            assert forall|f: int, t: int|
                0 <= f < old(self).input_size && 0 <= t < old(self).length && (f != from || t != to)
                implies #[trigger] self.weight(f, t) == old(self).weight(f, t) by {
                lemma_slot_in_bounds(self.input_size as int, self.length as int, f, t);
                if weight_slot(self.input_size as int, f, t) == slot {
                    lemma_slot_injective(self.input_size as int, f, t, from as int, to as int);
                }
            }
        }
    }

    /// Overwrites the bias of output unit `neuron` and leaves everything
    /// else as it was.
    pub fn set_bias(&mut self, neuron: usize, val: T)
        requires
            old(self).well_formed(),
            neuron < old(self).length,
        ensures
            final(self).well_formed(),
            final(self).same_shape(old(self)),
            final(self).bias@ == old(self).bias@.update(neuron as int, val),
            final(self).weights@ == old(self).weights@,
            final(self).potentials@ == old(self).potentials@,
            final(self).outputs@ == old(self).outputs@,
    {
        self.bias.set(neuron, val);
    }

    /// Replaces the weight from `from` to `to` by what `sum` makes of it and
    /// `val`; every other weight, every bias and both caches stay.
    pub fn add_weight<A: Fn(T, T) -> T>(&mut self, from: usize, to: usize, val: T, sum: &A)
        requires
            old(self).well_formed(),
            from < old(self).input_size,
            to < old(self).length,
            forall|a: T, b: T| #[trigger] sum.requires((a, b)),
        ensures
            final(self).well_formed(),
            final(self).same_shape(old(self)),
            sum.ensures((old(self).weight(from as int, to as int), val), final(self).weight(from as int, to as int)),
            forall|f: int, t: int|
                0 <= f < old(self).input_size && 0 <= t < old(self).length && (f != from || t != to)
                    ==> #[trigger] final(self).weight(f, t) == old(self).weight(f, t),
            final(self).bias@ == old(self).bias@,
            final(self).potentials@ == old(self).potentials@,
            final(self).outputs@ == old(self).outputs@,
    {
        let value = sum(self.get_weight(from, to), val);
        self.set_weight(from, to, value);
    }

    /// Replaces the bias of `neuron` by what `sum` makes of it and `val`;
    /// everything else stays.
    pub fn add_bias<A: Fn(T, T) -> T>(&mut self, neuron: usize, val: T, sum: &A)
        requires
            old(self).well_formed(),
            neuron < old(self).length,
            forall|a: T, b: T| #[trigger] sum.requires((a, b)),
        ensures
            final(self).well_formed(),
            final(self).same_shape(old(self)),
            final(self).bias@.len() == old(self).bias@.len(),
            sum.ensures((old(self).bias@[neuron as int], val), final(self).bias@[neuron as int]),
            forall|n: int|
                0 <= n < old(self).length && n != neuron ==> #[trigger] final(self).bias@[n] == old(
                    self,
                ).bias@[n],
            final(self).weights@ == old(self).weights@,
            final(self).potentials@ == old(self).potentials@,
            final(self).outputs@ == old(self).outputs@,
    {
        let value = sum(self.get_bias(neuron), val);
        self.set_bias(neuron, value);
    }

    /// Records what a forward pass computed for output unit `neuron`: its
    /// pre-activation sum and its activation. The parameters and the cache
    /// entries of the other units stay as they were.
    pub fn record(&mut self, neuron: usize, potential: T, output: T)
        requires
            old(self).well_formed(),
            neuron < old(self).length,
        ensures
            final(self).well_formed(),
            final(self).same_shape(old(self)),
            final(self).potentials@ == old(self).potentials@.update(neuron as int, potential),
            final(self).outputs@ == old(self).outputs@.update(neuron as int, output),
            final(self).weights@ == old(self).weights@,
            final(self).bias@ == old(self).bias@,
    {
        self.potentials.set(neuron, potential);
        self.outputs.set(neuron, output);
    }

    /// `input` and `row` are the vectors that were handed to `unit` for
    /// output unit `to`, and the caches hold what it returned.
    pub open spec fn unit_witness<F: Fn(&[T], &[T], T) -> (T, T)>(
        &self,
        previous: Seq<T>,
        unit: &F,
        to: int,
        input: &[T],
        row: &[T],
    ) -> bool {
        &&& input@ == previous
        &&& row@.len() == self.input_size
        &&& forall|from: int| 0 <= from < self.input_size ==> #[trigger] row@[from] == self.weight(from, to)
        &&& unit.ensures((input, row, self.bias@[to]), (self.potentials@[to], self.outputs@[to]))
    }

    /// The cache entries of output unit `to` are what `unit` returns for
    /// the input `previous`, the unit's incoming weights and its bias.
    pub open spec fn unit_computed_by<F: Fn(&[T], &[T], T) -> (T, T)>(
        &self,
        previous: Seq<T>,
        unit: &F,
        to: int,
    ) -> bool {
        exists|input: &[T], row: &[T]| self.unit_witness(previous, unit, to, input, row)
    }

    /// The cache entries of the first `upto` output units are what `unit`
    /// returns on `previous`.
    pub open spec fn computed_by<F: Fn(&[T], &[T], T) -> (T, T)>(
        &self,
        previous: Seq<T>,
        unit: &F,
        upto: int,
    ) -> bool {
        forall|to: int| 0 <= to < upto ==> #[trigger] self.unit_computed_by(previous, unit, to)
    }

    /// Runs this layer on `previous_layer`. For each output unit in turn,
    /// `unit` receives the input vector, the unit's incoming weights and its
    /// bias, and returns the unit's pre-activation sum and its activation;
    /// both are written over the caches. Weights and biases are not touched.
    /// Returns the refreshed activations.
    pub fn forward<F: Fn(&[T], &[T], T) -> (T, T)>(&mut self, previous_layer: &[T], unit: &F) -> (out: &[T])
        requires
            old(self).well_formed(),
            previous_layer@.len() == old(self).input_size,
            forall|input: &[T], row: &[T], bias: T|
                input@.len() == row@.len() ==> #[trigger] unit.requires((input, row, bias)),
        ensures
            final(self).well_formed(),
            final(self).same_shape(old(self)),
            final(self).weights@ == old(self).weights@,
            final(self).bias@ == old(self).bias@,
            out@ == final(self).outputs@,
            final(self).computed_by(previous_layer@, unit, final(self).length as int),
    {
        let mut i: usize = 0;
        while i < self.length
            invariant
                i <= self.length,
                self.well_formed(),
                self.same_shape(old(self)),
                self.weights@ == old(self).weights@,
                self.bias@ == old(self).bias@,
                previous_layer@.len() == self.input_size,
                forall|input: &[T], row: &[T], bias: T|
                    input@.len() == row@.len() ==> #[trigger] unit.requires((input, row, bias)),
                self.computed_by(previous_layer@, unit, i as int),
            decreases self.length - i,
        {
            let bias = self.get_bias(i);
            let row = self.incoming_weights(i);
            let (potential, output) = unit(previous_layer, row, bias);
            let ghost before = *self;
            let ghost row_view = row@;
            self.record(i, potential, output);
            proof {
                assert forall|to: int| 0 <= to < i + 1 implies #[trigger] self.unit_computed_by(
                    previous_layer@,
                    unit,
                    to,
                ) by {
                    if to < i {
                        assert(before.unit_computed_by(previous_layer@, unit, to));
                        let (inp, r) = choose|inp: &[T], r: &[T]| before.unit_witness(previous_layer@, unit, to, inp, r);
                        assert(self.unit_witness(previous_layer@, unit, to, inp, r));
                    } else {
                        assert(self.unit_witness(previous_layer@, unit, to, previous_layer, row));
                    }
                }
            }
            i = i + 1;
        }
        self.outputs.as_slice()
    }

    /// A layer whose weights and biases all equal `zero` gives every unit
    /// the same activation `rest`, whatever it was fed, provided that `unit`
    /// answers `rest` whenever the weights it is handed and the bias are
    /// all `zero`.
    pub proof fn lemma_uniform_layer<F: Fn(&[T], &[T], T) -> (T, T)>(
        &self,
        previous: Seq<T>,
        unit: &F,
        zero: T,
        rest: T,
    )
        requires
            self.well_formed(),
            self.holds_only(zero),
            self.computed_by(previous, unit, self.length as int),
            forall|input: &[T], row: &[T], potential: T, output: T|
                #[trigger] unit.ensures((input, row, zero), (potential, output)) && (forall|i: int|
                    0 <= i < row@.len() ==> #[trigger] row@[i] == zero) ==> output == rest,
        ensures
            forall|n: int| 0 <= n < self.length ==> #[trigger] self.outputs@[n] == rest,
    {
        assert forall|n: int| 0 <= n < self.length implies #[trigger] self.outputs@[n] == rest by {
            assert(self.unit_computed_by(previous, unit, n));
            let (input, row) = choose|input: &[T], row: &[T]| self.unit_witness(previous, unit, n, input, row);
            assert forall|i: int| 0 <= i < row@.len() implies #[trigger] row@[i] == zero by {
                lemma_slot_in_bounds(self.input_size as int, self.length as int, i, n);
            }
            assert(self.bias@[n] == zero);
        }
    }

    /// Overwrites every weight and every bias with `value`, whatever they
    /// held before; the dimensions and the caches stay.
    pub fn fill(&mut self, value: T)
        requires
            old(self).well_formed(),
        ensures
            final(self).well_formed(),
            final(self).same_shape(old(self)),
            final(self).weights@ == Seq::new(old(self).weights@.len(), |i: int| value),
            final(self).bias@ == Seq::new(old(self).bias@.len(), |i: int| value),
            final(self).holds_only(value),
            final(self).potentials@ == old(self).potentials@,
            final(self).outputs@ == old(self).outputs@,
    {
        let n_weights: usize = self.weights.len();
        let n_bias: usize = self.bias.len();
        self.weights = filled(n_weights, value);
        self.bias = filled(n_bias, value);
    }
}

} // verus!
