use vstd::prelude::*;
use crate::brain::Brain;
use crate::sample::pick_index;

verus! {

/// A set of samples: one input vector and one target vector for each.
pub struct Mnist<T> {
    pub number: usize,
    pub rows: usize,
    pub columns: usize,
    pub images: Vec<Vec<T>>,
    pub results: Vec<Vec<T>>,
}

/// At place `i` the running best moves to `i` if `above` puts `values[i]`
/// over the best so far, and stays otherwise.
pub open spec fn best_step<T, P: Fn(T, T) -> bool>(values: Seq<T>, above: &P, places: Seq<usize>, i: int) -> bool {
    exists|higher: bool|
        {
            &&& #[trigger] above.ensures((values[i], values[places[i - 1] as int]), higher)
            &&& places[i] == (if higher {
                i as usize
            } else {
                places[i - 1]
            })
        }
}

/// `places[i]` is the place of the best among the first `i + 1` values,
/// for every `i` below `upto`: the walk starts at place 0 and goes on by
/// `best_step`.
pub open spec fn best_prefix<T, P: Fn(T, T) -> bool>(
    values: Seq<T>,
    above: &P,
    places: Seq<usize>,
    upto: int,
) -> bool {
    &&& places.len() == upto
    &&& upto >= 1
    &&& places[0] == 0
    &&& forall|i: int| 1 <= i < upto ==> #[trigger] best_step(values, above, places, i)
}

/// `best` is where a walk over `values` from the first to the last leaves
/// the running best; it is 0 where there are no values.
pub open spec fn best_of<T, P: Fn(T, T) -> bool>(values: Seq<T>, above: &P, best: usize) -> bool {
    if values.len() == 0 {
        best == 0
    } else {
        exists|places: Seq<usize>| #[trigger]
            best_prefix(values, above, places, values.len() as int) && places.last() == best
    }
}

/// `flags[i]` is what `is_hot` says of `values[i]`.
pub open spec fn hot_flags<T, Q: Fn(T) -> bool>(values: Seq<T>, is_hot: &Q, flags: Seq<bool>) -> bool {
    &&& flags.len() == values.len()
    &&& forall|i: int| 0 <= i < values.len() ==> is_hot.ensures((values[i],), #[trigger] flags[i])
}

/// `place` is the last place that `flags` sets, or 0 where it sets none.
pub open spec fn last_set(flags: Seq<bool>, place: usize) -> bool {
    &&& forall|i: int| place < i < flags.len() ==> !#[trigger] flags[i]
    &&& (place < flags.len() && flags[place as int]) || (place == 0 && forall|i: int|
        0 <= i < flags.len() ==> !#[trigger] flags[i])
}

/// `place` is the last place of `values` that `is_hot` accepts, or 0.
pub open spec fn hot_of<T, Q: Fn(T) -> bool>(values: Seq<T>, is_hot: &Q, place: usize) -> bool {
    exists|flags: Seq<bool>| #[trigger] hot_flags(values, is_hot, flags) && last_set(flags, place)
}

/// Number of marks that are set.
pub open spec fn count_set(marks: Seq<bool>) -> nat
    decreases marks.len(),
{
    if marks.len() == 0 {
        0
    } else {
        count_set(marks.drop_last()) + if marks.last() {
            1nat
        } else {
            0nat
        }
    }
}

/// Place of the greatest value: walks `values` from the first to the last
/// and moves to a place whenever `above` puts its value over the best so
/// far, so that of equal values the first wins.
pub fn argmax<T: Copy, P: Fn(T, T) -> bool>(values: &[T], above: &P) -> (best: usize)
    requires
        forall|a: T, b: T| #[trigger] above.requires((a, b)),
    ensures
        best_of(values@, above, best),
        values@.len() > 0 ==> best < values@.len(),
{
    if values.len() == 0 {
        return 0;
    }
    let mut val: usize = 0;
    let ghost mut places: Seq<usize> = seq![0usize];
    let mut i: usize = 1;
    while i < values.len()
        invariant
            1 <= i <= values@.len(),
            val < i,
            places.last() == val,
            best_prefix(values@, above, places, i as int),
            forall|a: T, b: T| #[trigger] above.requires((a, b)),
        decreases values@.len() - i,
    {
        let higher = above(values[i], values[val]);
        let ghost before = places;
        if higher {
            val = i;
        }
        proof {
            places = before.push(val);
            assert(best_step(values@, above, places, i as int));
            assert forall|j: int| 1 <= j < i + 1 implies #[trigger] best_step(values@, above, places, j) by {
                if j < i {
                    assert(best_step(values@, above, before, j));
                    assert(places[j] == before[j]);
                    assert(places[j - 1] == before[j - 1]);
                }
            }
        }
        i = i + 1;
    }
    val
}

/// Place of the hot entry of a target: the last place whose value
/// `is_hot` accepts, or 0 where it accepts none.
pub fn hot_index<T: Copy, Q: Fn(T) -> bool>(values: &[T], is_hot: &Q) -> (place: usize)
    requires
        forall|v: T| #[trigger] is_hot.requires((v,)),
    ensures
        hot_of(values@, is_hot, place),
{
    let mut place: usize = 0;
    let ghost mut flags: Seq<bool> = Seq::empty();
    let mut i: usize = 0;
    while i < values.len()
        invariant
            i <= values@.len(),
            flags.len() == i,
            forall|j: int| 0 <= j < i ==> is_hot.ensures((values@[j],), #[trigger] flags[j]),
            last_set(flags, place),
            forall|v: T| #[trigger] is_hot.requires((v,)),
        decreases values@.len() - i,
    {
        let hot = is_hot(values[i]);
        let ghost before = flags;
        if hot {
            place = i;
        }
        proof {
            flags = before.push(hot);
            assert forall|j: int| 0 <= j < i + 1 implies is_hot.ensures((values@[j],), #[trigger] flags[j]) by {
                if j < i {
                    assert(flags[j] == before[j]);
                }
            }
            assert forall|j: int| 0 <= j < i implies flags[j] == #[trigger] before[j] by {}
            if !hot {
                assert forall|j: int| place < j < flags.len() implies !#[trigger] flags[j] by {
                    if j < i {
                        assert(flags[j] == before[j]);
                    }
                }
                if !(place < before.len() && before[place as int]) {
                    assert forall|j: int| 0 <= j < flags.len() implies !#[trigger] flags[j] by {
                        if j < i {
                            assert(flags[j] == before[j]);
                        }
                    }
                } else {
                    assert(flags[place as int] == before[place as int]);
                }
            }
        }
        i = i + 1;
    }
    proof {
        assert(hot_flags(values@, is_hot, flags));
    }
    place
}

impl<T: Copy> Mnist<T> {
    /// There is one input and one target for each sample.
    pub open spec fn well_formed(&self) -> bool {
        &&& self.images@.len() == self.number
        &&& self.results@.len() == self.number
    }

    /// Every input has the length that `network` reads.
    pub open spec fn fits(&self, network: &Brain<T>) -> bool {
        forall|i: int| 0 <= i < self.images@.len() ==> (#[trigger] self.images@[i])@.len() == network.input_size
    }

    /// `hit` tells whether the place of the greatest activation of the
    /// last layer of `network` is the place of the hot entry of the target
    /// of sample `index`.
    pub open spec fn judged<P: Fn(T, T) -> bool, Q: Fn(T) -> bool>(
        &self,
        network: &Brain<T>,
        index: int,
        above: &P,
        is_hot: &Q,
        hit: bool,
    ) -> bool {
        exists|best: usize, place: usize|
            {
                &&& #[trigger] best_of(network.layers@.last().outputs@, above, best)
                &&& #[trigger] hot_of(self.results@[index]@, is_hot, place)
                &&& hit == (best == place)
            }
    }

    /// Runs sample `index` through `network` and tells whether the network
    /// is right about it. The network's parameters are not touched.
    pub fn is_hit<F: Fn(&[T], &[T], T) -> (T, T), P: Fn(T, T) -> bool, Q: Fn(T) -> bool>(
        &self,
        network: &mut Brain<T>,
        index: usize,
        unit: &F,
        above: &P,
        is_hot: &Q,
    ) -> (hit: bool)
        requires
            self.well_formed(),
            index < self.number,
            old(network).well_formed(),
            old(network).layers@.len() > 0,
            self.fits(old(network)),
            forall|input: &[T], row: &[T], bias: T|
                input@.len() == row@.len() ==> #[trigger] unit.requires((input, row, bias)),
            forall|a: T, b: T| #[trigger] above.requires((a, b)),
            forall|v: T| #[trigger] is_hot.requires((v,)),
        ensures
            final(network).well_formed(),
            final(network).same_parameters(old(network)),
            final(network).tmp_layers == old(network).tmp_layers,
            final(network).deltas == old(network).deltas,
            final(network).learn_rate == old(network).learn_rate,
            final(network).propagated(self.images@[index as int]@, unit, final(network).layers@.len() as int),
            self.judged(final(network), index as int, above, is_hot, hit),
    {
        let passed = network.forward(self.images[index].as_slice(), unit);
        assert(passed is Ok);
        let last: usize = network.layers.len() - 1;
        let best = argmax(network.layers[last].get_outputs(), above);
        let place = hot_index(self.results[index].as_slice(), is_hot);
        proof {
            assert(network.layers@.last() == network.layers@[last as int]);
            assert(best_of(network.layers@.last().outputs@, above, best));
            assert(hot_of(self.results@[index as int]@, is_hot, place));
        }
        best == place
    }

    /// Trial `j` drew the sample `picks[j]`, ran it through the network as
    /// `states[j]` had it, which gave `states[j + 1]`, and `marks[j]` tells
    /// whether the network was right about it.
    pub open spec fn trial_at<F: Fn(&[T], &[T], T) -> (T, T), P: Fn(T, T) -> bool, Q: Fn(T) -> bool>(
        &self,
        states: Seq<Brain<T>>,
        picks: Seq<usize>,
        marks: Seq<bool>,
        j: int,
        unit: &F,
        above: &P,
        is_hot: &Q,
    ) -> bool {
        &&& picks[j] < self.number
        &&& states[j + 1].well_formed()
        &&& states[j + 1].same_parameters(&states[j])
        &&& states[j + 1].tmp_layers == states[j].tmp_layers
        &&& states[j + 1].deltas == states[j].deltas
        &&& states[j + 1].learn_rate == states[j].learn_rate
        &&& states[j + 1].propagated(
            self.images@[picks[j] as int]@,
            unit,
            states[j + 1].layers@.len() as int,
        )
        &&& self.judged(&states[j + 1], picks[j] as int, above, is_hot, marks[j])
    }

    /// `upto` trials were run in a row from the network `start`: `picks`
    /// holds the samples drawn, `states` the network before the first trial
    /// and after each, `marks` whether each was right.
    pub open spec fn trials_run<F: Fn(&[T], &[T], T) -> (T, T), P: Fn(T, T) -> bool, Q: Fn(T) -> bool>(
        &self,
        start: &Brain<T>,
        states: Seq<Brain<T>>,
        picks: Seq<usize>,
        marks: Seq<bool>,
        upto: int,
        unit: &F,
        above: &P,
        is_hot: &Q,
    ) -> bool {
        &&& states.len() == upto + 1
        &&& picks.len() == upto
        &&& marks.len() == upto
        &&& states[0] == *start
        &&& forall|j: int|
            0 <= j < upto ==> #[trigger] self.trial_at(states, picks, marks, j, unit, above, is_hot)
    }

    /// `network` is `start` after `trials` trials of which `hits` were
    /// right: some run of trials ends in `network` and sets `hits` marks.
    pub open spec fn tallied<F: Fn(&[T], &[T], T) -> (T, T), P: Fn(T, T) -> bool, Q: Fn(T) -> bool>(
        &self,
        start: &Brain<T>,
        network: &Brain<T>,
        trials: int,
        hits: int,
        unit: &F,
        above: &P,
        is_hot: &Q,
    ) -> bool {
        exists|states: Seq<Brain<T>>, picks: Seq<usize>, marks: Seq<bool>|
            {
                &&& #[trigger] self.trials_run(start, states, picks, marks, trials, unit, above, is_hot)
                &&& states.last() == *network
                &&& hits == count_set(marks)
            }
    }

    /// Draws `trials` samples at random, runs each through `network` in
    /// turn and counts those about which the network is right. The
    /// network's parameters are not touched; its caches are left as the
    /// last sample drawn filled them.
    pub fn count_hits<F: Fn(&[T], &[T], T) -> (T, T), P: Fn(T, T) -> bool, Q: Fn(T) -> bool>(
        &self,
        network: &mut Brain<T>,
        trials: usize,
        unit: &F,
        above: &P,
        is_hot: &Q,
    ) -> (hits: usize)
        requires
            self.well_formed(),
            self.number > 0,
            old(network).well_formed(),
            old(network).layers@.len() > 0,
            self.fits(old(network)),
            forall|input: &[T], row: &[T], bias: T|
                input@.len() == row@.len() ==> #[trigger] unit.requires((input, row, bias)),
            forall|a: T, b: T| #[trigger] above.requires((a, b)),
            forall|v: T| #[trigger] is_hot.requires((v,)),
        ensures
            hits <= trials,
            final(network).well_formed(),
            final(network).same_parameters(old(network)),
            final(network).tmp_layers == old(network).tmp_layers,
            final(network).deltas == old(network).deltas,
            final(network).learn_rate == old(network).learn_rate,
            self.tallied(old(network), final(network), trials as int, hits as int, unit, above, is_hot),
    {
        let mut hits: usize = 0;
        let mut done: usize = 0;
        let ghost mut states: Seq<Brain<T>> = seq![*network];
        let ghost mut picks: Seq<usize> = Seq::empty();
        let ghost mut marks: Seq<bool> = Seq::empty();
        while done < trials
            invariant
                done <= trials,
                hits <= done,
                self.well_formed(),
                self.number > 0,
                network.well_formed(),
                network.layers@.len() > 0,
                self.fits(network),
                network.same_parameters(old(network)),
                network.tmp_layers == old(network).tmp_layers,
                network.deltas == old(network).deltas,
                network.learn_rate == old(network).learn_rate,
                forall|input: &[T], row: &[T], bias: T|
                    input@.len() == row@.len() ==> #[trigger] unit.requires((input, row, bias)),
                forall|a: T, b: T| #[trigger] above.requires((a, b)),
                forall|v: T| #[trigger] is_hot.requires((v,)),
                self.trials_run(old(network), states, picks, marks, done as int, unit, above, is_hot),
                states.last() == *network,
                hits == count_set(marks),
            decreases trials - done,
        {
            let index = pick_index(self.number);
            let ghost before = *network;
            let hit = self.is_hit(network, index, unit, above, is_hot);
            if hit {
                hits = hits + 1;
            }
            proof {
                let longer = states.push(*network);
                let drawn = picks.push(index);
                let marked = marks.push(hit);
                assert(longer[done as int] == before);
                assert(self.trial_at(longer, drawn, marked, done as int, unit, above, is_hot));
                assert forall|j: int| 0 <= j < done + 1 implies #[trigger] self.trial_at(
                    longer,
                    drawn,
                    marked,
                    j,
                    unit,
                    above,
                    is_hot,
                ) by {
                    if j < done {
                        assert(self.trial_at(states, picks, marks, j, unit, above, is_hot));
                        assert(longer[j] == states[j]);
                        assert(longer[j + 1] == states[j + 1]);
                        assert(drawn[j] == picks[j]);
                        assert(marked[j] == marks[j]);
                    }
                }
                assert(longer[0] == states[0]);
                assert(marked.drop_last() =~= marks);
                states = longer;
                picks = drawn;
                marks = marked;
            }
            done = done + 1;
        }
        hits
    }
}

} // verus!
