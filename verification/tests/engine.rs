use brain::mnist::{count_at, image_header, label_header, one_hot, DecodeError, ImageHeader};
use brain::sample::{index_from_draw, pick_index};
use brain::evaluate::{argmax, hot_index};
use brain::{Brain, Error, Kernels, Linear, Mnist};

fn sigmoid(x: f64) -> f64 {
    1. / (1. + f64::exp(-x))
}

fn sigmoid_slope(x: f64) -> f64 {
    let e = f64::exp(-x);
    e / (1. + e).powi(2)
}

fn unit(input: &[f64], row: &[f64], bias: f64) -> (f64, f64) {
    let mut sum = bias;
    for i in 0..input.len() {
        sum += input[i] * row[i];
    }
    (sum, sigmoid(sum))
}

fn output_rule(outputs: &[f64], targets: &[f64], n: usize, potential: f64) -> f64 {
    (outputs[n] - targets[n]) * sigmoid_slope(potential)
}

fn hidden_rule(outgoing: &[f64], signals: &[f64], potential: f64) -> f64 {
    let mut sum = 0.;
    for m in 0..outgoing.len() {
        sum += outgoing[m] * signals[m];
    }
    sum * sigmoid_slope(potential)
}

fn plus(a: f64, b: f64) -> f64 {
    a + b
}

fn blend(p: f64, a: f64, b: f64) -> f64 {
    p + a * b
}

fn rate(learn_rate: f64, samples: usize) -> f64 {
    -learn_rate / (samples as f64)
}

fn squared_error(outputs: &[f64], targets: &[f64]) -> f64 {
    let mut sum = 0.;
    for i in 0..outputs.len() {
        sum += (outputs[i] - targets[i]).powi(2);
    }
    sum / 2.
}

fn nothing(_place: usize) -> f64 {
    0.
}

fn halves(place: usize) -> f64 {
    place as f64 * 0.5
}

type Init = fn(usize) -> f64;
type Unit = fn(&[f64], &[f64], f64) -> (f64, f64);
type OutputRule = fn(&[f64], &[f64], usize, f64) -> f64;
type HiddenRule = fn(&[f64], &[f64], f64) -> f64;
type Plus = fn(f64, f64) -> f64;
type Blend = fn(f64, f64, f64) -> f64;
type Rate = fn(f64, usize) -> f64;
type Loss = fn(&[f64], &[f64]) -> f64;

fn kernels() -> Kernels<Unit, OutputRule, HiddenRule, Plus, Blend, Rate> {
    Kernels {
        unit: unit as Unit,
        output_rule: output_rule as OutputRule,
        hidden_rule: hidden_rule as HiddenRule,
        sum: plus as Plus,
        blend: blend as Blend,
        rate: rate as Rate,
    }
}

/// A 2-2-1 network with fixed, asymmetric parameters.
fn small_network(learn_rate: f64) -> Brain<f64> {
    let mut net = Brain::new(2, learn_rate);
    net.add_layer(2, 0., &(nothing as Init));
    net.add_layer(1, 0., &(nothing as Init));
    let hidden = [[0.31, -0.17], [-0.23, 0.41]];
    for to in 0..2 {
        for from in 0..2 {
            net.layers[0].set_weight(from, to, hidden[to][from]);
        }
    }
    net.layers[0].set_bias(0, 0.11);
    net.layers[0].set_bias(1, -0.29);
    net.layers[1].set_weight(0, 0, 0.37);
    net.layers[1].set_weight(1, 0, -0.43);
    net.layers[1].set_bias(0, 0.05);
    net
}

fn close(a: f64, b: f64) -> bool {
    (a - b).abs() < 1e-12
}

#[test]
fn all_zero_layer_outputs_one_half() {
    let mut layer = Linear::uniform(3, 4, 0.);
    let out = layer.forward(&[0.3, -1., 7.], &(unit as Unit)).to_vec();
    assert_eq!(out, vec![0.5, 0.5, 0.5, 0.5]);
    assert_eq!(layer.get_potentials().to_vec(), vec![0., 0., 0., 0.]);
    let out = layer.forward(&[-100., 42., 0.], &(unit as Unit)).to_vec();
    assert_eq!(out, vec![0.5, 0.5, 0.5, 0.5]);
}

#[test]
fn layer_dimensions_and_storage_order() {
    let mut layer = Linear::uniform(3, 2, 0.);
    assert_eq!(layer.size(), 2);
    assert_eq!(layer.weights.len(), 6);
    assert_eq!(layer.bias.len(), 2);
    layer.set_weight(2, 1, 9.);
    assert_eq!(layer.weights, vec![0., 0., 0., 0., 0., 9.]);
    assert_eq!(layer.get_weight(2, 1), 9.);
    assert_eq!(layer.get_weight(2, 0), 0.);
    layer.set_weight(0, 1, 4.);
    assert_eq!(layer.incoming_weights(1).to_vec(), vec![4., 0., 9.]);
    assert_eq!(layer.outgoing_weights(2), vec![0., 9.]);
    layer.set_bias(1, -2.);
    assert_eq!(layer.get_bias(1), -2.);
    assert_eq!(layer.get_bias(0), 0.);
}

#[test]
fn empty_dimensions_are_accepted() {
    let mut layer = Linear::uniform(0, 2, 0.);
    assert_eq!(layer.weights.len(), 0);
    let out = layer.forward(&[], &(unit as Unit)).to_vec();
    assert_eq!(out, vec![0.5, 0.5]);
    let mut none = Linear::uniform(3, 0, 0.);
    assert_eq!(none.forward(&[1., 2., 3.], &(unit as Unit)).len(), 0);
}

#[test]
fn increments_go_through_the_given_sum() {
    let mut layer = Linear::uniform(2, 2, 1.);
    layer.add_weight(1, 0, 0.5, &(plus as Plus));
    layer.add_bias(1, -3., &(plus as Plus));
    assert_eq!(layer.weights, vec![1., 1.5, 1., 1.]);
    assert_eq!(layer.bias, vec![1., -2.]);
}

#[test]
fn layer_forward_computes_weighted_sums() {
    let mut layer = Linear::uniform(2, 2, 0.);
    layer.set_weight(0, 0, 1.);
    layer.set_weight(1, 0, 2.);
    layer.set_weight(0, 1, 3.);
    layer.set_weight(1, 1, 4.);
    layer.set_bias(0, 0.5);
    layer.set_bias(1, -0.5);
    let out = layer.forward(&[1., 1.], &(unit as Unit)).to_vec();
    assert_eq!(layer.get_potentials().to_vec(), vec![3.5, 6.5]);
    assert_eq!(out, vec![sigmoid(3.5), sigmoid(6.5)]);
    assert_eq!(layer.get_outputs().to_vec(), out);
}

#[test]
fn fill_overwrites_parameters_only() {
    let mut layer = Linear::uniform(2, 2, 3.);
    layer.record(1, 7., 8.);
    layer.fill(0.);
    assert_eq!(layer.weights, vec![0.; 4]);
    assert_eq!(layer.bias, vec![0.; 2]);
    assert_eq!(layer.get_potentials().to_vec(), vec![3., 7.]);
    assert_eq!(layer.get_outputs().to_vec(), vec![3., 8.]);
}

#[test]
fn add_layer_infers_input_sizes() {
    let mut net: Brain<f64> = Brain::new(5, 0.5);
    assert_eq!(net.layers.len(), 0);
    net.add_layer(3, 0., &(nothing as Init));
    net.add_layer(4, 0., &(nothing as Init));
    net.add_layer(1, 0., &(nothing as Init));
    let shapes: Vec<(usize, usize)> = net.layers.iter().map(|l| (l.input_size, l.length)).collect();
    assert_eq!(shapes, vec![(5, 3), (3, 4), (4, 1)]);
    let workspace: Vec<(usize, usize)> = net.tmp_layers.iter().map(|l| (l.input_size, l.length)).collect();
    assert_eq!(workspace, shapes);
    assert_eq!(net.layers[1].weights.len(), 12);
    assert_eq!(net.deltas, vec![vec![0.; 3], vec![0.; 4], vec![0.; 1]]);
    assert_eq!(net.learn_rate, 0.5);
    net.set_learn_rate(0.25);
    assert_eq!(net.learn_rate, 0.25);
}

#[test]
fn forward_with_mismatched_length_fails() {
    let mut net = Brain::new(3, 0.5);
    net.add_layer(2, 0., &(nothing as Init));
    let res = net.forward(&[1., 2.], &(unit as Unit));
    assert_eq!(res, Err(Error::InputSizeMismatch));
    assert_eq!(net.forward(&[1., 2., 3.], &(unit as Unit)), Ok(()));
    assert_eq!(net.layers[0].get_outputs().to_vec(), vec![0.5, 0.5]);
}

#[test]
fn forward_feeds_each_layer_into_the_next() {
    let mut net = small_network(0.5);
    assert_eq!(net.forward(&[1., 0.], &(unit as Unit)), Ok(()));
    let hid0 = sigmoid(0.11 + 0.31);
    let hid1 = sigmoid(-0.29 + -0.23);
    assert_eq!(net.layers[0].get_outputs().to_vec(), vec![hid0, hid1]);
    let p = 0.05 + hid0 * 0.37 + hid1 * -0.43;
    assert_eq!(net.layers[1].get_potentials().to_vec(), vec![p]);
    assert_eq!(net.layers[1].get_outputs().to_vec(), vec![sigmoid(p)]);
}

#[test]
fn cost_is_the_loss_of_the_last_outputs() {
    let mut net = small_network(0.5);
    let c = net.cost(&[1., 0.], &[1.], &(unit as Unit), &(squared_error as Loss)).unwrap();
    let o = net.layers[1].get_outputs()[0];
    assert_eq!(c, (o - 1.).powi(2) / 2.);
    let bad = net.cost(&[1.], &[1.], &(unit as Unit), &(squared_error as Loss));
    assert_eq!(bad, Err(Error::InputSizeMismatch));
}

#[test]
fn backpropagation_with_mismatched_batches_fails() {
    let mut net = small_network(0.5);
    let before = (net.layers[0].weights.clone(), net.tmp_layers[0].weights.clone());
    let inputs = vec![vec![0., 0.]; 5];
    let targets = vec![vec![0.]; 4];
    let res = net.backpropagation(&inputs, &targets, 0., &kernels());
    assert_eq!(res, Err(Error::BatchSizeMismatch));
    assert_eq!(net.layers[0].weights, before.0);
    assert_eq!(net.tmp_layers[0].weights, before.1);
}

#[test]
fn a_misfit_sample_leaves_parameters_unchanged() {
    let mut net = small_network(0.5);
    let reference = small_network(0.5);
    let inputs = vec![vec![0., 1.], vec![1.], vec![1., 1.]];
    let targets = vec![vec![0.], vec![1.], vec![1.]];
    let res = net.backpropagation(&inputs, &targets, 0., &kernels());
    assert_eq!(res, Err(Error::InputSizeMismatch));
    for l in 0..2 {
        assert_eq!(net.layers[l].weights, reference.layers[l].weights);
        assert_eq!(net.layers[l].bias, reference.layers[l].bias);
    }
}

#[test]
fn single_sample_step_matches_the_formulas() {
    let mut net: Brain<f64> = Brain::new(1, 0.5);
    net.add_layer(1, 0., &(nothing as Init));
    net.add_layer(1, 0., &(nothing as Init));
    net.layers[0].set_weight(0, 0, 0.4);
    net.layers[0].set_bias(0, 0.1);
    net.layers[1].set_weight(0, 0, -0.6);
    net.layers[1].set_bias(0, 0.2);
    let x = 0.8;
    let t = 1.;
    let pot0 = 0.1 + x * 0.4;
    let out0 = sigmoid(pot0);
    let pot1 = 0.2 + out0 * -0.6;
    let out1 = sigmoid(pot1);
    let delta1 = (out1 - t) * sigmoid_slope(pot1);
    let delta0 = (0. + -0.6 * delta1) * sigmoid_slope(pot0);
    assert_eq!(net.backpropagation(&[vec![x]], &[vec![t]], 0., &kernels()), Ok(()));
    assert_eq!(net.deltas, vec![vec![delta0], vec![delta1]]);
    assert_eq!(net.tmp_layers[1].bias, vec![0. + delta1]);
    assert_eq!(net.tmp_layers[1].weights, vec![0. + delta1 * out0]);
    assert_eq!(net.tmp_layers[0].bias, vec![0. + delta0]);
    assert_eq!(net.tmp_layers[0].weights, vec![0. + delta0 * x]);
    let scale = -0.5 / 1.;
    assert_eq!(net.layers[1].bias, vec![0.2 + scale * delta1]);
    assert_eq!(net.layers[1].weights, vec![-0.6 + scale * (delta1 * out0)]);
    assert_eq!(net.layers[0].bias, vec![0.1 + scale * delta0]);
    assert_eq!(net.layers[0].weights, vec![0.4 + scale * (delta0 * x)]);
}

#[test]
fn batch_gradient_is_summed_then_averaged() {
    let mut net: Brain<f64> = Brain::new(1, 0.5);
    net.add_layer(1, 0., &(nothing as Init));
    net.layers[0].set_weight(0, 0, 0.4);
    net.layers[0].set_bias(0, 0.1);
    let xs = [0.8, -0.3];
    let ts = [1., 0.];
    let mut bias_sum = 0.;
    let mut weight_sum = 0.;
    for i in 0..2 {
        let p = 0.1 + xs[i] * 0.4;
        let d = (sigmoid(p) - ts[i]) * sigmoid_slope(p);
        bias_sum += d;
        weight_sum += d * xs[i];
    }
    let inputs = vec![vec![xs[0]], vec![xs[1]]];
    let targets = vec![vec![ts[0]], vec![ts[1]]];
    assert_eq!(net.backpropagation(&inputs, &targets, 0., &kernels()), Ok(()));
    assert_eq!(net.tmp_layers[0].bias, vec![bias_sum]);
    assert_eq!(net.tmp_layers[0].weights, vec![weight_sum]);
    assert_eq!(net.layers[0].bias, vec![0.1 + (-0.5 / 2.) * bias_sum]);
    assert_eq!(net.layers[0].weights, vec![0.4 + (-0.5 / 2.) * weight_sum]);
}

#[test]
fn one_step_lowers_the_cost_of_its_sample() {
    let mut net = small_network(0.01);
    let input = [1., 0.];
    let target = [1.];
    let before = net.cost(&input, &target, &(unit as Unit), &(squared_error as Loss)).unwrap();
    let res = net.backpropagation(&[input.to_vec()], &[target.to_vec()], 0., &kernels());
    assert_eq!(res, Ok(()));
    let after = net.cost(&input, &target, &(unit as Unit), &(squared_error as Loss)).unwrap();
    assert!(after < before);
}

#[test]
fn workspace_is_reset_between_batches() {
    let mut net = small_network(0.5);
    let first = net.backpropagation(&[vec![1., 1.], vec![0., 1.]], &[vec![1.], vec![0.]], 0., &kernels());
    assert_eq!(first, Ok(()));
    assert!(net.tmp_layers[1].bias[0] != 0.);
    net.reset_workspace(0.);
    for layer in net.tmp_layers.iter() {
        assert!(layer.weights.iter().all(|w| *w == 0.));
        assert!(layer.bias.iter().all(|b| *b == 0.));
    }
    // A second batch of one sample leaves exactly that sample's gradient.
    let leftover = net.backpropagation(&[vec![1., 0.]], &[vec![1.]], 0., &kernels());
    assert_eq!(leftover, Ok(()));
    let mut twin = small_network(0.5);
    for l in 0..2 {
        twin.layers[l].weights = net.layers[l].weights.clone();
        twin.layers[l].bias = net.layers[l].bias.clone();
    }
    let mut dirty = small_network(0.5);
    for l in 0..2 {
        dirty.layers[l].weights = net.layers[l].weights.clone();
        dirty.layers[l].bias = net.layers[l].bias.clone();
        dirty.tmp_layers[l].fill(123.);
    }
    assert_eq!(twin.backpropagation(&[vec![0., 1.]], &[vec![0.]], 0., &kernels()), Ok(()));
    assert_eq!(dirty.backpropagation(&[vec![0., 1.]], &[vec![0.]], 0., &kernels()), Ok(()));
    for l in 0..2 {
        assert_eq!(twin.tmp_layers[l].weights, dirty.tmp_layers[l].weights);
        assert_eq!(twin.tmp_layers[l].bias, dirty.tmp_layers[l].bias);
        assert_eq!(twin.tmp_layers[l].bias, twin.deltas[l]);
        assert_eq!(twin.layers[l].weights, dirty.layers[l].weights);
    }
}

#[test]
fn learns_the_and_table() {
    let mut net = small_network(0.5);
    let inputs = vec![vec![0., 0.], vec![0., 1.], vec![1., 0.], vec![1., 1.]];
    let targets = vec![vec![0.], vec![0.], vec![0.], vec![1.]];
    let k = kernels();
    for _ in 0..5000 {
        assert_eq!(net.backpropagation(&inputs, &targets, 0., &k), Ok(()));
    }
    let mut right = 0;
    for i in 0..4 {
        assert_eq!(net.forward(&inputs[i], &k.unit), Ok(()));
        let out = net.layers[1].get_outputs()[0];
        if (out > 0.5) == (targets[i][0] > 0.5) {
            right += 1;
        }
    }
    assert_eq!(right, 4);
}

#[test]
fn improves_on_the_xor_table() {
    let mut net = small_network(0.5);
    let inputs = vec![vec![0., 0.], vec![0., 1.], vec![1., 0.], vec![1., 1.]];
    let targets = vec![vec![0.], vec![1.], vec![1.], vec![0.]];
    let k = kernels();
    let mut before = 0.;
    for i in 0..4 {
        before += net.cost(&inputs[i], &targets[i], &k.unit, &(squared_error as Loss)).unwrap();
    }
    for _ in 0..20000 {
        assert_eq!(net.backpropagation(&inputs, &targets, 0., &k), Ok(()));
    }
    let mut after = 0.;
    let mut right = 0;
    for i in 0..4 {
        after += net.cost(&inputs[i], &targets[i], &k.unit, &(squared_error as Loss)).unwrap();
        if (net.layers[1].get_outputs()[0] > 0.5) == (targets[i][0] > 0.5) {
            right += 1;
        }
    }
    assert!(after < before);
    assert!(right >= 3);
}

#[test]
fn sigmoid_slope_is_value_times_complement() {
    assert_eq!(sigmoid(0.), 0.5);
    assert_eq!(sigmoid_slope(0.), 0.25);
    for x in [-3., -0.5, 0., 0.25, 2., 10.] {
        assert!(close(sigmoid_slope(x), sigmoid(x) * (1. - sigmoid(x))));
    }
}

#[test]
fn error_messages() {
    assert_eq!(Error::InputSizeMismatch.message(), "Wrong input data size !");
    assert_eq!(Error::BatchSizeMismatch.message(), "Wrong data size");
    assert_ne!(Error::InputSizeMismatch, Error::BatchSizeMismatch);
}

#[test]
fn picked_indices_stay_in_range() {
    assert_eq!(index_from_draw(17, 5), 2);
    assert_eq!(index_from_draw(4, 5), 4);
    assert_eq!(index_from_draw(usize::MAX, 1), 0);
    assert_eq!(pick_index(1), 0);
    let mut seen = [false; 4];
    for _ in 0..400 {
        let i = pick_index(4);
        assert!(i < 4);
        seen[i] = true;
    }
    assert!(seen.iter().all(|s| *s));
}

#[test]
fn image_head_is_decoded() {
    let head = [0, 0, 8, 3, 0, 0, 0xEA, 0x60, 0, 0, 0, 28, 0, 0, 0, 28];
    assert_eq!(image_header(&head), Ok(ImageHeader { number: 60000, rows: 28, columns: 28 }));
    assert_eq!(image_header(&head[..15]), Err(DecodeError::Truncated));
    let mut wrong = head;
    wrong[3] = 1;
    assert_eq!(image_header(&wrong), Err(DecodeError::InvalidData));
    let mut longer = head.to_vec();
    longer.extend_from_slice(&[7, 7, 7]);
    assert_eq!(image_header(&longer), Ok(ImageHeader { number: 60000, rows: 28, columns: 28 }));
}

#[test]
fn label_head_is_checked_against_the_images() {
    let head = [0, 0, 8, 1, 0, 0, 0x27, 0x10];
    assert_eq!(label_header(&head, 10000), Ok(()));
    assert_eq!(label_header(&head, 60000), Err(DecodeError::InvalidInput));
    assert_eq!(label_header(&head[..7], 10000), Err(DecodeError::Truncated));
    assert_eq!(label_header(&[0, 0, 8, 3, 0, 0, 0x27, 0x10], 10000), Err(DecodeError::InvalidData));
}

#[test]
fn counts_weigh_their_bytes() {
    assert_eq!(count_at(&[9, 0, 0, 0, 5], 1), 5);
    assert_eq!(count_at(&[0, 0, 1, 2], 0), 258);
    assert_eq!(count_at(&[0, 1, 0, 0], 0), 1 << 24);
    assert_eq!(count_at(&[1, 0, 0, 0], 0), 1 << 48);
}

#[test]
fn targets_are_one_hot() {
    assert_eq!(one_hot(3, 11, 0., 1.), vec![0., 0., 0., 1., 0., 0., 0., 0., 0., 0., 0.]);
    assert_eq!(one_hot(0, 1, 0., 1.), vec![1.]);
    assert_eq!(one_hot(1, 2, 'a', 'b'), vec!['a', 'b']);
}

fn above(a: f64, b: f64) -> bool {
    a > b
}

fn is_hot(value: f64) -> bool {
    value > 0.5
}

type Above = fn(f64, f64) -> bool;
type IsHot = fn(f64) -> bool;

#[test]
fn argmax_takes_the_first_of_equal_maxima() {
    assert_eq!(argmax(&[0.1, 0.9, 0.3], &(above as Above)), 1);
    assert_eq!(argmax(&[0.7, 0.2, 0.7], &(above as Above)), 0);
    assert_eq!(argmax(&[0.1, 0.2, 0.3], &(above as Above)), 2);
    assert_eq!(argmax(&[5.], &(above as Above)), 0);
    let none: [f64; 0] = [];
    assert_eq!(argmax(&none, &(above as Above)), 0);
}

#[test]
fn hot_index_takes_the_last_hot_entry() {
    assert_eq!(hot_index(&[0., 0., 1., 0.], &(is_hot as IsHot)), 2);
    assert_eq!(hot_index(&[1., 0., 1., 0.], &(is_hot as IsHot)), 2);
    assert_eq!(hot_index(&[0., 0., 0.], &(is_hot as IsHot)), 0);
    assert_eq!(hot_index(&[0.5, 0.51], &(is_hot as IsHot)), 1);
    let none: [f64; 0] = [];
    assert_eq!(hot_index(&none, &(is_hot as IsHot)), 0);
}

#[test]
fn hits_are_counted_over_random_draws() {
    let mut net: Brain<f64> = Brain::new(1, 0.5);
    net.add_layer(2, 0., &(nothing as Init));
    // The first unit follows the input, the second goes against it.
    net.layers[0].set_weight(0, 0, 4.);
    net.layers[0].set_weight(0, 1, -4.);
    let right = Mnist {
        number: 2,
        rows: 1,
        columns: 1,
        images: vec![vec![1.], vec![-1.]],
        results: vec![vec![1., 0.], vec![0., 1.]],
    };
    assert!(right.is_hit(&mut net, 0, &(unit as Unit), &(above as Above), &(is_hot as IsHot)));
    assert_eq!(net.layers[0].get_outputs().to_vec(), vec![sigmoid(4.), sigmoid(-4.)]);
    assert!(right.is_hit(&mut net, 1, &(unit as Unit), &(above as Above), &(is_hot as IsHot)));
    assert_eq!(right.count_hits(&mut net, 50, &(unit as Unit), &(above as Above), &(is_hot as IsHot)), 50);
    assert_eq!(right.count_hits(&mut net, 0, &(unit as Unit), &(above as Above), &(is_hot as IsHot)), 0);
    let wrong = Mnist {
        number: 2,
        rows: 1,
        columns: 1,
        images: vec![vec![1.], vec![-1.]],
        results: vec![vec![0., 1.], vec![1., 0.]],
    };
    assert!(!wrong.is_hit(&mut net, 0, &(unit as Unit), &(above as Above), &(is_hot as IsHot)));
    assert_eq!(wrong.count_hits(&mut net, 50, &(unit as Unit), &(above as Above), &(is_hot as IsHot)), 0);
    assert_eq!(net.layers[0].weights, vec![4., -4.]);
}

#[test]
fn fresh_layers_take_their_parameters_from_init() {
    let layer = Linear::new(2, 3, 0., &(halves as Init));
    assert_eq!(layer.input_size, 2);
    assert_eq!(layer.size(), 3);
    assert_eq!(layer.weights, vec![0., 0.5, 1., 1.5, 2., 2.5]);
    assert_eq!(layer.bias, vec![0., 0.5, 1.]);
    assert_eq!(layer.get_potentials().to_vec(), vec![0.; 3]);
    assert_eq!(layer.get_outputs().to_vec(), vec![0.; 3]);
    let mut net: Brain<f64> = Brain::new(2, 0.5);
    net.add_layer(1, 0., &(halves as Init));
    net.add_layer(2, 0., &(halves as Init));
    assert_eq!(net.layers[0].weights, vec![0., 0.5]);
    assert_eq!(net.layers[1].weights, vec![0., 0.5]);
    assert_eq!(net.layers[1].bias, vec![0., 0.5]);
    assert_eq!(net.tmp_layers[1].weights, vec![0., 0.]);
    assert_eq!(net.tmp_layers[1].bias, vec![0., 0.]);
    assert_eq!(net.deltas[1], vec![0., 0.]);
}
