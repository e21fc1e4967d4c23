use densenet::dnn::{new, run_net, train_net, Node, DNN};
use densenet::mnist::{highest, mnist_test, mnist_train, parse_data, parse_label};
use densenet::noise::NoiseSource;
use densenet::scalar::Scalar;

#[derive(Clone, Copy, Debug, PartialEq)]
struct Real(f64);

impl Scalar for Real {
    fn from_int_spec(n: i32) -> Self {
        Real(n as f64)
    }

    fn plus_spec(self, rhs: Self) -> Self {
        Real(self.0 + rhs.0)
    }

    fn minus_spec(self, rhs: Self) -> Self {
        Real(self.0 - rhs.0)
    }

    fn times_spec(self, rhs: Self) -> Self {
        Real(self.0 * rhs.0)
    }

    fn over_spec(self, rhs: Self) -> Self {
        Real(self.0 / rhs.0)
    }

    fn negate_spec(self) -> Self {
        Real(-self.0)
    }

    fn exp_spec(self) -> Self {
        Real(self.0.exp())
    }

    fn greater_spec(self, rhs: Self) -> bool {
        self.0 > rhs.0
    }

    fn equals_spec(self, rhs: Self) -> bool {
        self.0 == rhs.0
    }

    fn is_unit_spec(self) -> bool {
        0.0 <= self.0 && self.0 < 1.0
    }

    fn from_int(n: i32) -> Self {
        Real(n as f64)
    }

    fn plus(self, rhs: Self) -> Self {
        Real(self.0 + rhs.0)
    }

    fn minus(self, rhs: Self) -> Self {
        Real(self.0 - rhs.0)
    }

    fn times(self, rhs: Self) -> Self {
        Real(self.0 * rhs.0)
    }

    fn over(self, rhs: Self) -> Self {
        Real(self.0 / rhs.0)
    }

    fn negate(self) -> Self {
        Real(-self.0)
    }

    fn exp(self) -> Self {
        Real(self.0.exp())
    }

    fn greater(self, rhs: Self) -> bool {
        self.0 > rhs.0
    }

    fn equals(self, rhs: Self) -> bool {
        self.0 == rhs.0
    }
}

/// A linear congruential generator, so that a run can be repeated.
struct Lcg(u64);

impl NoiseSource<Real> for Lcg {
    fn draw(&mut self) -> Real {
        self.0 = self.0.wrapping_mul(6364136223846793005).wrapping_add(1442695040888963407);
        Real((self.0 >> 11) as f64 / 9007199254740992.0)
    }
}

fn reals(values: &[f64]) -> Vec<Real> {
    values.iter().map(|v| Real(*v)).collect()
}

fn plain(values: &[Real]) -> Vec<f64> {
    values.iter().map(|v| v.0).collect()
}

fn tensor(values: &Vec<Vec<Vec<Real>>>) -> Vec<Vec<Vec<f64>>> {
    values.iter().map(|m| m.iter().map(|r| plain(r)).collect()).collect()
}

fn close(a: f64, b: f64, tolerance: f64) -> bool {
    (a - b).abs() <= tolerance
}

fn twin(net: &DNN<Real>) -> DNN<Real> {
    DNN {
        weights: net.weights.clone(),
        weights_adjustment: net.weights_adjustment.clone(),
        node_vals: net
            .node_vals
            .iter()
            .map(|layer| layer.iter().map(|n| Node { value: n.value, output: n.output }).collect())
            .collect(),
        bias_output: net.bias_output,
        learn_rate: net.learn_rate,
    }
}

fn samples(count: usize, width: usize, seed: u64) -> Vec<Vec<Real>> {
    let mut source = Lcg(seed);
    (0..count).map(|_| (0..width).map(|_| source.draw()).collect()).collect()
}

#[test]
fn images_are_read_pixel_by_pixel() {
    let mut contents: Vec<u8> = vec![0; 16];
    for k in 0..2 * 784 {
        contents.push((k % 251) as u8);
    }
    let images: Vec<Vec<Real>> = parse_data(&contents);
    assert_eq!(images.len(), 2);
    for image in 0..2 {
        assert_eq!(images[image].len(), 784);
        for x in 0..28 {
            for y in 0..28 {
                let byte = contents[image * 28 * 28 + x * 28 + y + 16];
                assert_eq!(images[image][x * 28 + y].0, byte as f64 / 255.0);
            }
        }
    }
    assert_eq!(images[0][0].0, 0.0);
    assert_eq!(images[0][250].0, 250.0 / 255.0);
    assert_eq!(images[1][0].0, (784 % 251) as f64 / 255.0);
}

#[test]
fn brightest_pixel_is_one() {
    let mut contents: Vec<u8> = vec![7; 16];
    contents.extend(vec![255u8; 784]);
    let images: Vec<Vec<Real>> = parse_data(&contents);
    assert_eq!(images.len(), 1);
    assert!(images[0].iter().all(|p| p.0 == 1.0));
}

#[test]
fn image_file_with_a_header_only_holds_no_image() {
    assert_eq!(parse_data::<Real>(&[0u8; 8]).len(), 0);
    assert_eq!(parse_data::<Real>(&[0u8; 16]).len(), 0);
    assert_eq!(parse_data::<Real>(&[0u8; 791]).len(), 0);
}

#[test]
fn labels_are_read_as_one_hot_vectors() {
    let contents: Vec<u8> = vec![0, 0, 8, 1, 0, 0, 0, 3, 3, 0, 9];
    let labels: Vec<Vec<Real>> = parse_label(&contents);
    assert_eq!(labels.len(), 3);
    assert_eq!(plain(&labels[0]), vec![0.0, 0.0, 0.0, 1.0, 0.0, 0.0, 0.0, 0.0, 0.0, 0.0]);
    assert_eq!(plain(&labels[1]), vec![1.0, 0.0, 0.0, 0.0, 0.0, 0.0, 0.0, 0.0, 0.0, 0.0]);
    assert_eq!(plain(&labels[2]), vec![0.0, 0.0, 0.0, 0.0, 0.0, 0.0, 0.0, 0.0, 0.0, 1.0]);
    assert_eq!(parse_label::<Real>(&[0u8; 8]).len(), 0);
}

#[test]
fn highest_is_the_first_of_the_greatest() {
    assert_eq!(highest(&reals(&[0.1, 0.7, 0.3])), 1);
    assert_eq!(highest(&reals(&[0.9, 0.7, 0.3])), 0);
    assert_eq!(highest(&reals(&[0.1, 0.7, 0.7, 0.2])), 1);
    assert_eq!(highest(&reals(&[0.1, 0.2, 0.3, 0.4])), 3);
    assert_eq!(highest(&reals(&[0.5])), 0);
    assert_eq!(highest(&reals(&[])), 0);
}

#[test]
fn an_epoch_commits_on_every_tenth_sample() {
    let inputs = samples(23, 3, 51);
    let targets = samples(23, 2, 52);
    let mut source = Lcg(50);
    let mut net: DNN<Real> = new(&[3, 4, 2], &mut source).unwrap();
    let mut by_hand = twin(&net);
    let start = tensor(&net.weights);

    mnist_train(&mut net, &inputs, &targets);
    for i in 0..23 {
        train_net(&mut by_hand, &inputs[i], &targets[i], i % 10 == 9);
    }
    assert_eq!(tensor(&net.weights), tensor(&by_hand.weights));
    assert_eq!(tensor(&net.weights_adjustment), tensor(&by_hand.weights_adjustment));
    assert_ne!(tensor(&net.weights), start);

    let mut short = twin(&by_hand);
    short.weights = start.iter().map(|m| m.iter().map(|r| reals(r)).collect()).collect();
    short.weights_adjustment =
        start.iter().map(|m| m.iter().map(|r| reals(&vec![0.0; r.len()])).collect()).collect();
    mnist_train(&mut short, &inputs[..9].to_vec(), &targets[..9].to_vec());
    assert_eq!(tensor(&short.weights), start);
}

#[test]
fn hits_are_counted() {
    let mut source = Lcg(50);
    let mut net: DNN<Real> = new(&[2, 3], &mut source).unwrap();
    net.weights = vec![vec![
        reals(&[4.0, 0.0, -4.0]),
        reals(&[-4.0, 0.0, 4.0]),
        reals(&[0.0, 0.0, 0.0]),
    ]];
    let weights = tensor(&net.weights);
    let inputs = vec![reals(&[1.0, 0.0]), reals(&[0.0, 1.0]), reals(&[0.0, 0.0]), reals(&[1.0, 0.0])];
    let labels = vec![
        reals(&[1.0, 0.0, 0.0]),
        reals(&[0.0, 0.0, 1.0]),
        reals(&[0.0, 1.0, 0.0]),
        reals(&[0.0, 0.0, 1.0]),
    ];
    // The third input leaves all three guesses equal, so the first is taken,
    // which its label does not mark; the fourth is guessed as the first class.
    assert_eq!(mnist_test(&mut net, &inputs, &labels), 2);
    assert_eq!(mnist_test(&mut net, &inputs[..2].to_vec(), &labels), 2);
    assert_eq!(mnist_test(&mut net, &Vec::new(), &labels), 0);
    assert_eq!(tensor(&net.weights), weights);
    assert_eq!(net.node_vals[0][0].output.0, 0.0);
    assert_eq!(net.node_vals[0][1].output.0, 1.0);
    let answer = run_net(&mut net, &reals(&[1.0, 0.0]));
    assert_eq!(highest(&answer), 0);
}

#[test]
fn a_label_must_say_one_exactly() {
    let mut source = Lcg(50);
    let mut net: DNN<Real> = new(&[1, 2], &mut source).unwrap();
    net.weights = vec![vec![reals(&[1.0, -1.0]), reals(&[0.0, 0.0])]];
    let inputs = vec![reals(&[1.0])];
    assert_eq!(mnist_test(&mut net, &inputs, &vec![reals(&[0.5, 0.0])]), 0);
    assert_eq!(mnist_test(&mut net, &inputs, &vec![reals(&[1.0, 0.0])]), 1);
}
