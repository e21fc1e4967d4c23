use densenet::activation::{sigmoid, sigmoid_derivative};
use densenet::dnn::{initial_weight, new, run_net, train_net, DNN};
use densenet::fixed::{fraction, Fixed, SCALE};
use densenet::gan::{gen_noise, train_generator, GAN};
use densenet::mnist::{parse_data, parse_label};
use densenet::noise::{NoiseSource, ThreadNoise};
use densenet::scalar::Scalar;

fn fx(raw: i64) -> Fixed {
    Fixed { raw }
}

fn raws(values: &[Fixed]) -> Vec<i64> {
    values.iter().map(|v| v.raw).collect()
}

fn raw_tensor(t: &Vec<Vec<Vec<Fixed>>>) -> Vec<Vec<Vec<i64>>> {
    t.iter().map(|m| m.iter().map(|r| raws(r)).collect()).collect()
}

fn small_net() -> DNN<Fixed> {
    let mut source = ThreadNoise {};
    let mut net: DNN<Fixed> = new(&[2, 2, 1], &mut source).unwrap();
    net.weights = vec![
        vec![
            vec![fx(2147483648), fx(-1073741824)],
            vec![fx(3221225472), fx(4294967296)],
            vec![fx(-2147483648), fx(536870912)],
        ],
        vec![vec![fx(6442450944)], vec![fx(-8589934592)], vec![fx(1073741824)]],
    ];
    net
}

#[test]
fn integers_are_scaled() {
    assert_eq!(SCALE, 4294967296);
    assert_eq!(Fixed::from_int(0).raw, 0);
    assert_eq!(Fixed::from_int(1).raw, 4294967296);
    assert_eq!(Fixed::from_int(-3).raw, -12884901888);
    assert_eq!(Fixed::from_int(i32::MAX).raw, 9223372032559808512);
    assert_eq!(Fixed::from_int(i32::MIN).raw, i64::MIN);
}

#[test]
fn sums_and_differences_saturate() {
    assert_eq!(fx(5).plus(fx(-7)).raw, -2);
    assert_eq!(fx(5).minus(fx(-7)).raw, 12);
    assert_eq!(fx(i64::MAX).plus(fx(1)).raw, i64::MAX);
    assert_eq!(fx(i64::MIN).plus(fx(-1)).raw, i64::MIN);
    assert_eq!(fx(i64::MIN).minus(fx(1)).raw, i64::MIN);
    assert_eq!(fx(i64::MAX).minus(fx(-1)).raw, i64::MAX);
    assert_eq!(fx(0).minus(fx(i64::MIN)).raw, i64::MAX);
    assert_eq!(fx(i64::MAX).plus(fx(i64::MIN)).raw, -1);
}

#[test]
fn negation_saturates() {
    assert_eq!(fx(7).negate().raw, -7);
    assert_eq!(fx(-7).negate().raw, 7);
    assert_eq!(fx(0).negate().raw, 0);
    assert_eq!(fx(i64::MIN).negate().raw, i64::MAX);
    assert_eq!(fx(i64::MAX).negate().raw, -i64::MAX);
}

#[test]
fn products_round_towards_zero() {
    let three_halves = fx(3 * SCALE / 2);
    let minus_nine_quarters = fx(-9 * SCALE / 4);
    assert_eq!(three_halves.times(minus_nine_quarters).raw, -14495514624);
    assert_eq!(fx(3).times(fx(SCALE / 2)).raw, 1);
    assert_eq!(fx(3).times(fx(-SCALE / 2)).raw, -1);
    assert_eq!(fx(-3).times(fx(SCALE / 2)).raw, -1);
    assert_eq!(fx(-3).times(fx(-SCALE / 2)).raw, 1);
    assert_eq!(fx(1).times(fx(1)).raw, 0);
    assert_eq!(Fixed::from_int(7).times(Fixed::from_int(0)).raw, 0);
}

#[test]
fn products_saturate() {
    let large = Fixed::from_int(100000);
    assert_eq!(large.times(large).raw, i64::MAX);
    assert_eq!(large.times(large.negate()).raw, i64::MIN);
    assert_eq!(fx(i64::MIN).times(fx(i64::MIN)).raw, i64::MAX);
    assert_eq!(fx(i64::MIN).times(Fixed::from_int(1)).raw, i64::MIN);
    assert_eq!(fx(i64::MIN).times(Fixed::from_int(-1)).raw, i64::MAX);
}

#[test]
fn quotients_round_towards_zero() {
    assert_eq!(Fixed::from_int(1).over(Fixed::from_int(3)).raw, 1431655765);
    assert_eq!(Fixed::from_int(-1).over(Fixed::from_int(3)).raw, -1431655765);
    assert_eq!(Fixed::from_int(7).over(Fixed::from_int(-2)).raw, -15032385536);
    assert_eq!(Fixed::from_int(1).over(Fixed::from_int(10)).raw, 429496729);
    assert_eq!(Fixed::from_int(128).over(Fixed::from_int(255)).raw, 2155905152);
}

#[test]
fn quotients_saturate() {
    assert_eq!(Fixed::from_int(1).over(fx(0)).raw, i64::MAX);
    assert_eq!(Fixed::from_int(-1).over(fx(0)).raw, i64::MIN);
    assert_eq!(fx(0).over(fx(0)).raw, 0);
    assert_eq!(Fixed::from_int(100000).over(fx(1)).raw, i64::MAX);
    assert_eq!(Fixed::from_int(-100000).over(fx(1)).raw, i64::MIN);
    assert_eq!(fx(i64::MIN).over(Fixed::from_int(-1)).raw, i64::MAX);
}

#[test]
fn numbers_are_compared_by_their_raw_value() {
    assert!(fx(2).greater(fx(1)));
    assert!(!fx(1).greater(fx(1)));
    assert!(!fx(-2).greater(fx(1)));
    assert!(fx(5).equals(fx(5)));
    assert!(!fx(5).equals(fx(-5)));
}

#[test]
fn exponential_of_fixed_numbers() {
    assert_eq!(fx(0).exp().raw, 4294967296);
    assert_eq!(Fixed::from_int(1).exp().raw, 11674838600);
    assert_eq!(Fixed::from_int(-1).exp().raw, 1580006547);
    assert_eq!(Fixed::from_int(5).exp().raw, 637307168997);
}

#[test]
fn exponential_saturates() {
    assert_eq!(Fixed::from_int(25).exp().raw, i64::MAX);
    assert_eq!(fx(i64::MAX).exp().raw, i64::MAX);
    assert_eq!(Fixed::from_int(-30).exp().raw, 0);
    assert_eq!(Fixed::from_int(-100000).exp().raw, 0);
    assert_eq!(fx(i64::MIN).exp().raw, 0);
}

#[test]
fn sigmoid_of_fixed_numbers() {
    assert_eq!(sigmoid(fx(0)).raw, 2147483648);
    assert_eq!(sigmoid(Fixed::from_int(1)).raw, 3139885311);
    assert_eq!(sigmoid_derivative(fx(0)).raw, 1073741824);
    assert_eq!(sigmoid(Fixed::from_int(-40)).raw, 2);
    assert_eq!(sigmoid(Fixed::from_int(40)).raw, 4294967296);
    assert_eq!(sigmoid(fx(i64::MIN)).raw, 2);
    assert_eq!(sigmoid(fx(i64::MAX)).raw, 4294967296);
}

#[test]
fn sigmoid_of_fixed_numbers_stays_in_the_unit_range() {
    let mut x = i64::MIN;
    for _ in 0..64 {
        let y = sigmoid(fx(x));
        assert!(0 <= y.raw && y.raw <= SCALE);
        x /= 2;
    }
    let mut x = i64::MAX;
    for _ in 0..64 {
        let y = sigmoid(fx(x));
        assert!(0 <= y.raw && y.raw <= SCALE);
        x /= 2;
    }
}

#[test]
fn initial_weight_of_fixed_draws() {
    assert_eq!(initial_weight(fx(0)).raw, -SCALE);
    assert_eq!(initial_weight(fx(SCALE / 2)).raw, 0);
    assert_eq!(initial_weight(fx(SCALE - 1)).raw, SCALE - 2);
}

#[test]
fn a_word_is_read_as_binary_places() {
    assert_eq!(fraction(0).raw, 0);
    assert_eq!(fraction(1).raw, 1);
    assert_eq!(fraction(0x8000_0000).raw, SCALE / 2);
    assert_eq!(fraction(u32::MAX).raw, SCALE - 1);
}

#[test]
fn thread_noise_draws_from_the_unit_interval() {
    let mut source = ThreadNoise {};
    let draws: Vec<Fixed> = (0..1000).map(|_| source.draw()).collect();
    assert!(draws.iter().all(|d| 0 <= d.raw && d.raw < SCALE));
    assert!(draws.iter().any(|d| d.raw != draws[0].raw));
    let noise: Vec<Fixed> = gen_noise(32, &mut source);
    assert_eq!(noise.len(), 32);
    assert!(noise.iter().all(|d| 0 <= d.raw && d.raw < SCALE));
}

#[test]
fn network_on_thread_noise_has_weights_in_range() {
    let mut source = ThreadNoise {};
    let net: DNN<Fixed> = new(&[6, 5, 4], &mut source).unwrap();
    let mut distinct = false;
    for matrix in &net.weights {
        for row in matrix {
            for weight in row {
                assert!(-SCALE <= weight.raw && weight.raw < SCALE);
                distinct = distinct || weight.raw != net.weights[0][0][0].raw;
            }
        }
    }
    assert!(distinct);
    assert_eq!(net.bias_output.raw, 3139885311);
    assert_eq!(net.learn_rate.raw, 429496729);
    assert_eq!(net.node_vals[1][2].output.raw, 2147483648);
}

#[test]
fn fixed_network_evaluates_exactly() {
    let mut net = small_net();
    let out = run_net(&mut net, &[fx(4294967296), fx(2147483648)]);
    assert_eq!(raws(&out), vec![2094607725]);
    assert_eq!(net.node_vals[1][0].value.raw, 2188153729);
    assert_eq!(net.node_vals[1][1].value.raw, 1466227487);
    assert_eq!(net.node_vals[1][0].output.raw, 2682985615);
    assert_eq!(net.node_vals[1][1].output.raw, 2510514379);
    assert_eq!(net.node_vals[2][0].value.raw, -211579009);
    let again = run_net(&mut net, &[fx(4294967296), fx(2147483648)]);
    assert_eq!(raws(&again), vec![2094607725]);
}

#[test]
fn fixed_network_trains_exactly() {
    let mut net = small_net();
    let start = raw_tensor(&net.weights);
    train_net(&mut net, &[fx(4294967296), fx(2147483648)], &[fx(4294967296)], false);
    assert_eq!(raw_tensor(&net.weights), start);
    assert_eq!(
        raw_tensor(&net.weights_adjustment),
        vec![
            vec![vec![14478830, -167843161], vec![7239415, -83921580], vec![10584915, -122703676]],
            vec![vec![34342251], vec![32134617], vec![40190574]],
        ]
    );
    train_net(&mut net, &[fx(0), fx(4294967296)], &[fx(0)], true);
    assert_eq!(
        raw_tensor(&net.weights),
        vec![
            vec![
                vec![2161962478, -1241584985],
                vec![3105403178, 4214553016],
                vec![-2226864412, 416731288],
            ],
            vec![vec![6452588727], vec![-8588257137], vec![1084190476]],
        ]
    );
    assert_eq!(
        raw_tensor(&net.weights_adjustment),
        vec![vec![vec![0, 0], vec![0, 0], vec![0, 0]], vec![vec![0], vec![0], vec![0]]]
    );
}

#[test]
fn fixed_pair_trains_without_writing_the_discriminator() {
    let mut source = ThreadNoise {};
    let mut gan: GAN<Fixed> = densenet::gan::new(&[4, 3, 1], &[2, 4], &mut source).unwrap();
    let weights = raw_tensor(&gan.discriminator.weights);
    train_generator(&mut gan, 20, &mut source);
    assert_eq!(raw_tensor(&gan.discriminator.weights), weights);
    for matrix in &gan.discriminator.weights_adjustment {
        for row in matrix {
            assert!(row.iter().all(|entry| entry.raw == 0));
        }
    }
    for matrix in &gan.generator.weights_adjustment {
        for row in matrix {
            assert!(row.iter().all(|entry| entry.raw == 0));
        }
    }
}

#[test]
fn fixed_images_and_labels() {
    let mut contents: Vec<u8> = vec![0; 16];
    contents.extend((0..784).map(|k| if k == 5 { 128u8 } else { 255u8 }));
    let images: Vec<Vec<Fixed>> = parse_data(&contents);
    assert_eq!(images.len(), 1);
    assert_eq!(images[0][5].raw, 2155905152);
    assert_eq!(images[0][6].raw, SCALE);
    let labels: Vec<Vec<Fixed>> = parse_label(&[0, 0, 0, 0, 0, 0, 0, 0, 2]);
    assert_eq!(raws(&labels[0]), vec![0, 0, SCALE, 0, 0, 0, 0, 0, 0, 0]);
}
