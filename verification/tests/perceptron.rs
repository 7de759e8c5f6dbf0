use perceptron::activation::Relu;
use perceptron::matrix::Matrix;
use perceptron::perceptron::{PerceptronLayer, MLP};
use perceptron::rat::{rat_lt, Rat};
use perceptron::Error;
use rand::RngExt;

const INPUT_LEN: usize = 5;
const BATCH_SIZE: usize = 1;

fn ri(n: i128) -> Rat {
    Rat::from_int(n)
}

fn m(rows: Vec<Vec<Rat>>) -> Matrix {
    Matrix::from_rows(rows).unwrap()
}

fn random_input(rows: usize, cols: usize) -> Matrix {
    let mut data: Vec<Vec<Rat>> = Vec::new();
    for _ in 0..rows {
        let mut row: Vec<Rat> = Vec::new();
        for _ in 0..cols {
            let k: i64 = rand::rng().random_range(-1000..1000);
            row.push(Rat::new(k as i128, 1000).unwrap());
        }
        data.push(row);
    }
    m(data)
}

#[test]
fn mlp() {
    let input = random_input(INPUT_LEN, BATCH_SIZE);

    let layer1 = PerceptronLayer::new(10, INPUT_LEN, Relu);
    let layer2 = PerceptronLayer::new(10, 10, Relu);

    let mlp = MLP::new();
    let mlp = mlp.push(layer1).push(layer2);

    let output = mlp.synapse(&input).unwrap();
    println!("{:?}", output);
}

#[test]
fn perceptron_layer() {
    let p = PerceptronLayer::new(10, INPUT_LEN, Relu);

    let input = random_input(INPUT_LEN, BATCH_SIZE);
    let output = p.synapse(&input).unwrap();
    println!("{:?}", output);
}

#[test]
fn layer_init_stays_in_range() {
    let p = PerceptronLayer::new(6, 4, Relu);
    let lo = Rat::new(-1, 2).unwrap();
    let hi = Rat::new(1, 2).unwrap();
    for i in 0..6usize {
        for j in 0..4usize {
            let w = p.weights.at(i, j);
            assert!(!rat_lt(&w, &lo));
            assert!(rat_lt(&w, &hi));
        }
        let b = p.bias.at(i, 0);
        assert!(!rat_lt(&b, &lo));
        assert!(rat_lt(&b, &hi));
    }
}

#[test]
fn forward_preserves_shape() {
    // widths [3, 7, 2, 5] over a batch of 4 samples
    let net = MLP::new()
        .push(PerceptronLayer::new(7, 3, Relu))
        .push(PerceptronLayer::new(2, 7, Relu))
        .push(PerceptronLayer::new(5, 2, Relu));
    let input = random_input(3, 4);
    let output = net.synapse(&input).unwrap();
    assert_eq!(output.rows, 5);
    assert_eq!(output.cols, 4);
}

#[test]
fn forward_twice_is_identical() {
    let net = MLP::new()
        .push(PerceptronLayer::new(4, 3, Relu))
        .push(PerceptronLayer::new(6, 4, Relu));
    let input = random_input(3, 2);
    let first = net.synapse(&input).unwrap();
    let second = net.synapse(&input).unwrap();
    assert_eq!(first, second);
}

#[test]
fn forward_rejects_mismatched_input() {
    let net = MLP::new().push(PerceptronLayer::new(4, 3, Relu));
    let input = random_input(2, 1);
    assert_eq!(net.synapse(&input).unwrap_err(), Error::ShapeMismatch);
}

#[test]
fn forward_reports_unrepresentable_values() {
    let huge = ri(i128::MAX);
    let mut layer = PerceptronLayer::new(1, 1, Relu);
    layer.weights = m(vec![vec![huge]]);
    layer.bias = m(vec![vec![ri(0)]]);
    let net = MLP::new().push(layer);
    let input = m(vec![vec![huge]]);
    assert_eq!(net.synapse(&input).unwrap_err(), Error::Overflow);
}
