use perceptron::activation::Relu;
use perceptron::array::one_hot;
use perceptron::matrix::Matrix;
use perceptron::perceptron::{PerceptronLayer, MLP};
use perceptron::rat::Rat;
use perceptron::rat::{rat_add, rat_mul, rat_sub};
use perceptron::trainer::Trainer;

fn ri(n: i128) -> Rat {
    Rat::from_int(n)
}

fn rq(n: i128, d: i128) -> Rat {
    Rat::new(n, d).unwrap()
}

/// The exact rational `num * 10^-pow`, as a decimal literal would denote it.
fn dec(num: i128, pow: u32) -> Rat {
    Rat::new(num, 10i128.pow(pow)).unwrap()
}

fn m(rows: Vec<Vec<Rat>>) -> Matrix {
    Matrix::from_rows(rows).unwrap()
}

#[test]
fn accuracy() {
    let prediction = m(vec![
        vec![ri(1), ri(2), ri(0)],
        vec![ri(2), ri(0), rq(1, 10)],
        vec![ri(3), ri(0), ri(0)],
        vec![ri(9), ri(0), ri(0)],
    ]);

    let labels = m(vec![
        vec![ri(0), ri(1), ri(0)],
        vec![ri(0), ri(0), ri(1)],
        vec![ri(0), ri(0), ri(0)],
        vec![ri(1), ri(0), ri(0)],
    ]);

    assert_eq!(Trainer::<Relu>::accuracy(&prediction, &labels), ri(1));
}

#[test]
fn accuracy_50() {
    let prediction = m(vec![
        vec![ri(0), ri(1), ri(0), ri(0)],
        vec![ri(0), ri(0), ri(0), ri(1)],
        vec![ri(0), ri(0), ri(1), ri(0)],
        vec![ri(1), ri(0), ri(0), ri(0)],
    ]);

    let labels = m(vec![
        vec![ri(0), ri(0), ri(0), ri(0)],
        vec![ri(0), ri(1), ri(0), ri(1)],
        vec![ri(0), ri(0), ri(0), ri(0)],
        vec![ri(1), ri(0), ri(1), ri(0)],
    ]);

    assert_eq!(Trainer::<Relu>::accuracy(&prediction, &labels), rq(1, 2));
}

#[test]
fn accuracy_25() {
    let prediction = m(vec![
        vec![ri(0), ri(1), ri(0), ri(0)],
        vec![ri(0), ri(0), ri(0), ri(1)],
        vec![ri(0), ri(0), ri(1), ri(0)],
        vec![ri(1), ri(0), ri(0), ri(0)],
    ]);

    let labels = m(vec![
        vec![ri(0), ri(0), ri(0), ri(1)],
        vec![ri(0), ri(1), ri(0), ri(0)],
        vec![ri(0), ri(0), ri(0), ri(0)],
        vec![ri(1), ri(0), ri(1), ri(0)],
    ]);

    assert_eq!(Trainer::<Relu>::accuracy(&prediction, &labels), rq(1, 4));
}

#[test]
fn accuracy_real() {
    let prediction = m(vec![
        vec![dec(9939787140657586, 16), dec(6439549670232248, 24)],
        vec![dec(249212497667679, 20), dec(25025577848802835, 19)],
        vec![dec(574035410883897, 17), dec(14512860736697141, 21)],
        vec![dec(9907811738450522, 20), dec(38255793478814294, 19)],
        vec![dec(13806311197173162, 20), dec(9792530299888811, 16)],
        vec![dec(41240404890426184, 21), dec(14360693716527605, 18)],
        vec![dec(888675480504997, 26), dec(124637436671909, 20)],
        vec![dec(23519657402265474, 24), dec(7262059897273201, 26)],
        vec![dec(3453749248389487, 23), dec(16727740930160397, 23)],
        vec![dec(14239765508641112, 29), dec(4220613714675754, 20)],
    ]);

    let labels = m(vec![vec![ri(0), ri(4)]]);
    let labels_onehot = one_hot(&labels, 10).unwrap();
    println!("labels onehot: {:?}", labels_onehot);

    assert_eq!(Trainer::<Relu>::accuracy(&prediction, &labels_onehot), ri(1));
}

#[test]
fn test_backpropagation_1() {
    let input = m(vec![vec![ri(1)], vec![ri(2)]]);
    let input_labels = m(vec![vec![ri(1)]]);

    let mut layer1 = PerceptronLayer::new(1, 2, Relu);
    layer1.weights = m(vec![vec![ri(1), ri(1)]]);
    layer1.bias = m(vec![vec![ri(1)]]);
    let mut layer2 = PerceptronLayer::new(2, 1, Relu);
    layer2.weights = m(vec![vec![ri(1)], vec![ri(1)]]);
    layer2.bias = m(vec![vec![ri(1)], vec![ri(1)]]);

    let mlp = MLP::new().push(layer1).push(layer2);

    let mut t: Trainer<Relu> = Trainer::new(mlp, ri(1), 1);
    t.train(&input, &input_labels).unwrap();

    assert_eq!(m(vec![vec![ri(-8), ri(-17)]]), t.mlp.layers[0].weights);
    assert_eq!(m(vec![vec![ri(-8)]]), t.mlp.layers[0].bias);

    assert_eq!(m(vec![vec![ri(-19)], vec![ri(-15)]]), t.mlp.layers[1].weights);
    assert_eq!(m(vec![vec![ri(-8)], vec![ri(-8)]]), t.mlp.layers[1].bias);
}

#[test]
fn train_reports_per_epoch_accuracy() {
    let input = m(vec![vec![ri(1)], vec![ri(2)]]);
    let input_labels = m(vec![vec![ri(1)]]);

    let mut layer1 = PerceptronLayer::new(1, 2, Relu);
    layer1.weights = m(vec![vec![ri(1), ri(1)]]);
    layer1.bias = m(vec![vec![ri(1)]]);
    let mut layer2 = PerceptronLayer::new(2, 1, Relu);
    layer2.weights = m(vec![vec![ri(1)], vec![ri(1)]]);
    layer2.bias = m(vec![vec![ri(1), ], vec![ri(1)]]);

    let mlp = MLP::new().push(layer1).push(layer2);
    let mut t: Trainer<Relu> = Trainer::new(mlp, ri(1), 1);
    let accs = t.train(&input, &input_labels).unwrap();

    // one epoch, and the single sample's argmax row (0, a tie at 5) misses
    // the target row 1, so the reported accuracy is exactly 0
    assert_eq!(accs.len(), 1);
    assert_eq!(accs[0], ri(0));
}

#[test]
fn train_rejects_out_of_range_label() {
    let input = m(vec![vec![ri(1)], vec![ri(2)]]);
    let input_labels = m(vec![vec![ri(7)]]);

    let mut layer1 = PerceptronLayer::new(1, 2, Relu);
    layer1.weights = m(vec![vec![ri(1), ri(1)]]);
    layer1.bias = m(vec![vec![ri(1)]]);
    let mut layer2 = PerceptronLayer::new(2, 1, Relu);
    layer2.weights = m(vec![vec![ri(1)], vec![ri(1)]]);
    layer2.bias = m(vec![vec![ri(1)], vec![ri(1)]]);

    let mlp = MLP::new().push(layer1).push(layer2);
    let mut t: Trainer<Relu> = Trainer::new(mlp, ri(1), 1);
    assert_eq!(
        t.train(&input, &input_labels).unwrap_err(),
        perceptron::Error::LabelOutOfRange
    );
}

#[test]
fn rat_arithmetic_reduces_exactly() {
    let third = rq(1, 3);
    let sixth = rq(1, 6);
    assert_eq!(rat_add(&third, &sixth).unwrap(), rq(1, 2));
    assert_eq!(rat_sub(&third, &sixth).unwrap(), rq(1, 6));
    assert_eq!(rat_mul(&rq(2, 3), &rq(3, 4)).unwrap(), rq(1, 2));
    assert_eq!(rat_add(&ri(i128::MAX - 1), &ri(1)).unwrap(), ri(i128::MAX));
    assert!(rat_add(&ri(i128::MAX), &ri(1)).is_none());
}
