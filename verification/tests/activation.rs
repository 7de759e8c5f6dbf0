use perceptron::activation::{derivative_relu, relu};
use perceptron::matrix::Matrix;
use perceptron::rat::Rat;

fn ri(n: i128) -> Rat {
    Rat::from_int(n)
}

fn m(rows: Vec<Vec<Rat>>) -> Matrix {
    Matrix::from_rows(rows).unwrap()
}

#[test]
fn derivative_re_lu() {
    let input = m(vec![vec![ri(1), ri(-2), ri(3)], vec![ri(-4), ri(5), ri(0)]]);
    let output = derivative_relu(&input);
    let expected = m(vec![vec![ri(1), ri(0), ri(1)], vec![ri(0), ri(1), ri(0)]]);
    assert_eq!(expected, output);
}

#[test]
fn relu_zeroes_nonpositive_entries() {
    let input = m(vec![vec![ri(1), ri(-2), ri(0)], vec![Rat::new(-1, 2).unwrap(), ri(5), ri(7)]]);
    let output = relu(&input);
    let expected = m(vec![vec![ri(1), ri(0), ri(0)], vec![ri(0), ri(5), ri(7)]]);
    assert_eq!(expected, output);
}
