use perceptron::array::{max, one_hot};
use perceptron::matrix::Matrix;
use perceptron::rat::Rat;
use perceptron::Error;

fn ri(n: i128) -> Rat {
    Rat::from_int(n)
}

fn rq(n: i128, d: i128) -> Rat {
    Rat::new(n, d).unwrap()
}

fn m(rows: Vec<Vec<Rat>>) -> Matrix {
    Matrix::from_rows(rows).unwrap()
}

#[test]
fn test_max() {
    let output = max(&vec![ri(1), ri(9), ri(3), ri(10), ri(-1), rq(1, 2)]);
    assert_eq!((3, ri(10)), output);
}

#[test]
fn max_tie_resolves_to_earliest_index() {
    let output = max(&vec![ri(7), ri(7), ri(3)]);
    assert_eq!((0, ri(7)), output);
    let single = max(&vec![ri(-4)]);
    assert_eq!((0, ri(-4)), single);
}

#[test]
fn max_compares_values_not_representations() {
    // 2/4 and 1/2 denote the same value; 3/5 exceeds both.
    let output = max(&vec![rq(1, 2), rq(3, 5), rq(2, 4)]);
    assert_eq!((1, rq(3, 5)), output);
}

#[test]
fn one_hot_basic() {
    let labels = m(vec![vec![ri(0), ri(4)]]);
    let oh = one_hot(&labels, 10).unwrap();
    assert_eq!(oh.rows, 10);
    assert_eq!(oh.cols, 2);
    for j in 0..2usize {
        let hot = if j == 0 { 0 } else { 4 };
        let mut ones = 0;
        for i in 0..10usize {
            let v = oh.at(i, j);
            if i == hot {
                assert_eq!(v, ri(1));
                ones += 1;
            } else {
                assert_eq!(v, ri(0));
            }
        }
        assert_eq!(ones, 1);
    }
}

#[test]
fn one_hot_rejects_out_of_range_label() {
    let labels = m(vec![vec![ri(3), ri(10)]]);
    assert_eq!(one_hot(&labels, 10).unwrap_err(), Error::LabelOutOfRange);
    let negative = m(vec![vec![ri(-1)]]);
    assert_eq!(one_hot(&negative, 10).unwrap_err(), Error::LabelOutOfRange);
}
