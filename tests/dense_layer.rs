use one_bit_llm::dense::Dense;
use one_bit_llm::matrix::Matrix;
use one_bit_llm::shape::LayerError;

fn m32(rows: usize, cols: usize, data: Vec<u32>) -> Matrix<u32> {
    Matrix { rows, cols, data }
}

#[test]
fn identity_dense_forward_and_backward() {
    let mut d = Dense::new(m32(2, 2, vec![1, 0, 0, 1]), m32(2, 1, vec![0, 0])).unwrap();
    let y = d.calculate(m32(2, 1, vec![3, 4])).unwrap();
    assert_eq!((y.rows, y.cols), (2, 1));
    assert_eq!(y.data, vec![3, 4]);

    let g = d.calculate_gradients(m32(2, 1, vec![1, 1])).unwrap();
    assert_eq!(d.weight_gradients.data, vec![3, 4, 3, 4]);
    assert_eq!(d.bias_gradients.data, vec![1, 1]);
    assert_eq!(g.data, vec![1, 1]);
}

#[test]
fn dense_step_moves_by_scaled_gradient() {
    let mut d = Dense::new(m32(2, 2, vec![10, 10, 10, 10]), m32(2, 1, vec![5, 6])).unwrap();
    let y = d.calculate(m32(2, 1, vec![3, 4])).unwrap();
    assert_eq!(y.data, vec![75, 76]);
    d.calculate_gradients(m32(2, 1, vec![1, 1])).unwrap();
    d.adjust_parameters(2).unwrap();
    assert_eq!(d.weights.data, vec![4, 2, 4, 2]);
    assert_eq!(d.biases.data, vec![3, 4]);
}

#[test]
fn dense_step_below_zero_leaves_layer_unchanged() {
    let mut d = Dense::new(m32(2, 2, vec![1, 0, 0, 1]), m32(2, 1, vec![0, 0])).unwrap();
    d.calculate(m32(2, 1, vec![3, 4])).unwrap();
    d.calculate_gradients(m32(2, 1, vec![1, 1])).unwrap();
    assert_eq!(d.adjust_parameters(1), Err(LayerError::OutOfRange));
    assert_eq!(d.weights.data, vec![1, 0, 0, 1]);
    assert_eq!(d.adjust_parameters(0), Ok(()));
    assert_eq!(d.weights.data, vec![1, 0, 0, 1]);
}

#[test]
fn dense_batch_sums_bias_gradient_over_columns() {
    let mut d = Dense::new(m32(1, 2, vec![2, 3]), m32(1, 1, vec![1])).unwrap();
    let y = d.calculate(m32(2, 3, vec![1, 0, 2, 4, 1, 0])).unwrap();
    assert_eq!(y.data, vec![15, 4, 5]);
    let g = d.calculate_gradients(m32(1, 3, vec![1, 2, 3])).unwrap();
    assert_eq!(d.bias_gradients.data, vec![6]);
    assert_eq!(d.weight_gradients.data, vec![7, 6]);
    assert_eq!((g.rows, g.cols), (2, 3));
    assert_eq!(g.data, vec![2, 4, 6, 3, 6, 9]);
}

#[test]
fn dense_layer_backward_before_forward_fails() {
    let mut d = Dense::new(m32(1, 1, vec![1]), m32(1, 1, vec![0])).unwrap();
    assert!(matches!(d.calculate_gradients(m32(1, 1, vec![1])), Err(LayerError::UninitializedCache)));
}

#[test]
fn dense_rejects_mismatched_shapes() {
    assert!(matches!(
        Dense::new(m32(2, 2, vec![1, 0, 0, 1]), m32(1, 1, vec![0])),
        Err(LayerError::DimensionMismatch)
    ));
    let mut d = Dense::new(m32(2, 2, vec![1, 0, 0, 1]), m32(2, 1, vec![0, 0])).unwrap();
    assert!(matches!(d.calculate(m32(3, 1, vec![1, 2, 3])), Err(LayerError::DimensionMismatch)));
    d.calculate(m32(2, 1, vec![1, 2])).unwrap();
    assert!(matches!(d.calculate_gradients(m32(2, 2, vec![1, 1, 1, 1])), Err(LayerError::DimensionMismatch)));
}

#[test]
fn dense_forward_overflow_is_out_of_range() {
    let mut d = Dense::new(Matrix { rows: 1, cols: 1, data: vec![200u8] }, Matrix { rows: 1, cols: 1, data: vec![100u8] })
        .unwrap();
    assert!(matches!(d.calculate(Matrix { rows: 1, cols: 1, data: vec![1u8] }), Err(LayerError::OutOfRange)));
    assert!(d.prev_input.is_none());
}

fn loss(g: &Matrix<u32>, y: &Matrix<u32>) -> i64 {
    g.data.iter().zip(y.data.iter()).map(|(a, b)| (*a as i64) * (*b as i64)).sum()
}

#[test]
fn dense_gradients_match_unit_differences() {
    let w = m32(2, 3, vec![1, 2, 0, 3, 1, 4]);
    let b = m32(2, 1, vec![5, 1]);
    let x = m32(3, 2, vec![2, 1, 0, 3, 4, 1]);
    let g = m32(2, 2, vec![1, 2, 3, 1]);

    let mut d = Dense::new(w.clone(), b.clone()).unwrap();
    let y = d.calculate(x.clone()).unwrap();
    let input_gradient = d.calculate_gradients(g.clone()).unwrap();
    let base = loss(&g, &y);

    for r in 0..2 {
        for s in 0..3 {
            let mut w1 = w.clone();
            w1.set(r, s, w.get(r, s) + 1);
            let y1 = Dense::new(w1, b.clone()).unwrap().calculate(x.clone()).unwrap();
            assert_eq!(loss(&g, &y1) - base, d.weight_gradients.get(r, s) as i64);
        }
        let mut b1 = b.clone();
        b1.set(r, 0, b.get(r, 0) + 1);
        let y1 = Dense::new(w.clone(), b1).unwrap().calculate(x.clone()).unwrap();
        assert_eq!(loss(&g, &y1) - base, d.bias_gradients.get(r, 0) as i64);
    }
    for s in 0..3 {
        for c in 0..2 {
            let mut x1 = x.clone();
            x1.set(s, c, x.get(s, c) + 1);
            let y1 = Dense::new(w.clone(), b.clone()).unwrap().calculate(x1).unwrap();
            assert_eq!(loss(&g, &y1) - base, input_gradient.get(s, c) as i64);
        }
    }
    assert_eq!(d.weight_gradients.data, vec![4, 6, 6, 7, 3, 13]);
    assert_eq!(d.bias_gradients.data, vec![3, 4]);
}
