use num::Complex;
use num::Zero;
use radix_2_fft::bits::bit_rev;
use radix_2_fft::bits::is_power_of_two;
use radix_2_fft::bits::log2_exact;
use radix_2_fft::fft;
use radix_2_fft::try_fft;

fn do_rust_fft(input: &mut [Complex<f64>]) -> Vec<Complex<f64>> {
    let mut planner = rustfft::FftPlanner::new();
    let plan = planner.plan_fft_forward(input.len());
    let mut output = vec![Complex::zero(); input.len()];

    output.copy_from_slice(input);
    plan.process(&mut output);
    output
}

fn cross_check(input: &[Complex<f64>]) {
    let actual = fft(input);
    let expected = do_rust_fft(&mut input.to_vec());

    assert_eq!(actual.len(), expected.len());

    for (x, y) in actual.into_iter().zip(expected.into_iter()) {
        assert!((x - y).norm() < 1e-9);
    }
}

#[test]
fn it_works() {
    cross_check(&vec![
        Complex::<f64>::new(0.3535, 0.0),
        Complex::<f64>::new(0.3535, 0.0),
        Complex::<f64>::new(0.6464, 0.0),
        Complex::<f64>::new(1.0607, 0.0),
        Complex::<f64>::new(0.3535, 0.0),
        Complex::<f64>::new(-1.0607, 0.0),
        Complex::<f64>::new(-1.3535, 0.0),
        Complex::<f64>::new(-0.3535, 0.0),
    ]);
}

#[test]
fn test_rand_1024() {
    let input: Vec<Complex<f64>> = (0..1024)
        .map(|_| Complex::new(rand::random::<f64>(), 0.0))
        .collect();

    cross_check(&input);
}

#[test]
fn complex_random_input_matches_reference() {
    let input: Vec<Complex<f64>> = (0..64)
        .map(|_| Complex::new(rand::random::<f64>() - 0.5, rand::random::<f64>() - 0.5))
        .collect();

    cross_check(&input);
}

#[test]
fn output_length_equals_input_length() {
    for e in 0..8u32 {
        let n = 1usize << e;
        let input: Vec<Complex<f64>> = (0..n).map(|i| Complex::new(i as f64, 0.0)).collect();
        assert_eq!(fft(&input).len(), n);
    }
}

#[test]
fn linearity_within_tolerance() {
    let a = Complex::new(2.5, 0.0);
    let b = Complex::new(-0.75, 1.25);
    let x: Vec<Complex<f64>> = (0..16)
        .map(|i| Complex::new((i as f64).sin(), (i as f64 * 0.3).cos()))
        .collect();
    let y: Vec<Complex<f64>> = (0..16)
        .map(|i| Complex::new(1.0 / (i as f64 + 1.0), (i as f64) * 0.1))
        .collect();

    let combined: Vec<Complex<f64>> = x
        .iter()
        .zip(y.iter())
        .map(|(&xv, &yv)| a * xv + b * yv)
        .collect();

    let fx = fft(&x);
    let fy = fft(&y);
    let fc = fft(&combined);

    for i in 0..16 {
        let expected = a * fx[i] + b * fy[i];
        assert!((fc[i] - expected).norm() < 1e-9);
    }
}

#[test]
fn parseval_energy_for_real_input() {
    let input: Vec<Complex<f64>> = (0..32)
        .map(|i| Complex::new((i as f64 * 0.7).sin(), 0.0))
        .collect();
    let output = fft(&input);

    let in_energy: f64 = input.iter().map(|c| c.norm_sqr()).sum();
    let out_energy: f64 = output.iter().map(|c| c.norm_sqr()).sum();

    assert!((out_energy - 32.0 * in_energy).abs() < 1e-9);
}

#[test]
fn repeated_calls_are_bit_identical() {
    let input: Vec<Complex<f64>> = (0..256)
        .map(|_| Complex::new(rand::random::<f64>() - 0.5, rand::random::<f64>() - 0.5))
        .collect();

    let first = fft(&input);
    let second = fft(&input);

    assert_eq!(first.len(), second.len());
    for i in 0..first.len() {
        assert_eq!(first[i].re.to_bits(), second[i].re.to_bits());
        assert_eq!(first[i].im.to_bits(), second[i].im.to_bits());
    }
}

#[test]
fn single_element_is_identity() {
    let input = vec![Complex::new(1.25, -2.5)];
    let output = fft(&input);

    assert_eq!(output.len(), 1);
    assert_eq!(output[0], input[0]);
}

#[test]
fn two_elements_are_one_butterfly() {
    let a = Complex::new(0.25, 0.5);
    let b = Complex::new(0.75, -1.25);
    let output = fft(&vec![a, b]);

    assert_eq!(output.len(), 2);
    assert_eq!(output[0], a + b);
    assert_eq!(output[1], a - b);

    cross_check(&vec![a, b]);
}

#[test]
fn impulse_transforms_to_all_ones() {
    let mut input = vec![Complex::<f64>::zero(); 16];
    input[0] = Complex::new(1.0, 0.0);
    let output = fft(&input);

    for c in output {
        assert!((c - Complex::new(1.0, 0.0)).norm() < 1e-9);
    }
}

#[test]
fn constant_transforms_to_scaled_impulse() {
    let c = Complex::new(0.5, -0.25);
    let input = vec![c; 8];
    let output = fft(&input);

    assert!((output[0] - c * Complex::new(8.0, 0.0)).norm() < 1e-9);
    for k in 1..8 {
        assert!(output[k].norm() < 1e-9);
    }
}

#[test]
fn zero_length_is_rejected() {
    let input: Vec<Complex<f64>> = vec![];
    assert!(try_fft(&input).is_none());
}

#[test]
fn non_power_of_two_length_is_rejected() {
    let input: Vec<Complex<f64>> = (0..3).map(|i| Complex::new(i as f64, 0.0)).collect();
    assert!(try_fft(&input).is_none());
}

#[test]
fn power_of_two_length_is_accepted() {
    let input: Vec<Complex<f64>> = (0..4).map(|i| Complex::new(i as f64, 1.0)).collect();
    let output = try_fft(&input).unwrap();

    assert_eq!(output.len(), 4);
}

#[test]
fn power_of_two_recognition() {
    assert!(!is_power_of_two(0));
    assert!(is_power_of_two(1));
    assert!(is_power_of_two(2));
    assert!(!is_power_of_two(3));
    assert!(is_power_of_two(1024));
    assert!(!is_power_of_two(1023));
    assert!(!is_power_of_two(usize::MAX));
}

#[test]
fn log2_of_powers_of_two() {
    assert_eq!(log2_exact(1), 0);
    assert_eq!(log2_exact(2), 1);
    assert_eq!(log2_exact(8), 3);
    assert_eq!(log2_exact(1024), 10);
}

#[test]
fn bit_reversal_positions() {
    assert_eq!(bit_rev(0, 3), 0);
    assert_eq!(bit_rev(1, 3), 4);
    assert_eq!(bit_rev(2, 3), 2);
    assert_eq!(bit_rev(3, 3), 6);
    assert_eq!(bit_rev(4, 3), 1);
    assert_eq!(bit_rev(5, 3), 5);
    assert_eq!(bit_rev(6, 3), 3);
    assert_eq!(bit_rev(7, 3), 7);
    assert_eq!(bit_rev(6, 4), 6);
    assert_eq!(bit_rev(1, 10), 512);
}
