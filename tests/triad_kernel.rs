use stream_bench::triad::{stream_triad, TriadError, SPLIT_THRESHOLD};

fn run(a: &mut Vec<f64>, b: &[f64], c: &[f64], s: f64) -> Result<(), TriadError> {
    stream_triad(a.as_mut_slice(), b, c, &|x: &f64, y: &f64| x + s * y)
}

fn check_length(m: usize) {
    let b: Vec<f64> = (0..m).map(|i| (i % 97) as f64 - 48.0).collect();
    let c: Vec<f64> = (0..m).map(|i| (i % 13) as f64 * 0.5).collect();
    let mut a: Vec<f64> = vec![7.0; m];
    let s = 1.5;
    assert_eq!(run(&mut a, &b, &c, s), Ok(()));
    assert_eq!(a.len(), m);
    for i in 0..m {
        assert_eq!(a[i], b[i] + s * c[i]);
    }
}

#[test]
fn triad_four_elements() {
    let mut a = vec![0.0, 0.0, 0.0, 0.0];
    let b = vec![1.0, 2.0, 3.0, 4.0];
    let c = vec![1.0, 1.0, 1.0, 1.0];
    assert_eq!(run(&mut a, &b, &c, 2.0), Ok(()));
    assert_eq!(a, vec![3.0, 4.0, 5.0, 6.0]);
}

#[test]
fn triad_one_element() {
    check_length(1);
}

#[test]
fn triad_below_threshold() {
    check_length(SPLIT_THRESHOLD - 1);
}

#[test]
fn triad_at_threshold() {
    check_length(SPLIT_THRESHOLD);
}

#[test]
fn triad_just_above_threshold() {
    check_length(SPLIT_THRESHOLD + 1);
}

#[test]
fn triad_far_above_threshold() {
    check_length(8 * SPLIT_THRESHOLD + 3);
}

#[test]
fn triad_empty_is_noop() {
    let mut a: Vec<f64> = Vec::new();
    assert_eq!(run(&mut a, &[], &[], 2.0), Ok(()));
    assert!(a.is_empty());
}

#[test]
fn triad_rejects_short_b() {
    let mut a = vec![9.0, 9.0, 9.0];
    let b = vec![1.0, 2.0];
    let c = vec![1.0, 1.0, 1.0];
    assert_eq!(run(&mut a, &b, &c, 2.0), Err(TriadError::ShapeMismatch));
    assert_eq!(a, vec![9.0, 9.0, 9.0]);
}

#[test]
fn triad_rejects_long_c() {
    let mut a = vec![9.0, 9.0];
    let b = vec![1.0, 2.0];
    let c = vec![1.0, 1.0, 1.0];
    assert_eq!(run(&mut a, &b, &c, 2.0), Err(TriadError::ShapeMismatch));
    assert_eq!(a, vec![9.0, 9.0]);
}

#[test]
fn triad_rejects_empty_a_with_data() {
    let mut a: Vec<f64> = Vec::new();
    let b = vec![1.0];
    let c = vec![1.0];
    assert_eq!(run(&mut a, &b, &c, 2.0), Err(TriadError::ShapeMismatch));
    assert!(a.is_empty());
}

#[test]
fn triad_integer_elements() {
    let m = 3 * SPLIT_THRESHOLD;
    let b: Vec<u64> = (0..m as u64).collect();
    let c: Vec<u64> = (0..m as u64).map(|i| i * 2).collect();
    let mut a: Vec<u64> = vec![0; m];
    let r = stream_triad(a.as_mut_slice(), b.as_slice(), c.as_slice(), &|x: &u64, y: &u64| x + 3 * y);
    assert_eq!(r, Ok(()));
    for i in 0..m {
        assert_eq!(a[i], 7 * i as u64);
    }
}
