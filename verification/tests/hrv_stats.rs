use hrm_core::hrv::{calculate_hrv, HrvError};

#[test]
fn hrv_three_intervals() {
    // rr = [800, 810, 790]: mean = 800, sdnn = sqrt(200/3) ~ 8.165,
    // rmssd = sqrt((10^2 + 20^2)/2) ~ 15.811.
    let rr: Vec<u16> = vec![800, 810, 790];
    let h = calculate_hrv(&rr).unwrap();
    assert_eq!(h.count, 3);
    assert_eq!(h.sum, 2400);
    assert_eq!(h.sum / h.count as u64, 800);
    // 3 * (800^2 + 810^2 + 790^2) - 2400^2 = 600; variance = 600/9
    assert_eq!(h.var_num, 600);
    assert_eq!(h.diff_sq_sum, 500);
    // floor(sqrt(10^6 * 600 / 9)) = 8164, i.e. sdnn = 8.164...
    assert_eq!(h.sdnn_milli, 8164);
    // floor(sqrt(10^6 * 500 / 2)) = 15811, i.e. rmssd = 15.811...
    assert_eq!(h.rmssd_milli, 15811);
    let sdnn = h.sdnn_milli as f64 / 1000.0;
    let rmssd = h.rmssd_milli as f64 / 1000.0;
    assert!((sdnn - 8.165).abs() < 0.002);
    assert!((rmssd - 15.811).abs() < 0.002);
}

#[test]
fn hrv_two_equal_intervals() {
    let rr: Vec<u16> = vec![1000, 1000];
    let h = calculate_hrv(&rr).unwrap();
    assert_eq!(h.var_num, 0);
    assert_eq!(h.sdnn_milli, 0);
    assert_eq!(h.rmssd_milli, 0);
}

#[test]
fn hrv_exact_square() {
    // rr = [10, 20]: variance = (2*500 - 900)/4 = 25, sdnn = 5 exactly;
    // diffs = [10], rmssd = 10 exactly.
    let rr: Vec<u16> = vec![10, 20];
    let h = calculate_hrv(&rr).unwrap();
    assert_eq!(h.sdnn_milli, 5000);
    assert_eq!(h.rmssd_milli, 10000);
}

#[test]
fn hrv_single_interval() {
    let rr: Vec<u16> = vec![5];
    assert!(matches!(
        calculate_hrv(&rr),
        Err(HrvError::InsufficientSamplesForRMSSD)
    ));
}

#[test]
fn hrv_empty_sequence() {
    let rr: Vec<u16> = vec![];
    assert!(matches!(calculate_hrv(&rr), Err(HrvError::EmptySequence)));
}

#[test]
fn hrv_is_deterministic() {
    let rr: Vec<u16> = vec![812, 795, 803, 821, 799];
    let first = calculate_hrv(&rr).unwrap();
    let second = calculate_hrv(&rr).unwrap();
    assert_eq!(first, second);
}

#[test]
fn hrv_largest_intervals() {
    let rr: Vec<u16> = vec![65535, 65535];
    let h = calculate_hrv(&rr).unwrap();
    assert_eq!(h.sum, 131070);
    assert_eq!(h.var_num, 0);
    assert_eq!(h.diff_sq_sum, 0);
}
