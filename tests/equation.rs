use aoc2024::equation::{evaluate, merge, merge_checked, total_calibration, Equation};

#[test]
fn test_merge() {
    assert_eq!(merge(10, 19), 1019);
    assert_eq!(merge(11 * 6 * 16, 20), 105620);
}

#[test]
fn one_instance() {
    let equation = Equation {
        target: 8396187,
        values: Vec::from([7, 904, 477, 3, 148, 87, 2]),
    };

    let result = evaluate(&equation, 0, 0);
    assert_eq!(result, false);
}

#[test]
fn merge_edge_values() {
    assert_eq!(merge(0, 7), 7);
    assert_eq!(merge(5, 0), 50);
    assert_eq!(merge(12, 345), 12345);
    assert_eq!(merge_checked(1, u128::MAX), None);
    assert_eq!(merge_checked(0, u128::MAX), Some(u128::MAX));
    assert_eq!(merge_checked(u128::MAX / 10 + 1, 0), None);
    assert_eq!(merge_checked(u128::MAX / 10, 5), Some(u128::MAX / 10 * 10 + 5));
}

#[test]
fn equations_by_each_operator() {
    let sum = Equation { target: 29, values: vec![10, 19] };
    assert!(evaluate(&sum, 0, 0));
    let product = Equation { target: 3267, values: vec![81, 40, 27] };
    assert!(evaluate(&product, 0, 0));
    let concat = Equation { target: 156, values: vec![15, 6] };
    assert!(evaluate(&concat, 0, 0));
    let mixed = Equation { target: 7290, values: vec![6, 8, 6, 15] };
    assert!(evaluate(&mixed, 0, 0));
    let none = Equation { target: 83, values: vec![17, 5] };
    assert!(!evaluate(&none, 0, 0));
}

#[test]
fn calibration_total_sums_solvable_targets() {
    let equations = vec![
        Equation { target: 190, values: vec![10, 19] },
        Equation { target: 3267, values: vec![81, 40, 27] },
        Equation { target: 83, values: vec![17, 5] },
        Equation { target: 156, values: vec![15, 6] },
        Equation { target: 7290, values: vec![6, 8, 6, 15] },
        Equation { target: 161011, values: vec![16, 10, 13] },
        Equation { target: 192, values: vec![17, 8, 14] },
        Equation { target: 21037, values: vec![9, 7, 18, 13] },
        Equation { target: 292, values: vec![11, 6, 16, 20] },
    ];
    assert_eq!(total_calibration(&equations), Some(11387));
    let huge = vec![
        Equation { target: u128::MAX, values: vec![u128::MAX] },
        Equation { target: 1, values: vec![1] },
    ];
    assert_eq!(total_calibration(&huge), None);
}
