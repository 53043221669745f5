use aoc2024::reports::{count_repairable, count_valid, Reports};

#[test]
fn test_is_valid_part_b() {
    let reports = Reports(vec![7, 6, 4, 2, 1]);
    assert_eq!(reports.is_valid_part_b(), true);
}

#[test]
fn test_part_b_type_1_repair() {
    // removing 3 will make this report valid
    let reports = Reports(vec![1, 3, 2, 4, 5]);
    assert_eq!(reports.is_valid_part_b(), true);
}

#[test]
fn test_part_b_type_2_repair() {
    // removing 4 will make this report valid
    let reports = Reports(vec![8, 6, 4, 4, 1]);
    assert_eq!(reports.is_valid_part_b(), true);
}

#[test]
fn test_part_b_start_repair() {
    // removing the first element will make this valid
    let reports = Reports(vec![1, 6, 4, 2, 1]);
    assert_eq!(reports.is_valid_part_b(), true);
}

#[test]
fn test_part_b_end_repair() {
    // removing the last element will make this valid
    let reports = Reports(vec![8, 6, 4, 2, 4]);
    assert_eq!(reports.is_valid_part_b(), true);
}

#[test]
fn test_part_b_mid_repair() {
    // removing the last 6 will make this valid
    let reports = Reports(vec![8, 6, 4, 6, 1]);
    assert_eq!(reports.is_valid_part_b(), true);
}

#[test]
fn test_part_b_usafe_reports() {
    let reports = Reports(vec![1, 2, 7, 8, 9]);
    assert_eq!(reports.is_valid_part_b(), false);

    let reports = Reports(vec![9, 7, 6, 2, 1]);
    assert_eq!(reports.is_valid_part_b(), false);
}

#[test]
fn test_part_b_type_3_repair_end() {
    // diffs: [1, 1, 1, 1, 2, 1, 4]
    let reports = Reports(vec![19, 20, 21, 22, 23, 25, 26, 30]);
    assert_eq!(reports.is_valid_part_b(), true);
}

#[test]
fn test_part_b_type_3_repair_start() {
    let reports = Reports(vec![30, 26, 25, 23, 22, 21, 20, 19]);
    assert_eq!(reports.is_valid_part_b(), true);
}

#[test]
fn test_part_b_type_3_repair_mid() {
    let reports = Reports(vec![26, 25, 23, 30, 22, 21, 20, 19]);
    assert_eq!(reports.is_valid_part_b(), true);
}

#[test]
fn test_part_b_type_3_repair_other() {
    let reports = Reports(vec![26, 25, 23, 22, 21, 20, 30, 19]);
    assert_eq!(reports.is_valid_part_b(), true);
}

#[test]
fn day_02_test_part_b_cases() {
    let reports = [
        Reports(vec![48, 46, 47, 49, 51, 54, 56]).is_valid_part_b(),
        Reports(vec![1, 1, 2, 3, 4, 5]).is_valid_part_b(),
        Reports(vec![1, 2, 3, 4, 5, 5]).is_valid_part_b(),
        Reports(vec![5, 1, 2, 3, 4, 5]).is_valid_part_b(),
        Reports(vec![1, 4, 3, 2, 1]).is_valid_part_b(),
        Reports(vec![1, 6, 7, 8, 9]).is_valid_part_b(),
        Reports(vec![1, 2, 3, 4, 3]).is_valid_part_b(),
        Reports(vec![9, 8, 7, 6, 7]).is_valid_part_b(),
        Reports(vec![7, 10, 8, 10, 11]).is_valid_part_b(),
        Reports(vec![29, 28, 27, 25, 26, 25, 22, 20]).is_valid_part_b(),
        Reports(vec![7, 10, 8, 10, 11]).is_valid_part_b(),
        Reports(vec![29, 28, 27, 25, 26, 25, 22, 20]).is_valid_part_b(),
        Reports(vec![8, 9, 10, 11]).is_valid_part_b(),
        Reports(vec![1, 2, 3, 4, 5, 5]).is_valid_part_b(),
    ];

    assert!(reports.iter().all(|b| *b == true));
}

#[test]
fn short_reports_are_valid() {
    assert!(Reports(vec![]).is_valid_part_a());
    assert!(Reports(vec![42]).is_valid_part_a());
    assert!(Reports(vec![]).is_valid_part_b());
    assert!(Reports(vec![42]).is_valid_part_b_brute());
}

#[test]
fn validity_rules() {
    assert!(Reports(vec![7, 6, 4, 2, 1]).is_valid_part_a());
    assert!(Reports(vec![1, 3, 6, 7, 9]).is_valid_part_a());
    assert!(!Reports(vec![1, 2, 7, 8, 9]).is_valid_part_a());
    assert!(!Reports(vec![1, 3, 2, 4, 5]).is_valid_part_a());
    assert!(!Reports(vec![8, 6, 4, 4, 1]).is_valid_part_a());
    assert!(!Reports(vec![3, 3]).is_valid_part_a());
}

#[test]
fn validity_steps_do_not_wrap() {
    assert!(!Reports(vec![i32::MIN, i32::MAX]).is_valid_part_a());
    assert!(!Reports(vec![i32::MAX, i32::MIN]).is_valid_part_a());
    assert!(Reports(vec![i32::MAX - 3, i32::MAX]).is_valid_part_a());
}

#[test]
fn literal_scenarios_agree() {
    let cases: [(Vec<i32>, bool, bool); 5] = [
        (vec![7, 6, 4, 2, 1], true, true),
        (vec![1, 3, 2, 4, 5], false, true),
        (vec![1, 2, 7, 8, 9], false, false),
        (vec![9, 7, 6, 2, 1], false, false),
        (vec![8, 6, 4, 4, 1], false, true),
    ];
    for (values, valid, repairable) in cases {
        let r = Reports(values);
        assert_eq!(r.is_valid_part_a(), valid);
        assert_eq!(r.is_valid_part_b(), repairable);
        assert_eq!(r.is_valid_part_b_brute(), repairable);
    }
}

#[test]
fn heuristic_misses_a_repair_that_exists() {
    // diffs [-1, 8]: one negative step blamed, but the repair is to drop the 9
    let r = Reports(vec![2, 1, 9]);
    assert!(!r.is_valid_part_a());
    assert_eq!(r.is_valid_part_b(), false);
    assert_eq!(r.is_valid_part_b_brute(), true);
    assert!(r.without(2).is_valid_part_a());
}

#[test]
fn exhaustive_matches_single_removals() {
    let samples: [Vec<i32>; 6] = [
        vec![1, 3, 2, 4, 5],
        vec![1, 2, 7, 8, 9],
        vec![5, 5, 5],
        vec![10, 1],
        vec![2, 1, 9],
        vec![1, 2, 3, 4, 3],
    ];
    for values in samples {
        let r = Reports(values.clone());
        let mut any = false;
        for k in 0..values.len() {
            if r.without(k).is_valid_part_a() {
                any = true;
            }
        }
        assert_eq!(r.is_valid_part_b_brute(), any);
        if r.is_valid_part_b() {
            assert!(r.is_valid_part_b_brute());
        }
    }
}

#[test]
fn without_removes_one_reading() {
    let r = Reports(vec![4, 5, 6, 7]);
    assert_eq!(r.without(0).0, vec![5, 6, 7]);
    assert_eq!(r.without(2).0, vec![4, 5, 7]);
    assert_eq!(r.without(3).0, vec![4, 5, 6]);
}

#[test]
fn batch_counts() {
    let batch = vec![
        Reports(vec![7, 6, 4, 2, 1]),
        Reports(vec![1, 2, 7, 8, 9]),
        Reports(vec![9, 7, 6, 2, 1]),
        Reports(vec![1, 3, 2, 4, 5]),
        Reports(vec![8, 6, 4, 4, 1]),
        Reports(vec![1, 3, 6, 7, 9]),
    ];
    assert_eq!(count_valid(&batch), 2);
    assert_eq!(count_repairable(&batch), 4);
    assert_eq!(count_valid(&Vec::new()), 0);
}

#[test]
fn small_reports_enumerated() {
    let mut divergent = 0;
    for len in 0..=5u32 {
        for code in 0..5usize.pow(len) {
            let mut values = Vec::new();
            let mut c = code;
            for _ in 0..len {
                values.push((c % 5) as i32 * 2 - 1);
                c /= 5;
            }
            let r = Reports(values.clone());
            let valid = r.is_valid_part_a();
            let brute = r.is_valid_part_b_brute();
            let heuristic = r.is_valid_part_b();
            let any_removal = (0..values.len()).any(|k| r.without(k).is_valid_part_a());
            if len <= 1 {
                assert!(valid);
            }
            if valid {
                assert!(brute && heuristic);
            }
            if len >= 1 {
                assert_eq!(brute, any_removal);
            }
            if heuristic {
                assert!(brute);
            }
            if brute && !heuristic {
                divergent += 1;
            }
        }
    }
    assert!(divergent > 0);
}
