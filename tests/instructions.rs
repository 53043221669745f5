use aoc2024::instructions::{parse_a, parse_b, sum_enabled, sum_products, Instruction};

#[test]
fn test_part_b_can_parse_do() {
    let input = "do()";
    let instructions = parse_b(input);

    assert_eq!(instructions, vec![Instruction::Do]);
}

#[test]
fn test_part_b_can_parse_dont() {
    let input = "don't()";
    let instructions = parse_b(input);

    assert_eq!(instructions, vec![Instruction::Donot]);
}

#[test]
fn day_03_test_part_b_cases() {
    let input = "mul(2,3)|do()|mul(4,5)|don't()";
    let instructions = parse_b(input);

    assert_eq!(
        instructions,
        vec![
            Instruction::Mul(2, 3),
            Instruction::Do,
            Instruction::Mul(4, 5),
            Instruction::Donot,
        ]
    );
}

#[test]
fn test_part_b_cases_1() {
    let input = "xmul(2,4)&mul[3,7]!^don't()_mul(5,5)+mul(32,64](mul(11,8)undo()?mul(8,5))";
    let instructions = parse_b(input);

    assert_eq!(
        instructions,
        vec![
            Instruction::Mul(2, 4),
            Instruction::Donot,
            Instruction::Mul(5, 5),
            Instruction::Mul(11, 8),
            Instruction::Do,
            Instruction::Mul(8, 5),
        ]
    );
}

#[test]
fn sum_of_all_products() {
    let input = "xmul(2,4)%&mul[3,7]!@^do_not_mul(5,5)+mul(32,64]then(mul(11,8)mul(8,5))";
    assert_eq!(parse_a(input), Some(161));
    assert_eq!(parse_a(""), Some(0));
}

#[test]
fn sum_of_enabled_products() {
    let input = "xmul(2,4)&mul[3,7]!^don't()_mul(5,5)+mul(32,64](mul(11,8)undo()?mul(8,5))";
    assert_eq!(sum_enabled(&parse_b(input)), Some(48));
    assert_eq!(sum_products(&parse_b(input)), Some(161));
}

#[test]
fn malformed_and_oversized_operands_are_noise() {
    assert_eq!(parse_b("mul(,3)mul(4,)mul( 1,2)mul(1,2"), vec![]);
    assert_eq!(parse_b("mul(99999999999,2)mul(3,4)"), vec![Instruction::Mul(3, 4)]);
    assert_eq!(parse_b("mulmul(007,2)"), vec![Instruction::Mul(7, 2)]);
    assert_eq!(parse_b("don't(do()"), vec![Instruction::Do]);
}

#[test]
fn sums_stop_at_overflow() {
    let big = Instruction::Mul(i32::MAX, i32::MAX);
    assert_eq!(sum_products(&vec![big, big]), Some(2 * (i32::MAX as i64) * (i32::MAX as i64)));
    assert_eq!(sum_products(&vec![big, big, big]), None);
    assert_eq!(sum_enabled(&vec![big, Instruction::Donot, big, big]), Some((i32::MAX as i64) * (i32::MAX as i64)));
}
