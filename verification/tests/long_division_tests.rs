use ledgera::journal::long_division::{digits_of_text, divide_digits, quotient_text_of, sub_digits};

fn chars(s: &str) -> Vec<char> {
    s.chars().collect()
}

#[test]
fn subtracts_digits_least_significant_first() {
    assert_eq!(sub_digits(&vec![2, 4, 1], &vec![5, 1, 0]), (vec![7, 2, 1], false));
    assert_eq!(sub_digits(&vec![0, 1], &vec![1, 1]).1, true);
}

#[test]
fn divides_numbers_beyond_machine_integers() {
    let n: Vec<u8> = std::iter::once(1).chain(std::iter::repeat(0).take(45)).collect();
    let (q, r) = divide_digits(&n, &vec![7, 0]);
    let expected: Vec<u8> = "0142857142857142857142857142857142857142857142"
        .chars()
        .map(|c| c as u8 - b'0')
        .collect();
    assert_eq!(q, expected);
    assert_eq!(r, vec![6, 0]);
}

#[test]
fn quotient_texts_round_half_to_even() {
    assert_eq!(digits_of_text(&chars("-1.250")), vec![1, 2, 5, 0]);
    assert_eq!(quotient_text_of(&chars("1"), &chars("8")), Some(chars("0.125")));
    assert_eq!(quotient_text_of(&chars("-10"), &chars("4")), Some(chars("-2.5")));
    assert_eq!(quotient_text_of(&chars("0.000000005"), &chars("1")), Some(chars("0")));
    assert_eq!(quotient_text_of(&chars("0.000000015"), &chars("1")), Some(chars("0.00000002")));
    assert_eq!(quotient_text_of(&chars("0"), &chars("3")), None);
    assert_eq!(quotient_text_of(&chars("3"), &chars("0.00")), None);
}
