use rsimpl::Rat;

fn rat(n: i64, d: i64) -> Rat {
    Rat::new(n, d)
}

#[test]
fn exact_addition() {
    let a = rat(1, 2);
    let b = rat(1, 3);
    let c = a.checked_add(b).unwrap();
    assert_eq!(c.num, 5);
    assert_eq!(c.den, 6);
}

#[test]
fn exact_subtraction_to_zero() {
    let a = rat(7, 3);
    let c = a.checked_sub(a).unwrap();
    assert_eq!(c.num, 0);
}

#[test]
fn exact_multiplication() {
    let c = rat(-2, 3).checked_mul(rat(5, 7)).unwrap();
    assert_eq!(c.num, -10);
    assert_eq!(c.den, 21);
}

#[test]
fn division_keeps_denominator_positive() {
    let c = rat(1, 2).checked_div(rat(-2, 3)).unwrap();
    assert_eq!(c.num, -3);
    assert_eq!(c.den, 4);

    let d = rat(5, 4).checked_div(rat(5, 4)).unwrap();
    assert_eq!(d.num, d.den);
}

#[test]
fn out_of_range_results_are_reported() {
    let big = rat(i64::MAX, 1);
    assert_eq!(big.checked_add(big), None);
    assert_eq!(big.checked_mul(big), None);
    assert_eq!(rat(1, i64::MAX).checked_mul(rat(1, i64::MAX)), None);
    assert_eq!(big.checked_add(rat(0, 1)), Some(big));
}

#[test]
fn exact_comparisons() {
    assert!(rat(1, 3).lt(rat(1, 2)));
    assert!(!rat(1, 2).lt(rat(1, 2)));
    assert!(rat(1, 2).le(rat(2, 4)));
    assert!(rat(-1, 2).lt(rat(0, 5)));
}
