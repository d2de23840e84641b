use algebra::arithmetic::{gcd, lcm, xgcd};

#[test]
fn xgcd_returns_gcd_and_bezout_coefficients() {
    let (g, x, y) = xgcd(&35, &15);
    assert_eq!(g, 5);
    assert_eq!(x * 35 + y * 15, 5);

    let (g, x, y) = xgcd(&240, &46);
    assert_eq!(g, 2);
    assert_eq!(x * 240 + y * 46, 2);

    let (g, _, _) = xgcd(&0, &0);
    assert_eq!(g, 0);

    let (g, x, y) = xgcd(&-12, &18);
    assert_eq!(g, 6);
    assert_eq!(x * -12 + y * 18, 6);
}

#[test]
fn gcd_is_non_negative() {
    assert_eq!(gcd(&12, &18), 6);
    assert_eq!(gcd(&-12, &18), 6);
    assert_eq!(gcd(&7, &0), 7);
    assert_eq!(gcd(&0, &0), 0);
}

#[test]
fn lcm_of_common_cases() {
    assert_eq!(lcm(&4, &6), 12);
    assert_eq!(lcm(&-4, &6), 12);
    assert_eq!(lcm(&0, &5), 0);
}
