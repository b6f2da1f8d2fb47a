use secret_calculator::calculations_utils::{
    calculate_add, calculate_div, calculate_mul, calculate_sqrt, calculate_sub,
    get_calculation_string,
};

#[test]
fn test_calculate_add() {
    let n1: u128 = 100;
    let n2: u128 = 200;
    let expected: u128 = 300;
    let actual = calculate_add(n1, n2);
    assert_eq!(expected, actual.unwrap());
}

#[test]
fn test_calculate_sub() {
    let n1: u128 = 200;
    let n2: u128 = 150;
    let expected: u128 = 50;
    let actual = calculate_sub(n1, n2);
    assert_eq!(expected, actual.unwrap());
}

#[test]
fn test_calculate_mul() {
    let n1: u128 = 100;
    let n2: u128 = 200;
    let expected: u128 = 20000;
    let actual = calculate_mul(n1, n2);
    assert_eq!(expected, actual.unwrap());
}

#[test]
fn test_calculate_div() {
    let n1: u128 = 100;
    let n2: u128 = 3;
    let expected: u128 = 33;
    let actual = calculate_div(n1, n2);
    assert_eq!(expected, actual.unwrap());
}

#[test]
fn test_calculate_div_fraction() {
    let n1: u128 = 100;
    let n2: u128 = 200;
    let expected: u128 = 0;
    let actual = calculate_div(n1, n2);
    assert_eq!(expected, actual.unwrap());
}

#[test]
fn test_calculate_sqrt() {
    let n1: u128 = 5;
    let expected: u128 = 2;
    let actual = calculate_sqrt(n1, u128::MIN);
    assert_eq!(expected, actual.unwrap());
}

#[test]
fn test_get_calculation_string() {
    let operation = String::from("+");
    let n1: u128 = 2;
    let n2: u128 = 5;
    let result: u128 = 7;
    let calculation_string = get_calculation_string(n1, n2, &operation, result);
    assert_eq!("2 + 5 = 7", calculation_string);
}

#[test]
fn test_get_calculation_string_sqrt() {
    let operation = String::from("√");
    let n1: u128 = 5;
    let n2: u128 = 5;
    let result: u128 = 2;
    let calculation_string = get_calculation_string(n1, n2, &operation, result);
    assert_eq!("√5 = 2", calculation_string);
}
