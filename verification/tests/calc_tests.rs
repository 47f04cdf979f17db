use scout::calc::calc_query;

fn eval(q: &str) -> Option<String> {
    let chars: Vec<char> = q.chars().collect();
    calc_query(&chars)
}

#[test]
fn complete_addition() {
    assert_eq!(eval("2+2"), Some("4".to_string()));
}

#[test]
fn division_exact() {
    assert_eq!(eval("10/2"), Some("5".to_string()));
}

#[test]
fn division_fractional() {
    assert_eq!(eval("7/2"), Some("3.5".to_string()));
}

#[test]
fn division_repeating_is_truncated() {
    assert_eq!(eval("1/3"), Some("0.333333333333".to_string()));
}

#[test]
fn precedence_and_parentheses() {
    assert_eq!(eval("2+3*4"), Some("14".to_string()));
    assert_eq!(eval("(2+3)*4"), Some("20".to_string()));
}

#[test]
fn unary_minus() {
    assert_eq!(eval("-5+2"), Some("-3".to_string()));
    assert_eq!(eval("2*-3"), Some("-6".to_string()));
}

#[test]
fn spaces_between_tokens() {
    assert_eq!(eval("  2 + 2  "), Some("4".to_string()));
}

#[test]
fn division_by_zero_fails() {
    assert_eq!(eval("10/0"), None);
}

#[test]
fn plain_text_fails() {
    assert_eq!(eval("firefox"), None);
    assert_eq!(eval(""), None);
    assert_eq!(eval("   "), None);
}

#[test]
fn trailing_operator_fails() {
    assert_eq!(eval("2+"), None);
}

#[test]
fn unbalanced_parenthesis_fails() {
    assert_eq!(eval("(2+3"), None);
}

#[test]
fn out_of_range_fails() {
    assert_eq!(eval("9223372036854775807+1"), None);
}

#[test]
fn negative_fraction() {
    assert_eq!(eval("-1/2"), Some("-0.5".to_string()));
}
