use qebbeq::config::detect_controller_namespace;

fn some(s: &str) -> Option<String> {
    Some(s.to_string())
}

#[test]
fn explicit_namespace_wins() {
    assert_eq!(detect_controller_namespace(&some("mine"), &some("mounted"), &some("env")), "mine");
    assert_eq!(detect_controller_namespace(&some(""), &some("mounted"), &None), "");
    assert_eq!(detect_controller_namespace(&some(" x "), &None, &None), " x ");
}

#[test]
fn mounted_namespace_is_trimmed() {
    assert_eq!(detect_controller_namespace(&None, &some(" mounted\n"), &some("env")), "mounted");
}

#[test]
fn blank_mounted_namespace_is_passed_over() {
    assert_eq!(detect_controller_namespace(&None, &some(" \n"), &some("env")), "env");
    assert_eq!(detect_controller_namespace(&None, &some(""), &None), "default");
}

#[test]
fn environment_comes_before_the_default() {
    assert_eq!(detect_controller_namespace(&None, &None, &some(" env ")), " env ");
    assert_eq!(detect_controller_namespace(&None, &None, &None), "default");
}
