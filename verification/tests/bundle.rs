use instance_batch::bundle::UiBundle;

static DEPS: [&str; 2] = ["transform_system", "input_system"];

static NONE: [&str; 0] = [];

#[test]
fn bundle_holds_the_dependencies_it_was_given() {
    let bundle = UiBundle::new(&DEPS);
    assert_eq!(bundle.deps(), &["transform_system", "input_system"]);
}

#[test]
fn bundle_without_dependencies() {
    let bundle = UiBundle::new(&NONE);
    assert!(bundle.deps().is_empty());
}
