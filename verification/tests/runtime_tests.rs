use tinyscript::runtime::runtime::Runtime;

#[test]
fn new_runtime_holds_nothing() {
    let runtime = Runtime::new();
    assert_eq!(runtime.get_global("x"), None);
    assert_eq!(runtime.get_local("x"), None);
}

#[test]
fn globals_are_set_and_read() {
    let mut runtime = Runtime::new();
    runtime.set_global("x".to_string(), 1);
    runtime.set_global("y".to_string(), -2);
    assert_eq!(runtime.get_global("x"), Some(&1));
    assert_eq!(runtime.get_global("y"), Some(&-2));
    runtime.set_global("x".to_string(), 3);
    assert_eq!(runtime.get_global("x"), Some(&3));
    assert_eq!(runtime.get_global("z"), None);
    assert_eq!(runtime.get_local("x"), None);
}

#[test]
fn locals_need_a_frame() {
    let mut runtime = Runtime::new();
    runtime.set_local("x".to_string(), 1);
    assert_eq!(runtime.get_local("x"), None);
    runtime.enter_scope();
    assert_eq!(runtime.get_local("x"), None);
    runtime.set_local("x".to_string(), 2);
    assert_eq!(runtime.get_local("x"), Some(&2));
    assert_eq!(runtime.get_global("x"), None);
}

#[test]
fn only_the_current_frame_is_read() {
    let mut runtime = Runtime::new();
    runtime.enter_scope();
    runtime.set_local("x".to_string(), 1);
    runtime.enter_scope();
    assert_eq!(runtime.get_local("x"), None);
    runtime.set_local("x".to_string(), 2);
    runtime.set_local("y".to_string(), 3);
    assert_eq!(runtime.get_local("x"), Some(&2));
    runtime.exit_scope();
    assert_eq!(runtime.get_local("x"), Some(&1));
    assert_eq!(runtime.get_local("y"), None);
    runtime.exit_scope();
    assert_eq!(runtime.get_local("x"), None);
}

#[test]
fn exit_without_a_frame_does_nothing() {
    let mut runtime = Runtime::new();
    runtime.set_global("g".to_string(), 7);
    runtime.exit_scope();
    runtime.exit_scope();
    assert_eq!(runtime.get_global("g"), Some(&7));
    runtime.enter_scope();
    runtime.set_local("x".to_string(), 1);
    assert_eq!(runtime.get_local("x"), Some(&1));
}
