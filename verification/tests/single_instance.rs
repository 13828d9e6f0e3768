use blur_autoclicker::single_instance::acquire;

#[test]
fn linux_instance_is_always_acquired() {
    assert!(acquire().is_some());
    assert!(acquire().is_some());
}
