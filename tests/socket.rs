use polybar_iconography::bspc::socket_path;

#[test]
fn socket_named_by_environment_wins() {
    assert_eq!(
        socket_path(Some("/run/bspwm.sock".to_string()), Some(":1".to_string()), 3),
        "/run/bspwm.sock"
    );
}

#[test]
fn default_socket_from_display_and_screen() {
    assert_eq!(socket_path(None, Some(":1".to_string()), 0), "/tmp/bspwm_1_0-socket");
    assert_eq!(socket_path(None, None, 12), "/tmp/bspwm_0_12-socket");
    assert_eq!(socket_path(None, Some(String::new()), -1), "/tmp/bspwm__-1-socket");
}
