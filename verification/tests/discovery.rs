use kazoo_core::ipc::discovery::{
    default_socket_path, parse_pid_file, pid_file_contents, pid_file_path, runtime_dir,
};

#[test]
fn default_socket_path_contains_kazoo() {
    for xdg in [None, Some("/run/user/1000"), Some("/run/user/1000/")] {
        let path = default_socket_path(xdg);
        assert!(path.contains("kazoo"), "socket path should contain 'kazoo': {path}");
        assert!(path.ends_with("hub.sock"), "socket path should end with hub.sock: {path}");
    }
}

#[test]
fn pid_file_path_contains_kazoo() {
    for xdg in [None, Some("/run/user/1000")] {
        let path = pid_file_path(xdg);
        assert!(path.contains("kazoo"));
        assert!(path.ends_with("hub.pid"));
    }
}

#[test]
fn runtime_dir_is_absolute() {
    let dir = runtime_dir(None);
    assert!(std::path::Path::new(&dir).is_absolute());
    assert_eq!(dir, "/tmp/kazoo");
}

#[test]
fn runtime_dir_joins_like_paths() {
    assert_eq!(runtime_dir(Some("/run/user/1000")), "/run/user/1000/kazoo");
    assert_eq!(runtime_dir(Some("/run/user/1000/")), "/run/user/1000/kazoo");
    assert_eq!(runtime_dir(Some("")), "kazoo");
    assert_eq!(default_socket_path(None), "/tmp/kazoo/hub.sock");
    assert_eq!(pid_file_path(Some("/r")), "/r/kazoo/hub.pid");
}

#[test]
fn pid_file_roundtrip() {
    let text = pid_file_contents("/tmp/kazoo/hub.sock", 4242);
    assert_eq!(text, "/tmp/kazoo/hub.sock\n4242\n");
    assert_eq!(parse_pid_file(&text), Some(("/tmp/kazoo/hub.sock".to_owned(), 4242)));
}

#[test]
fn pid_file_malformed_is_none() {
    assert_eq!(parse_pid_file(""), None);
    assert_eq!(parse_pid_file("/only/one/line"), None);
    assert_eq!(parse_pid_file("/sock\n"), None);
    assert_eq!(parse_pid_file("/sock\nnot-a-pid\n"), None);
    assert_eq!(parse_pid_file("/sock\n99999999999\n"), None);
    assert_eq!(parse_pid_file("/sock\n-1\n"), None);
}

#[test]
fn pid_file_line_endings() {
    assert_eq!(parse_pid_file("/sock\r\n12\r\n"), Some(("/sock".to_owned(), 12)));
    assert_eq!(parse_pid_file("/sock\n+7"), Some(("/sock".to_owned(), 7)));
    assert_eq!(parse_pid_file("\n5\n"), Some((String::new(), 5)));
}
