use dsh_launcher::pathutil::{
    inject_node_path, node_dir_injection, path_contains, prepend_user_path_dir, registry_units,
    remove_user_path_dir, trim_trailing_nul,
};

#[test]
fn test_path_contains() {
    assert!(path_contains(
        "C:\\a;C:\\Users\\x\\AppData\\Local\\dsh-launcher\\toolchain\\node",
        "C:\\Users\\x\\AppData\\Local\\dsh-launcher\\toolchain\\node"
    ));
    assert!(path_contains("c:\\A;D:\\B", "c:\\a"));
    assert!(!path_contains("C:\\aa;D:\\b", "C:\\a"));
    assert!(!path_contains("", "C:\\a"));
    assert!(!path_contains("C:\\node", "C:\\node;"));
    assert!(path_contains("C:\\node;", "C:\\node"));
}

#[test]
fn test_inject_node_path_idempotent() {
    let dir = "C:\\node";
    let current = format!("{dir};C:\\Windows");
    assert!(path_contains(&current, dir));
    let current2 = "c:\\NODE;D:\\x";
    assert!(path_contains(current2, "C:\\node"));
    let injected = format!("{dir};{current}");
    let mut seen = 0;
    for p in injected.split(';') {
        if p.eq_ignore_ascii_case(dir) {
            seen += 1;
        }
    }
    assert_eq!(seen, 2, "注入前已有则不应再注入（由调用方判断）");
    assert!(inject_node_path(&current, dir).is_none());
    let fresh = inject_node_path("C:\\Windows", dir).unwrap();
    assert_eq!(fresh, "C:\\node;C:\\Windows");
    assert!(inject_node_path(&fresh, dir).is_none());
}

#[test]
fn own_node_is_put_first_only_when_needed() {
    assert!(node_dir_injection(true, true, "C:\\node").is_none());
    assert!(node_dir_injection(false, false, "C:\\node").is_none());
    assert_eq!(node_dir_injection(false, true, "C:\\node").as_deref(), Some("C:\\node"));
}

#[test]
fn directories_come_and_go() {
    assert_eq!(
        prepend_user_path_dir("C:\\a;C:\\b", "C:\\node"),
        ("C:\\node;C:\\a;C:\\b".to_string(), true)
    );
    assert_eq!(
        prepend_user_path_dir("C:\\a;c:\\NODE", "C:\\node"),
        ("C:\\a;c:\\NODE".to_string(), false)
    );
    assert_eq!(
        remove_user_path_dir("C:\\node;C:\\a;c:\\NODE", "C:\\node").as_deref(),
        Some("C:\\a")
    );
    assert!(remove_user_path_dir("C:\\a", "C:\\node").is_none());
    assert!(remove_user_path_dir("C:\\a;", "C:\\b").is_none());
    assert_eq!(remove_user_path_dir(" C:\\a ;;C:\\b", "c:\\B").as_deref(), Some("C:\\a"));
}

#[test]
fn registry_values_are_read() {
    assert_eq!(trim_trailing_nul(&[65, 0, 66, 0, 0]), 3);
    assert_eq!(trim_trailing_nul(&[0, 0]), 0);
    assert_eq!(registry_units(&[65, 0, 66, 1]), Some(vec![65, 322]));
    assert_eq!(registry_units(&[65, 0, 66]), Some(vec![65]));
    assert_eq!(registry_units(&[65, 0, 0, 0]), Some(vec![65]));
    assert_eq!(registry_units(&[0, 0]), None);
}
