use nix_user_chroot::invocation::{
    default_store_dir, get_implicit_nixdir, is_known_command, launch_env, parse_invocation,
    Invocation, NO_STORE_STATUS, USAGE_STATUS,
};

fn strings(v: &[&str]) -> Vec<String> {
    v.iter().map(|s| s.to_string()).collect()
}

#[test]
fn one_positional_argument_is_a_usage_error() {
    let r = parse_invocation(Some("nix-user-chroot".to_string()), strings(&["nix-user-chroot", "/store"]));
    assert!(matches!(r, Invocation::Usage));
    assert_eq!(USAGE_STATUS, 1);
    assert!(matches!(parse_invocation(None, Vec::new()), Invocation::Usage));
}

#[test]
fn explicit_form_takes_store_and_command() {
    let r = parse_invocation(
        Some("nix-user-chroot".to_string()),
        strings(&["./nix-user-chroot", "/home/u/.local/store", "printenv", "NIX_CONF_DIR"]),
    );
    match r {
        Invocation::Explicit { store, command } => {
            assert_eq!(store, "/home/u/.local/store");
            assert_eq!(command, strings(&["printenv", "NIX_CONF_DIR"]));
        }
        other => panic!("unexpected {:?}", other),
    }
}

#[test]
fn multicall_name_runs_that_command() {
    let r = parse_invocation(Some("nix-env".to_string()), strings(&["/usr/bin/nix-env", "-iA", "hello"]));
    match r {
        Invocation::Multicall { command } => assert_eq!(command, strings(&["nix-env", "-iA", "hello"])),
        other => panic!("unexpected {:?}", other),
    }
    assert!(is_known_command(b"nix"));
    assert!(is_known_command(b"nix-store"));
    assert!(!is_known_command(b"nix-user-chroot"));
    assert!(!is_known_command(b"nix-"));
}

#[test]
fn implicit_store_prefers_nonempty_override() {
    let dflt = default_store_dir(b"/home/u/.local/share");
    assert_eq!(dflt, b"/home/u/.local/share/nix-user-chroot".to_vec());
    let r = get_implicit_nixdir(Some("/opt/store".to_string()), dflt.clone(), false);
    assert_eq!(r, Ok(b"/opt/store".to_vec()));
    let r = get_implicit_nixdir(Some(String::new()), dflt.clone(), true);
    assert_eq!(r, Ok(dflt.clone()));
}

#[test]
fn implicit_store_missing_is_an_error() {
    let dflt = default_store_dir(b"/home/u/.local/share/");
    let r = get_implicit_nixdir(None, dflt.clone(), false);
    assert_eq!(r, Err(b"/home/u/.local/share/nix-user-chroot".to_vec()));
    assert_eq!(NO_STORE_STATUS, 2);
}

#[test]
fn config_dir_points_into_store_mount() {
    let (var, value) = launch_env();
    assert_eq!(var, b"NIX_CONF_DIR".to_vec());
    assert_eq!(value, b"/nix/etc/nix".to_vec());
}
