use appearance_profiles::{
    base_directory, is_relative, join_path, published_bundle_path, published_profile_path,
    user_profile_path, Error,
};

#[test]
fn user_name_is_safe_for_a_path_component() {
    assert!(published_profile_path("mason").is_ok());
    assert!(published_profile_path("../root").is_err());
}

#[test]
fn published_paths_are_side_by_side_in_the_user_directory() {
    assert_eq!(
        published_profile_path("mason").unwrap(),
        "/var/lib/appearance-profiles/users/mason/default.toml"
    );
    assert_eq!(
        published_bundle_path("mason-2_x").unwrap(),
        "/var/lib/appearance-profiles/users/mason-2_x/bundle.toml"
    );
}

#[test]
fn invalid_user_names_are_reported() {
    for name in ["", ".", "..", "a/b", "Ünïcode", "with space"] {
        match published_profile_path(name) {
            Err(Error::User(u)) => assert_eq!(u, name),
            other => panic!("unexpected {:?}", other),
        }
        assert!(published_bundle_path(name).is_err());
    }
}

#[test]
fn join_matches_std_path_join() {
    let cases = [
        ("/etc", "a.png"),
        ("/etc/", "a.png"),
        ("", "a.png"),
        (".", "a.png"),
        ("/etc", "/abs.png"),
        ("rel/dir", "sub/a.png"),
        ("/etc", ""),
    ];
    for (base, rel) in cases {
        let expected = std::path::Path::new(base).join(rel);
        assert_eq!(join_path(base, rel), expected.to_str().unwrap());
    }
}

#[test]
fn relative_paths_do_not_start_with_the_root() {
    assert!(is_relative("a/b"));
    assert!(is_relative(""));
    assert!(is_relative("./a"));
    assert!(!is_relative("/a"));
}

#[test]
fn base_directory_is_the_parent_or_the_working_directory() {
    assert_eq!(base_directory("/etc/appearance-profiles/default.toml"), "/etc/appearance-profiles");
    assert_eq!(base_directory("default.toml"), "");
    assert_eq!(base_directory("/"), ".");
    assert_eq!(base_directory(""), ".");
}

#[test]
fn user_profile_prefers_xdg_config_home_over_home() {
    assert_eq!(
        user_profile_path(Some("/home/mason/.cfg"), Some("/home/mason")),
        Some("/home/mason/.cfg/appearance-profiles/default.toml".to_string())
    );
    assert_eq!(
        user_profile_path(None, Some("/home/mason")),
        Some("/home/mason/.config/appearance-profiles/default.toml".to_string())
    );
    assert_eq!(
        user_profile_path(Some(""), None),
        Some("appearance-profiles/default.toml".to_string())
    );
    assert_eq!(user_profile_path(None, None), None);
}
