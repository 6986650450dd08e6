use appearance_profiles::{
    key_precedes, Background, Fit, LayerError, LayerFile, OutputIdentity, OutputMap, Profile,
    Registry, Source, SCHEMA_VERSION,
};

fn bg(path: &str, fit: Option<Fit>) -> Background {
    Background {
        path: Some(path.into()),
        fit,
    }
}

#[test]
fn resolution_is_fieldwise_and_layered() {
    let packaged = Profile {
        background: bg("/packaged", Some(Fit::Fit)),
        ..Profile::default()
    };
    let mut system = Profile::default();
    system.background.path = Some("/system".into());
    let mut user = Profile::default();
    user.output.insert(
        "DP-1".into(),
        Background {
            path: None,
            fit: Some(Fit::Tile),
        },
    );
    let result = Registry {
        packaged: Some(packaged),
        system: Some(system),
        user: Some(user),
    }
    .resolve(&OutputIdentity::new("DP-1", None), None);
    assert_eq!(result.path, Some("/system".into()));
    assert_eq!(result.fit, Fit::Tile);
    assert_eq!(result.path_source, Source::System);
    assert_eq!(result.fit_source, Source::UserOutput);
}

#[test]
fn description_and_runtime_precedence() {
    let mut user = Profile::default();
    user.background.path = Some("/global".into());
    user.output.insert("desc:Dell Panel".into(), bg("/dell", None));
    let registry = Registry {
        user: Some(user),
        ..Registry::default()
    };
    let identity = OutputIdentity::new("DP-2", Some("Dell Panel".into()));
    assert_eq!(registry.resolve(&identity, None).path, Some("/dell".into()));
    let runtime = bg("/cli", Some(Fit::Stretch));
    let result = registry.resolve(&identity, Some(&runtime));
    assert_eq!(result.path, Some("/cli".into()));
    assert_eq!(result.fit, Fit::Stretch);
}

#[test]
fn empty_registry_resolves_to_defaults() {
    let result = Registry::default().resolve(&OutputIdentity::new("HDMI-A-1", None), None);
    assert_eq!(result.path, None);
    assert_eq!(result.fit, Fit::Fill);
    assert_eq!(result.path_source, Source::Default);
    assert_eq!(result.fit_source, Source::Default);
}

#[test]
fn each_field_comes_from_its_highest_layer() {
    let mut packaged = Profile::default();
    packaged.output.insert("DP-1".into(), bg("/packaged-dp1", Some(Fit::Center)));
    let mut system = Profile::default();
    system.background.fit = Some(Fit::Stretch);
    let mut user = Profile::default();
    user.background.path = Some("/user".into());
    let registry = Registry {
        packaged: Some(packaged),
        system: Some(system),
        user: Some(user),
    };
    let result = registry.resolve(&OutputIdentity::new("DP-1", None), None);
    assert_eq!(result.path, Some("/user".into()));
    assert_eq!(result.path_source, Source::User);
    assert_eq!(result.fit, Fit::Stretch);
    assert_eq!(result.fit_source, Source::System);
    let other = registry.resolve(&OutputIdentity::new("DP-2", None), None);
    assert_eq!(other.path_source, Source::User);
    assert_eq!(other.fit_source, Source::System);
}

#[test]
fn fit_does_not_disturb_path_resolution() {
    let mut user = Profile::default();
    user.background.path = Some("/user".into());
    let mut system = Profile::default();
    system.background = bg("/system", Some(Fit::Tile));
    let with_fits = Registry {
        system: Some(system),
        user: Some(user),
        ..Registry::default()
    };
    let mut user2 = Profile::default();
    user2.background = bg("/user", Some(Fit::Center));
    let mut system2 = Profile::default();
    system2.background.path = Some("/system".into());
    let other_fits = Registry {
        system: Some(system2),
        user: Some(user2),
        ..Registry::default()
    };
    let output = OutputIdentity::new("eDP-1", None);
    let a = with_fits.resolve(&output, None);
    let b = other_fits.resolve(&output, None);
    assert_eq!(a.path, b.path);
    assert_eq!(a.path_source, b.path_source);
    assert_eq!(a.fit_source, Source::System);
    assert_eq!(b.fit_source, Source::User);
}

#[test]
fn runtime_override_beats_every_layer() {
    let mut user = Profile::default();
    user.output.insert("DP-3".into(), bg("/user-dp3", Some(Fit::Tile)));
    let registry = Registry {
        user: Some(user),
        ..Registry::default()
    };
    let runtime = Background {
        path: None,
        fit: Some(Fit::Center),
    };
    let result = registry.resolve(&OutputIdentity::new("DP-3", None), Some(&runtime));
    assert_eq!(result.path, Some("/user-dp3".into()));
    assert_eq!(result.path_source, Source::UserOutput);
    assert_eq!(result.fit, Fit::Center);
    assert_eq!(result.fit_source, Source::Runtime);
}

#[test]
fn connector_rule_precedes_description_rule_in_a_layer() {
    let mut system = Profile::default();
    system.output.insert("desc:Dell Panel".into(), bg("/by-desc", None));
    system.output.insert("DP-2".into(), bg("/by-connector", None));
    let registry = Registry {
        system: Some(system),
        ..Registry::default()
    };
    let identity = OutputIdentity::new("DP-2", Some("Dell Panel".into()));
    let result = registry.resolve(&identity, None);
    assert_eq!(result.path, Some("/by-connector".into()));
    assert_eq!(result.path_source, Source::SystemOutput);
}

#[test]
fn selectors_are_connector_then_description() {
    let identity = OutputIdentity::new("DP-2", Some("Dell Panel".into()));
    assert_eq!(
        identity.selectors(),
        vec!["DP-2".to_string(), "desc:Dell Panel".to_string()]
    );
    assert_eq!(
        OutputIdentity::new("HDMI-A-1", None).selectors(),
        vec!["HDMI-A-1".to_string()]
    );
}

#[test]
fn output_map_insert_replaces_and_returns_previous_rule() {
    let mut map = OutputMap::new();
    assert!(map.insert("DP-1".into(), bg("/a", None)).is_none());
    let previous = map.insert("DP-1".into(), bg("/b", Some(Fit::Fit))).unwrap();
    assert_eq!(previous.path, Some("/a".into()));
    let current = map.get(&"DP-1".to_string()).unwrap();
    assert_eq!(current.path, Some("/b".into()));
    assert_eq!(current.fit, Some(Fit::Fit));
    assert!(map.get(&"DP-2".to_string()).is_none());
}

#[test]
fn profile_load_refuses_other_versions() {
    let parsed = Profile {
        version: 2,
        ..Profile::default()
    };
    match Profile::load("/etc/appearance-profiles/default.toml", parsed) {
        Err(appearance_profiles::Error::Version(v)) => assert_eq!(v, 2),
        other => panic!("unexpected {:?}", other),
    }
}

#[test]
fn profile_load_resolves_relative_paths_against_the_file() {
    let mut parsed = Profile::default();
    parsed.background.path = Some("wallpaper.png".into());
    parsed.output.insert("DP-1".into(), bg("portrait.png", Some(Fit::Fill)));
    parsed.output.insert("DP-2".into(), bg("/abs/landscape.png", None));
    let loaded = Profile::load("/etc/appearance-profiles/default.toml", parsed).unwrap();
    assert_eq!(loaded.version, SCHEMA_VERSION);
    assert_eq!(
        loaded.background.path,
        Some("/etc/appearance-profiles/wallpaper.png".into())
    );
    assert_eq!(
        loaded.output.get(&"DP-1".to_string()).unwrap().path,
        Some("/etc/appearance-profiles/portrait.png".into())
    );
    assert_eq!(
        loaded.output.get(&"DP-1".to_string()).unwrap().fit,
        Some(Fit::Fill)
    );
    assert_eq!(
        loaded.output.get(&"DP-2".to_string()).unwrap().path,
        Some("/abs/landscape.png".into())
    );
}

#[test]
fn profile_load_of_a_bare_file_name_resolves_in_the_working_directory() {
    let mut parsed = Profile::default();
    parsed.background.path = Some("wall.png".into());
    let loaded = Profile::load("default.toml", parsed).unwrap();
    assert_eq!(loaded.background.path, Some("wall.png".into()));
    let mut parsed = Profile::default();
    parsed.background.path = Some("wall.png".into());
    let loaded = Profile::load("/", parsed).unwrap();
    assert_eq!(loaded.background.path, Some("./wall.png".into()));
}

#[test]
fn profiles_compare_by_content_not_insertion_order() {
    let mut a = Profile::default();
    a.output.insert("DP-1".into(), bg("/a", None));
    a.output.insert("DP-2".into(), bg("/b", Some(Fit::Tile)));
    let mut b = Profile::default();
    b.output.insert("DP-2".into(), bg("/b", Some(Fit::Tile)));
    b.output.insert("DP-1".into(), bg("/a", None));
    assert_eq!(a, b);
    b.output.insert("DP-1".into(), bg("/c", None));
    assert_ne!(a, b);
    let mut c = a.clone();
    assert_eq!(a, c);
    c.background.fit = Some(Fit::Center);
    assert_ne!(a, c);
    assert_eq!(
        OutputIdentity::new("DP-1", Some("Dell".into())),
        OutputIdentity::new("DP-1", Some("Dell".into()))
    );
    assert_ne!(
        OutputIdentity::new("DP-1", None),
        OutputIdentity::new("DP-1", Some("Dell".into()))
    );
}

#[test]
fn loading_twice_against_an_absolute_directory_changes_nothing() {
    let mut parsed = Profile::default();
    parsed.background.path = Some("wallpaper.png".into());
    let once = Profile::load("/etc/appearance-profiles/default.toml", parsed).unwrap();
    let twice = Profile::load("/etc/appearance-profiles/default.toml", once.clone()).unwrap();
    assert_eq!(once, twice);
}

#[test]
fn output_rules_are_kept_in_selector_order() {
    let mut map = OutputMap::new();
    map.insert("desc:Dell".into(), bg("/d", None));
    map.insert("DP-2".into(), bg("/b", None));
    map.insert("HDMI-A-1".into(), bg("/h", None));
    map.insert("DP-10".into(), bg("/c", None));
    map.insert("DP-2".into(), bg("/b2", None));
    let keys: Vec<&str> = map.entries().iter().map(|(k, _)| k.as_str()).collect();
    let mut sorted = keys.clone();
    sorted.sort();
    assert_eq!(keys, sorted);
    assert_eq!(keys, ["DP-10", "DP-2", "HDMI-A-1", "desc:Dell"]);
    assert_eq!(map.get(&"DP-2".to_string()).unwrap().path, Some("/b2".into()));
}

#[test]
fn selector_order_is_the_order_of_strings() {
    for (a, b) in [("a", "b"), ("ab", "a"), ("", "x"), ("DP-1", "DP-1"), ("é", "z"), ("Z", "a")] {
        assert_eq!(key_precedes(&a.to_string(), &b.to_string()), a < b, "{a} {b}");
    }
}

#[test]
fn layer_policy_skips_missing_and_unreadable_files() {
    assert!(matches!(
        Profile::load_layer::<&str>("/etc/appearance-profiles/default.toml", LayerFile::Missing),
        Ok(None)
    ));
    assert!(matches!(
        Profile::load_layer::<&str>("/etc/appearance-profiles/default.toml", LayerFile::Unreadable),
        Ok(None)
    ));
    match Profile::load_layer("/x/default.toml", LayerFile::Malformed("bad toml")) {
        Err(LayerError::Malformed(report)) => assert_eq!(report, "bad toml"),
        other => panic!("unexpected {:?}", other),
    }
    let wrong = Profile {
        version: 3,
        ..Profile::default()
    };
    match Profile::load_layer::<&str>("/x/default.toml", LayerFile::Parsed(wrong)) {
        Err(LayerError::Refused(appearance_profiles::Error::Version(3))) => {}
        other => panic!("unexpected {:?}", other),
    }
    let mut parsed = Profile::default();
    parsed.background.path = Some("wall.png".into());
    let layer = Profile::load_layer::<&str>("/x/default.toml", LayerFile::Parsed(parsed))
        .unwrap()
        .unwrap();
    assert_eq!(layer.background.path, Some("/x/wall.png".into()));
}
