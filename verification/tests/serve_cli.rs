use vtree::serve::{pick_package, CrateConfig, PickError, Platform, Serve};

fn options() -> Serve {
    Serve {
        port: 8080,
        open: false,
        skip_assets: false,
        hot_reload: true,
        cross_origin_policy: false,
        release: true,
        verbose: false,
        example: None,
        profile: Some(String::from("dev-fast")),
        features: None,
        target: None,
        cargo_args: vec![String::from("--offline")],
        platform: None,
    }
}

fn config() -> CrateConfig {
    CrateConfig {
        hot_reload: false,
        cross_origin_policy: true,
        release: false,
        verbose: true,
        example: Some(String::from("gallery")),
        profile: None,
        features: Some(vec![String::from("ssr")]),
        target: None,
        cargo_args: vec![],
    }
}

#[test]
fn platform_defaults_when_not_named() {
    let mut s = options();
    assert_eq!(s.resolve_platform(Platform::Web), Platform::Web);
    s.platform = Some(Platform::Desktop);
    assert_eq!(s.resolve_platform(Platform::Web), Platform::Desktop);
}

#[test]
fn apply_amends_only_what_the_command_line_names() {
    let cfg = options().apply(config());
    assert!(cfg.hot_reload);
    assert!(!cfg.cross_origin_policy);
    assert!(cfg.release);
    assert!(!cfg.verbose);
    // Not named on the command line: the config's value survives.
    assert_eq!(cfg.example.as_deref(), Some("gallery"));
    assert_eq!(cfg.features, Some(vec![String::from("ssr")]));
    // Named on the command line: replaced.
    assert_eq!(cfg.profile.as_deref(), Some("dev-fast"));
    assert_eq!(cfg.cargo_args, vec![String::from("--offline")]);
}

#[test]
fn pick_package_by_name_then_root() {
    let names = vec![
        String::from("app"),
        String::from("server"),
        String::from("shared"),
    ];
    assert_eq!(pick_package(&names, &Some(String::from("server")), Some(0)), Ok(1));
    assert_eq!(pick_package(&names, &None, Some(2)), Ok(2));
    assert_eq!(
        pick_package(&names, &Some(String::from("missing")), Some(0)),
        Err(PickError::NoSuchPackage)
    );
    assert_eq!(pick_package(&names, &None, None), Err(PickError::NoRootPackage));
}
