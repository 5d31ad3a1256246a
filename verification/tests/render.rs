use emplace::Cargo;
use emplace::CaptureFlag;
use emplace::InstalledCheckTemplate;
use emplace::ManagerDescriptor;
use emplace::PackageInstalledMethod;
use emplace::classify;
use emplace::default_registry;
use emplace::render_install;
use emplace::render_is_installed;
use emplace::requires_root;

#[test]
fn test_render_install_round_trip() {
    let registry = default_registry();
    let result = classify("cargo install foo", &registry).unwrap();
    let rendered = render_install(&result, "foo");
    assert_eq!(rendered, format!("{} {}", Cargo.install_command(), "foo"));
    assert_eq!(rendered, "cargo install --quiet foo");
}

#[test]
fn test_render_is_installed_substitutes_package() {
    let registry = default_registry();
    let result = classify("cargo install foo", &registry).unwrap();
    let check = render_is_installed(&result, "foo");
    assert_eq!(
        check,
        PackageInstalledMethod::Script(
            "cargo install --list | grep 'v[0-9]' | grep -q foo".to_string()
        )
    );
    assert_eq!(check, Cargo.is_installed("foo"));
}

#[test]
fn test_render_literal_check_keeps_answer() {
    let manager = ManagerDescriptor {
        full_name: "Test Manager".to_string(),
        commands: vec!["pm".to_string()],
        sub_commands: vec!["add".to_string()],
        install_template: "pm add".to_string(),
        needs_root: true,
        installed_check: InstalledCheckTemplate::Literal(true),
        value_flags: Vec::new(),
        capture_flags: vec![CaptureFlag::Single("--from".to_string())],
    };
    let registry = vec![manager];
    let result = classify("pm add thing", &registry).unwrap();
    assert_eq!(
        render_is_installed(&result, "thing"),
        PackageInstalledMethod::Literal(true)
    );
    assert!(requires_root(&result));
}

#[test]
fn test_cargo_capabilities() {
    assert_eq!(Cargo.full_name(), "Cargo Rust");
    assert_eq!(Cargo.commands(), vec!["cargo"]);
    assert_eq!(Cargo.sub_commands(), vec!["install"]);
    assert_eq!(Cargo.install_command(), "cargo install --quiet");
    assert!(!Cargo.needs_root());
    assert_eq!(
        Cargo.known_flags_with_values(),
        vec!["-Z", "--version", "-j", "--jobs"]
    );
    assert_eq!(
        Cargo.capture_flags(),
        vec![CaptureFlag::Single("--git".to_string())]
    );
    let registry = default_registry();
    let result = classify("cargo install foo", &registry).unwrap();
    assert!(!requires_root(&result));
}
