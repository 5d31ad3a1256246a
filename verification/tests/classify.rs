use emplace::Cargo;
use emplace::CaptureFlag;
use emplace::ClassifyError;
use emplace::InstalledCheckTemplate;
use emplace::ManagerDescriptor;
use emplace::classify;
use emplace::default_registry;
use emplace::tokenize;

#[test]
fn test_package_manager() {
    let manager = classify("cargo install test", &default_registry())
        .unwrap()
        .manager;
    assert_eq!(manager, Cargo.descriptor());
}

#[test]
fn test_catch() {
    let registry = default_registry();

    // Regular invocation
    let result = classify("cargo install test", &registry).unwrap();
    assert_eq!(result.plain_args, vec!["test".to_string()]);

    // Multiple
    let result = classify("cargo install test test2", &registry).unwrap();
    assert_eq!(
        result.plain_args,
        vec!["test".to_string(), "test2".to_string()]
    );

    // Flags that should be captured
    let result = classify("cargo install --git https://test.com/test.git", &registry).unwrap();
    assert_eq!(result.plain_args, Vec::<String>::new());
    assert_eq!(result.captures.len(), 1);
    assert_eq!(result.captures[0].flag, "--git");
    assert_eq!(
        result.captures[0].values,
        vec!["https://test.com/test.git".to_string()]
    );
}

#[test]
fn test_tokenize_splits_on_whitespace_runs() {
    let tokens = tokenize("  cargo \t install\n foo ");
    assert_eq!(
        tokens,
        vec!["cargo".to_string(), "install".to_string(), "foo".to_string()]
    );
}

#[test]
fn test_value_flag_skips_its_value() {
    let registry = default_registry();
    let result = classify("cargo install -Z unstable-options foo", &registry).unwrap();
    assert_eq!(result.plain_args, vec!["foo".to_string()]);
    assert_eq!(result.captures[0].flag, "--git");
    assert_eq!(result.captures[0].values, Vec::<String>::new());
}

#[test]
fn test_single_capture_flag_takes_one_value() {
    let registry = default_registry();
    let result = classify("cargo install --git https://x/y.git foo", &registry).unwrap();
    assert_eq!(result.plain_args, vec!["foo".to_string()]);
    assert_eq!(result.captures[0].flag, "--git");
    assert_eq!(result.captures[0].values, vec!["https://x/y.git".to_string()]);
}

#[test]
fn test_capture_flag_repeats_accumulate_in_order() {
    let registry = default_registry();
    let result = classify("cargo install --git first --git second foo", &registry).unwrap();
    assert_eq!(result.plain_args, vec!["foo".to_string()]);
    assert_eq!(
        result.captures[0].values,
        vec!["first".to_string(), "second".to_string()]
    );
}

#[test]
fn test_classification_is_idempotent() {
    let registry = default_registry();
    let line = "cargo install --git https://x/y.git foo bar";
    let first = classify(line, &registry);
    let second = classify(line, &registry);
    assert_eq!(first, second);
}

#[test]
fn test_unknown_manager_fails() {
    let registry = default_registry();
    let result = classify("notapackagemanager install foo", &registry);
    assert_eq!(result, Err(ClassifyError::UnknownManager));
}

#[test]
fn test_empty_input_fails() {
    let registry = default_registry();
    assert_eq!(classify("", &registry), Err(ClassifyError::EmptyInput));
    assert_eq!(
        classify("  \t  \n ", &registry),
        Err(ClassifyError::EmptyInput)
    );
}

#[test]
fn test_unrecognized_subcommand_fails() {
    let registry = default_registry();
    assert_eq!(
        classify("cargo build foo", &registry),
        Err(ClassifyError::UnrecognizedSubcommand)
    );
    assert_eq!(
        classify("cargo", &registry),
        Err(ClassifyError::UnrecognizedSubcommand)
    );
}

#[test]
fn test_unknown_flag_shaped_token_is_dropped() {
    let registry = default_registry();
    let result = classify("cargo install --frozen foo", &registry).unwrap();
    assert_eq!(result.plain_args, vec!["foo".to_string()]);
    assert_eq!(result.captures[0].values, Vec::<String>::new());
}

#[test]
fn test_value_flag_at_end_of_line_is_tolerated() {
    let registry = default_registry();
    let result = classify("cargo install foo -j", &registry).unwrap();
    assert_eq!(result.plain_args, vec!["foo".to_string()]);
    assert_eq!(result.captures[0].values, Vec::<String>::new());
}

#[test]
fn test_capture_flag_at_end_of_line_records_no_value() {
    let registry = default_registry();
    let result = classify("cargo install --git", &registry).unwrap();
    assert_eq!(result.plain_args, Vec::<String>::new());
    assert_eq!(result.captures[0].values, Vec::<String>::new());
}

#[test]
fn test_several_value_flags_all_skipped() {
    let registry = default_registry();
    let result = classify("cargo install -j 4 --version 1.0 foo", &registry).unwrap();
    assert_eq!(result.plain_args, vec!["foo".to_string()]);
}

fn list_flag_manager() -> ManagerDescriptor {
    ManagerDescriptor {
        full_name: "Test Manager".to_string(),
        commands: vec!["pm".to_string()],
        sub_commands: vec!["add".to_string()],
        install_template: "pm add".to_string(),
        needs_root: true,
        installed_check: InstalledCheckTemplate::Literal(false),
        value_flags: Vec::new(),
        capture_flags: vec![CaptureFlag::List("--pkgs".to_string())],
    }
}

#[test]
fn test_list_capture_flag_takes_values_until_next_flag() {
    let registry = vec![list_flag_manager()];
    let result = classify("pm add --pkgs a b c -x tail", &registry).unwrap();
    assert_eq!(result.plain_args, vec!["tail".to_string()]);
    assert_eq!(result.captures[0].flag, "--pkgs");
    assert_eq!(
        result.captures[0].values,
        vec!["a".to_string(), "b".to_string(), "c".to_string()]
    );
}

#[test]
fn test_manager_without_subcommands_treats_second_token_as_argument() {
    let mut manager = list_flag_manager();
    manager.sub_commands = Vec::new();
    let registry = vec![manager];
    let result = classify("pm foo bar", &registry).unwrap();
    assert_eq!(result.plain_args, vec!["foo".to_string(), "bar".to_string()]);
}

#[test]
fn test_first_registered_manager_wins_ties() {
    let mut first = list_flag_manager();
    first.full_name = "First".to_string();
    let mut second = list_flag_manager();
    second.full_name = "Second".to_string();
    let registry = vec![first, second];
    let result = classify("pm add x", &registry).unwrap();
    assert_eq!(result.manager.full_name, "First");
}
