use meta_rust_cli::plan::{join_command_line, supports, NO_PROJECTS_MESSAGE};
use meta_rust_cli::{
    build_plan, execute_command, filter_projects, resolve_directories, CommandResult,
    ConfigEntry, ResolveError, TreeConfig,
};

fn strings(v: &[&str]) -> Vec<String> {
    v.iter().map(|s| s.to_string()).collect()
}

fn plan_of(r: CommandResult) -> (Vec<(String, String)>, bool) {
    match r {
        CommandResult::Plan(cmds, parallel) => {
            (cmds.into_iter().map(|c| (c.dir, c.cmd)).collect(), parallel)
        }
        _ => panic!("expected a plan"),
    }
}

fn message_of(r: CommandResult) -> String {
    match r {
        CommandResult::Message(m) => m,
        _ => panic!("expected a message"),
    }
}

fn help_of(r: CommandResult) -> Option<String> {
    match r {
        CommandResult::ShowHelp(m) => m,
        _ => panic!("expected a help request"),
    }
}

#[test]
fn root_manifest_build_release_gives_one_step() {
    let resolved = resolve_directories(&[], &TreeConfig::Absent);
    let r = execute_command("cargo build", &strings(&["--release"]), true, &resolved, &[true]);
    let (cmds, parallel) = plan_of(r);
    assert_eq!(cmds, vec![(".".to_string(), "cargo build --release".to_string())]);
    assert!(parallel);
}

#[test]
fn no_manifest_anywhere_gives_message() {
    let resolved = resolve_directories(&[], &TreeConfig::Absent);
    let r = execute_command("cargo build", &[], false, &resolved, &[false]);
    assert_eq!(message_of(r), "No Rust projects found (no Cargo.toml files)");
}

#[test]
fn unknown_command_asks_for_help() {
    let resolved = resolve_directories(&[], &TreeConfig::Absent);
    let r = execute_command("cargo unknown", &[], false, &resolved, &[true]);
    let m = help_of(r).unwrap();
    assert!(m.contains("unrecognized command 'cargo unknown'"));
    assert_eq!(m, "unrecognized command 'cargo unknown'");
}

#[test]
fn unknown_command_wins_over_config_error() {
    let resolved: Result<Vec<String>, ResolveError> =
        Err(ResolveError::MalformedConfig("bad".to_string()));
    let r = execute_command("cargo fmt", &[], false, &resolved, &[]);
    assert_eq!(help_of(r).unwrap(), "unrecognized command 'cargo fmt'");
}

#[test]
fn malformed_config_is_an_error() {
    let resolved = resolve_directories(&[], &TreeConfig::Malformed("line 1".to_string()));
    match &resolved {
        Err(ResolveError::MalformedConfig(m)) => assert_eq!(m, "line 1"),
        Ok(_) => panic!("expected an error"),
    }
    match execute_command("cargo test", &[], false, &resolved, &[]) {
        CommandResult::Error(e) => assert_eq!(e, "invalid tree configuration: line 1"),
        _ => panic!("expected an error outcome"),
    }
}

#[test]
fn provided_projects_are_taken_verbatim() {
    let provided = strings(&["zeta", "alpha", "nested/beta"]);
    let r = resolve_directories(&provided, &TreeConfig::Malformed("ignored".to_string()));
    match r {
        Ok(d) => assert_eq!(d, strings(&[".", "zeta", "alpha", "nested/beta"])),
        Err(_) => panic!("expected directories"),
    }
}

#[test]
fn absent_config_gives_root_only() {
    match resolve_directories(&[], &TreeConfig::Absent) {
        Ok(d) => assert_eq!(d, strings(&["."])),
        Err(_) => panic!("expected directories"),
    }
}

#[test]
fn configured_projects_are_sorted() {
    let entries = vec![
        ConfigEntry { name: "web".to_string(), path: None },
        ConfigEntry { name: "core".to_string(), path: Some("libs/core".to_string()) },
        ConfigEntry { name: "api".to_string(), path: None },
        ConfigEntry { name: "Zed".to_string(), path: None },
    ];
    match resolve_directories(&[], &TreeConfig::Projects(entries)) {
        Ok(d) => assert_eq!(d, strings(&[".", "Zed", "api", "libs/core", "web"])),
        Err(_) => panic!("expected directories"),
    }
}

#[test]
fn configured_projects_with_shared_prefix_sort_shorter_first() {
    let entries = vec![
        ConfigEntry { name: "ab".to_string(), path: None },
        ConfigEntry { name: "a".to_string(), path: None },
        ConfigEntry { name: "a".to_string(), path: None },
    ];
    match resolve_directories(&[], &TreeConfig::Projects(entries)) {
        Ok(d) => assert_eq!(d, strings(&[".", "a", "a", "ab"])),
        Err(_) => panic!("expected directories"),
    }
}

#[test]
fn empty_config_gives_root_only() {
    match resolve_directories(&[], &TreeConfig::Projects(Vec::new())) {
        Ok(d) => assert_eq!(d, strings(&["."])),
        Err(_) => panic!("expected directories"),
    }
}

#[test]
fn filter_keeps_order_and_present_only() {
    let dirs = strings(&[".", "b", "a", "c"]);
    let r = filter_projects(&dirs, &[false, true, true, false]);
    assert_eq!(r, strings(&["b", "a"]));
    let again = filter_projects(&dirs, &[false, true, true, false]);
    assert_eq!(r, again);
}

#[test]
fn filter_of_nothing_is_nothing() {
    assert!(filter_projects(&[], &[]).is_empty());
}

#[test]
fn plan_covers_each_project_in_order() {
    let dirs = strings(&[".", "api", "web"]);
    let r = execute_command(
        "cargo test",
        &strings(&["--", "--nocapture"]),
        false,
        &Ok(dirs),
        &[true, false, true],
    );
    let (cmds, parallel) = plan_of(r);
    assert_eq!(
        cmds,
        vec![
            (".".to_string(), "cargo test -- --nocapture".to_string()),
            ("web".to_string(), "cargo test -- --nocapture".to_string()),
        ]
    );
    assert!(!parallel);
}

#[test]
fn arguments_pass_through_unquoted() {
    let r = build_plan("cargo build", &strings(&["--features", "a b", "$X"]), true, &strings(&["x"]));
    let (cmds, _) = plan_of(r);
    assert_eq!(cmds[0].1, "cargo build --features a b $X");
}

#[test]
fn empty_project_set_message_ignores_arguments() {
    let r = build_plan("cargo test", &strings(&["--release", "-q"]), true, &[]);
    assert_eq!(message_of(r), NO_PROJECTS_MESSAGE);
    let r = build_plan("cargo build", &[], false, &[]);
    assert_eq!(message_of(r), "No Rust projects found (no Cargo.toml files)");
}

#[test]
fn join_without_arguments_is_the_command() {
    assert_eq!(join_command_line("cargo build", &[]), "cargo build");
    assert_eq!(join_command_line("cargo build", &strings(&["-p", "x"])), "cargo build -p x");
}

#[test]
fn only_the_two_cargo_commands_are_supported() {
    assert!(supports("cargo build"));
    assert!(supports("cargo test"));
    assert!(!supports("cargo"));
    assert!(!supports("cargo build "));
    assert!(!supports("cargo check"));
    assert!(!supports(""));
}
