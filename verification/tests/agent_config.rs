use spacegraph::config::{
    default_excludes, default_includes, default_watch_roots, effective_paths, parse_args_from,
    should_warn_privileged_without_root, AgentConfig, AgentMode, ConfigError,
};

fn args(words: &[&str]) -> Vec<String> {
    words.iter().map(|w| w.to_string()).collect()
}

#[test]
fn parses_mode_flag() {
    let config = parse_args_from(&args(&["--mode", "privileged"])).expect("config parsed");
    assert_eq!(config.mode, AgentMode::Privileged);
}

#[test]
fn default_excludes_include_cni_only_in_user_mode() {
    let user = default_excludes(AgentMode::User);
    let privileged = default_excludes(AgentMode::Privileged);
    assert!(user.contains(&"/etc/cni/net.d".to_string()));
    assert!(!privileged.contains(&"/etc/cni/net.d".to_string()));
}

#[test]
fn warns_when_privileged_without_root() {
    assert!(should_warn_privileged_without_root(AgentMode::Privileged, 1000));
    assert!(!should_warn_privileged_without_root(AgentMode::User, 0));
}

#[test]
fn no_warning_for_root_or_user_mode() {
    assert!(!should_warn_privileged_without_root(AgentMode::Privileged, 0));
    assert!(!should_warn_privileged_without_root(AgentMode::User, 1000));
}

#[test]
fn mode_parses_both_names_and_rejects_others() {
    assert_eq!(AgentMode::parse("user"), Ok(AgentMode::User));
    assert_eq!(AgentMode::parse("privileged"), Ok(AgentMode::Privileged));
    assert_eq!(AgentMode::parse("root"), Err(ConfigError::InvalidMode("root".to_string())));
    assert_eq!(AgentMode::parse(""), Err(ConfigError::InvalidMode(String::new())));
}

#[test]
fn arguments_collect_paths_in_order() {
    let config = parse_args_from(&args(&[
        "--include", "/etc", "--exclude", "/proc", "--include", "/var", "--mode", "user",
    ]))
    .unwrap();
    assert_eq!(
        config,
        AgentConfig {
            mode: AgentMode::User,
            includes: args(&["/etc", "/var"]),
            excludes: args(&["/proc"]),
        }
    );
}

#[test]
fn no_arguments_mean_user_mode_without_paths() {
    let config = parse_args_from(&Vec::new()).unwrap();
    assert_eq!(config, AgentConfig { mode: AgentMode::User, includes: vec![], excludes: vec![] });
}

#[test]
fn each_argument_error_has_its_input() {
    assert_eq!(parse_args_from(&args(&["--include"])), Err(ConfigError::IncludeExpectsPath));
    assert_eq!(parse_args_from(&args(&["--exclude"])), Err(ConfigError::ExcludeExpectsPath));
    assert_eq!(parse_args_from(&args(&["--mode"])), Err(ConfigError::ModeExpectsValue));
    assert_eq!(
        parse_args_from(&args(&["--mode", "admin"])),
        Err(ConfigError::InvalidMode("admin".to_string()))
    );
    assert_eq!(
        parse_args_from(&args(&["--verbose"])),
        Err(ConfigError::UnknownArgument("--verbose".to_string()))
    );
}

#[test]
fn error_messages_name_the_fault() {
    assert_eq!(
        ConfigError::InvalidMode("x".to_string()).message(),
        "invalid mode: x (expected user|privileged)"
    );
    assert_eq!(ConfigError::IncludeExpectsPath.message(), "--include expects a path");
    assert_eq!(ConfigError::ExcludeExpectsPath.message(), "--exclude expects a path");
    assert_eq!(ConfigError::ModeExpectsValue.message(), "--mode expects user|privileged");
    assert_eq!(
        ConfigError::UnknownArgument("--x".to_string()).message(),
        "unknown argument: \"--x\""
    );
}

#[test]
fn default_paths_by_mode() {
    assert_eq!(default_includes(AgentMode::User), args(&["/etc", "/home", "/var"]));
    assert_eq!(default_includes(AgentMode::Privileged), args(&["/etc", "/home", "/var"]));
    assert_eq!(
        default_excludes(AgentMode::User),
        args(&["/proc", "/sys", "/dev", "/run", "/etc/cni/net.d"])
    );
    assert_eq!(default_excludes(AgentMode::Privileged), args(&["/proc", "/sys", "/dev"]));
    assert_eq!(default_watch_roots(), args(&["/etc"]));
}

#[test]
fn given_paths_replace_the_defaults_of_their_list() {
    let (inc, exc) = effective_paths(AgentConfig {
        mode: AgentMode::Privileged,
        includes: args(&["/srv"]),
        excludes: vec![],
    });
    assert_eq!(inc, args(&["/srv"]));
    assert_eq!(exc, args(&["/proc", "/sys", "/dev"]));
    let (inc, exc) = effective_paths(AgentConfig {
        mode: AgentMode::User,
        includes: vec![],
        excludes: args(&["/tmp"]),
    });
    assert_eq!(inc, args(&["/etc", "/home", "/var"]));
    assert_eq!(exc, args(&["/tmp"]));
}
