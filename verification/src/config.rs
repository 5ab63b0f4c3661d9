//! The configuration of the agent: its mode, the paths to include and to
//! exclude, the defaults of both, and the reading of its arguments.

use vstd::prelude::*;
use crate::text::{push_str, same_text, string_of, texts_of};

verus! {

/// With what rights the agent runs.
#[derive(Debug, Clone, Copy, PartialEq, Eq, Structural)]
pub enum AgentMode {
    User,
    Privileged,
}

/// Why arguments could not be read.
#[derive(Debug, PartialEq, Eq)]
pub enum ConfigError {
    /// The mode is neither `user` nor `privileged`.
    InvalidMode(String),
    /// `--include` is the last argument.
    IncludeExpectsPath,
    /// `--exclude` is the last argument.
    ExcludeExpectsPath,
    /// `--mode` is the last argument.
    ModeExpectsValue,
    /// The argument is none of `--include`, `--exclude` and `--mode`.
    UnknownArgument(String),
}

/// An error of the configuration by value.
pub enum ConfigErrorView {
    InvalidMode(Seq<char>),
    IncludeExpectsPath,
    ExcludeExpectsPath,
    ModeExpectsValue,
    UnknownArgument(Seq<char>),
}

impl View for ConfigError {
    type V = ConfigErrorView;

    open spec fn view(&self) -> ConfigErrorView {
        match self {
            ConfigError::InvalidMode(s) => ConfigErrorView::InvalidMode(s@),
            ConfigError::IncludeExpectsPath => ConfigErrorView::IncludeExpectsPath,
            ConfigError::ExcludeExpectsPath => ConfigErrorView::ExcludeExpectsPath,
            ConfigError::ModeExpectsValue => ConfigErrorView::ModeExpectsValue,
            ConfigError::UnknownArgument(s) => ConfigErrorView::UnknownArgument(s@),
        }
    }
}

/// What an error says.
pub open spec fn error_text(e: ConfigErrorView) -> Seq<char> {
    match e {
        ConfigErrorView::InvalidMode(s) => "invalid mode: "@ + s + " (expected user|privileged)"@,
        ConfigErrorView::IncludeExpectsPath => "--include expects a path"@,
        ConfigErrorView::ExcludeExpectsPath => "--exclude expects a path"@,
        ConfigErrorView::ModeExpectsValue => "--mode expects user|privileged"@,
        ConfigErrorView::UnknownArgument(s) => "unknown argument: \""@ + s + "\""@,
    }
}

impl ConfigError {
    /// What the error says.
    pub fn message(&self) -> (text: String)
        ensures
            text@ == error_text(self@),
    {
        let mut out: Vec<char> = Vec::new();
        match self {
            ConfigError::InvalidMode(s) => {
                push_str(&mut out, "invalid mode: ");
                push_str(&mut out, s.as_str());
                push_str(&mut out, " (expected user|privileged)");
            },
            ConfigError::IncludeExpectsPath => {
                push_str(&mut out, "--include expects a path");
            },
            ConfigError::ExcludeExpectsPath => {
                push_str(&mut out, "--exclude expects a path");
            },
            ConfigError::ModeExpectsValue => {
                push_str(&mut out, "--mode expects user|privileged");
            },
            ConfigError::UnknownArgument(s) => {
                push_str(&mut out, "unknown argument: \"");
                push_str(&mut out, s.as_str());
                push_str(&mut out, "\"");
            },
        }
        string_of(&out)
    }
}

/// The mode that a text names.
pub open spec fn mode_of(input: Seq<char>) -> Result<AgentMode, ConfigErrorView> {
    if input == "user"@ {
        Ok(AgentMode::User)
    } else if input == "privileged"@ {
        Ok(AgentMode::Privileged)
    } else {
        Err(ConfigErrorView::InvalidMode(input))
    }
}

/// A result of the configuration by value.
pub open spec fn by_value<T>(r: Result<T, ConfigError>) -> Result<T, ConfigErrorView> {
    match r {
        Ok(v) => Ok(v),
        Err(e) => Err(e@),
    }
}

impl AgentMode {
    /// Reads a mode: `user` or `privileged`.
    pub fn parse(input: &str) -> (r: Result<AgentMode, ConfigError>)
        ensures
            by_value(r) == mode_of(input@),
    {
        if same_text(input, "user") {
            Ok(AgentMode::User)
        } else if same_text(input, "privileged") {
            Ok(AgentMode::Privileged)
        } else {
            Err(ConfigError::InvalidMode(String::from_str(input)))
        }
    }
}

/// What the arguments of the agent say.
#[derive(Debug, PartialEq, Eq)]
pub struct AgentConfig {
    pub mode: AgentMode,
    pub includes: Vec<String>,
    pub excludes: Vec<String>,
}

/// A configuration by value.
pub struct AgentConfigView {
    pub mode: AgentMode,
    pub includes: Seq<Seq<char>>,
    pub excludes: Seq<Seq<char>>,
}

impl View for AgentConfig {
    type V = AgentConfigView;

    open spec fn view(&self) -> AgentConfigView {
        AgentConfigView {
            mode: self.mode,
            includes: texts_of(self.includes@),
            excludes: texts_of(self.excludes@),
        }
    }
}

/// What the arguments from position `i` on make of the configuration
/// `acc` read so far. `--include` and `--exclude` each add the path that
/// follows, `--mode` sets the mode that follows, and anything else is an
/// error, as is a flag without what should follow it.
pub open spec fn parsed_from(args: Seq<Seq<char>>, i: int, acc: AgentConfigView) -> Result<
    AgentConfigView,
    ConfigErrorView,
>
    decreases args.len() - i,
{
    if i < 0 || i >= args.len() {
        Ok(acc)
    } else if args[i] == "--include"@ {
        if i + 1 >= args.len() {
            Err(ConfigErrorView::IncludeExpectsPath)
        } else {
            parsed_from(
                args,
                i + 2,
                AgentConfigView {
                    mode: acc.mode,
                    includes: acc.includes.push(args[i + 1]),
                    excludes: acc.excludes,
                },
            )
        }
    } else if args[i] == "--exclude"@ {
        if i + 1 >= args.len() {
            Err(ConfigErrorView::ExcludeExpectsPath)
        } else {
            parsed_from(
                args,
                i + 2,
                AgentConfigView {
                    mode: acc.mode,
                    includes: acc.includes,
                    excludes: acc.excludes.push(args[i + 1]),
                },
            )
        }
    } else if args[i] == "--mode"@ {
        if i + 1 >= args.len() {
            Err(ConfigErrorView::ModeExpectsValue)
        } else {
            match mode_of(args[i + 1]) {
                Ok(mode) => parsed_from(
                    args,
                    i + 2,
                    AgentConfigView { mode, includes: acc.includes, excludes: acc.excludes },
                ),
                Err(e) => Err(e),
            }
        }
    } else {
        Err(ConfigErrorView::UnknownArgument(args[i]))
    }
}

/// The configuration before any argument is read: user mode, no paths.
pub open spec fn no_arguments() -> AgentConfigView {
    AgentConfigView {
        mode: AgentMode::User,
        includes: Seq::<Seq<char>>::empty(),
        excludes: Seq::<Seq<char>>::empty(),
    }
}

/// A parsed configuration by value.
pub open spec fn config_by_value(r: Result<AgentConfig, ConfigError>) -> Result<
    AgentConfigView,
    ConfigErrorView,
> {
    match r {
        Ok(c) => Ok(c@),
        Err(e) => Err(e@),
    }
}

/// Reads the arguments of the agent, without the name of the program.
pub fn parse_args_from(args: &Vec<String>) -> (r: Result<AgentConfig, ConfigError>)
    ensures
        config_by_value(r) == parsed_from(texts_of(args@), 0, no_arguments()),
{
    let mut mode = AgentMode::User;
    let mut includes: Vec<String> = Vec::new();
    let mut excludes: Vec<String> = Vec::new();
    let ghost all = texts_of(args@);
    let mut i: usize = 0;
    proof {
        assert(texts_of(includes@) =~= Seq::<Seq<char>>::empty());
        assert(texts_of(excludes@) =~= Seq::<Seq<char>>::empty());
    }
    while i < args.len()
        invariant
            i <= args.len(),
            all == texts_of(args@),
            parsed_from(all, 0, no_arguments()) == parsed_from(
                all,
                i as int,
                AgentConfigView {
                    mode,
                    includes: texts_of(includes@),
                    excludes: texts_of(excludes@),
                },
            ),
        decreases args.len() - i,
    {
        let arg = args[i].as_str();
        assert(all[i as int] == arg@);
        let has_next = i + 1 < args.len();
        if same_text(arg, "--include") {
            if !has_next {
                return Err(ConfigError::IncludeExpectsPath);
            }
            let ghost before = texts_of(includes@);
            includes.push(args[i + 1].clone());
            assert(texts_of(includes@) =~= before.push(all[i + 1]));
        } else if same_text(arg, "--exclude") {
            if !has_next {
                return Err(ConfigError::ExcludeExpectsPath);
            }
            let ghost before = texts_of(excludes@);
            excludes.push(args[i + 1].clone());
            assert(texts_of(excludes@) =~= before.push(all[i + 1]));
        } else if same_text(arg, "--mode") {
            if !has_next {
                return Err(ConfigError::ModeExpectsValue);
            }
            assert(all[i + 1] == args[i + 1]@);
            match AgentMode::parse(args[i + 1].as_str()) {
                Ok(m) => {
                    mode = m;
                },
                Err(e) => {
                    return Err(e);
                },
            }
        } else {
            return Err(ConfigError::UnknownArgument(args[i].clone()));
        }
        i += 2;
    }
    Ok(AgentConfig { mode, includes, excludes })
}

/// The paths that are included by default.
pub open spec fn included_by_default(mode: AgentMode) -> Seq<Seq<char>> {
    seq!["/etc"@, "/home"@, "/var"@]
}

/// The paths that are excluded by default: in user mode also `/run` and
/// the network configuration of containers.
pub open spec fn excluded_by_default(mode: AgentMode) -> Seq<Seq<char>> {
    match mode {
        AgentMode::User => seq!["/proc"@, "/sys"@, "/dev"@, "/run"@, "/etc/cni/net.d"@],
        AgentMode::Privileged => seq!["/proc"@, "/sys"@, "/dev"@],
    }
}

/// The paths that are included by default.
pub fn default_includes(mode: AgentMode) -> (paths: Vec<String>)
    ensures
        texts_of(paths@) == included_by_default(mode),
{
    let mut paths: Vec<String> = Vec::new();
    paths.push(String::from_str("/etc"));
    paths.push(String::from_str("/home"));
    paths.push(String::from_str("/var"));
    assert(texts_of(paths@) =~= included_by_default(mode));
    paths
}

/// The paths that are excluded by default.
pub fn default_excludes(mode: AgentMode) -> (paths: Vec<String>)
    ensures
        texts_of(paths@) == excluded_by_default(mode),
{
    let mut paths: Vec<String> = Vec::new();
    paths.push(String::from_str("/proc"));
    paths.push(String::from_str("/sys"));
    paths.push(String::from_str("/dev"));
    match mode {
        AgentMode::User => {
            paths.push(String::from_str("/run"));
            paths.push(String::from_str("/etc/cni/net.d"));
        },
        AgentMode::Privileged => {},
    }
    assert(texts_of(paths@) =~= excluded_by_default(mode));
    paths
}

/// The roots that are watched where none is named.
pub fn default_watch_roots() -> (paths: Vec<String>)
    ensures
        texts_of(paths@) == seq!["/etc"@],
{
    let mut paths: Vec<String> = Vec::new();
    paths.push(String::from_str("/etc"));
    assert(texts_of(paths@) =~= seq!["/etc"@]);
    paths
}

/// Whether the agent should warn that it runs in privileged mode without
/// being root.
pub fn should_warn_privileged_without_root(mode: AgentMode, euid: u32) -> (warn: bool)
    ensures
        warn == (mode == AgentMode::Privileged && euid != 0),
{
    match mode {
        AgentMode::Privileged => euid != 0,
        AgentMode::User => false,
    }
}

/// The paths that the agent includes and excludes: those of the
/// arguments, and the defaults of the mode for a list that the arguments
/// leave empty.
pub fn effective_paths(config: AgentConfig) -> (lists: (Vec<String>, Vec<String>))
    ensures
        texts_of(lists.0@) == if config.includes@.len() == 0 {
            included_by_default(config.mode)
        } else {
            texts_of(config.includes@)
        },
        texts_of(lists.1@) == if config.excludes@.len() == 0 {
            excluded_by_default(config.mode)
        } else {
            texts_of(config.excludes@)
        },
{
    let includes = if config.includes.len() == 0 {
        default_includes(config.mode)
    } else {
        config.includes
    };
    let excludes = if config.excludes.len() == 0 {
        default_excludes(config.mode)
    } else {
        config.excludes
    };
    (includes, excludes)
}

} // verus!
