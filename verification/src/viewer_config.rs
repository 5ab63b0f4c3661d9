//! The settings of the viewer that are kept between runs, and the command
//! line that starts an agent with a path policy.

use vstd::prelude::*;
use crate::text::{join_texts, joined, push_str, sorted_set_of, sorted_unique, string_of, texts_of};

verus! {

/// Which view the viewer shows.
#[derive(Debug, Clone, Copy, PartialEq, Eq, Structural)]
pub enum ViewerViewMode {
    Spatial,
    Timeline,
}

impl Default for ViewerViewMode {
    fn default() -> (m: Self)
        ensures
            m == ViewerViewMode::Spatial,
    {
        ViewerViewMode::Spatial
    }
}

/// For which nodes edges are drawn when there are many.
#[derive(Debug, Clone, Copy, PartialEq, Eq, Structural)]
pub enum LodEdgesMode {
    Off,
    FocusOnly,
    All,
}

impl Default for LodEdgesMode {
    fn default() -> (m: Self)
        ensures
            m == LodEdgesMode::FocusOnly,
    {
        LodEdgesMode::FocusOnly
    }
}

/// With what rights an agent is started.
#[derive(Debug, Clone, Copy, PartialEq, Eq, Structural)]
pub enum AgentMode {
    User,
    Privileged,
}

impl Default for AgentMode {
    fn default() -> (m: Self)
        ensures
            m == AgentMode::User,
    {
        AgentMode::User
    }
}

/// The name of a mode.
pub open spec fn mode_name(mode: AgentMode) -> Seq<char> {
    match mode {
        AgentMode::User => "user"@,
        AgentMode::Privileged => "privileged"@,
    }
}

impl AgentMode {
    /// The name of the mode: `user` or `privileged`.
    pub fn as_str(self) -> (name: &'static str)
        ensures
            name@ == mode_name(self),
    {
        match self {
            AgentMode::User => "user",
            AgentMode::Privileged => "privileged",
        }
    }
}

/// How an agent is reached.
#[derive(Debug, Clone, PartialEq, Eq)]
pub enum AgentEndpointKind {
    UdsPath(String),
}

/// An agent that the viewer knows.
#[derive(Debug, Clone, PartialEq, Eq)]
pub struct AgentEndpoint {
    pub name: String,
    pub kind: AgentEndpointKind,
    pub auto_connect: bool,
    pub mode_override: Option<AgentMode>,
}

/// The paths with which an agent is started.
#[derive(Debug, Clone)]
pub struct PathPolicyConfig {
    pub includes: Vec<String>,
    pub excludes: Vec<String>,
}

/// The path of the socket: `spacegraph.sock` in the runtime directory of
/// the user, and in `/tmp` where there is none.
pub open spec fn socket_path(runtime_dir: Option<Seq<char>>) -> Seq<char> {
    match runtime_dir {
        Some(dir) => dir + "/spacegraph.sock"@,
        None => "/tmp/spacegraph.sock"@,
    }
}

/// The path of the socket, given what `XDG_RUNTIME_DIR` holds.
pub fn default_uds_path(runtime_dir: Option<&str>) -> (path: String)
    ensures
        path@ == socket_path(
            match runtime_dir {
                Some(dir) => Some(dir@),
                None => None,
            },
        ),
{
    let mut out: Vec<char> = Vec::new();
    match runtime_dir {
        Some(dir) => {
            push_str(&mut out, dir);
            push_str(&mut out, "/spacegraph.sock");
        },
        None => {
            push_str(&mut out, "/tmp/spacegraph.sock");
        },
    }
    string_of(&out)
}

/// The agents that a viewer knows at first: the local one, connected at
/// start, with the mode of the viewer.
pub fn default_agents(runtime_dir: Option<&str>) -> (agents: Vec<AgentEndpoint>)
    ensures
        agents.len() == 1,
        agents[0].name@ == "local"@,
        agents[0].kind matches AgentEndpointKind::UdsPath(p) && p@ == socket_path(
            match runtime_dir {
                Some(dir) => Some(dir@),
                None => None,
            },
        ),
        agents[0].auto_connect,
        agents[0].mode_override is None,
{
    let mut agents: Vec<AgentEndpoint> = Vec::new();
    agents.push(
        AgentEndpoint {
            name: String::from_str("local"),
            kind: AgentEndpointKind::UdsPath(default_uds_path(runtime_dir)),
            auto_connect: true,
            mode_override: None,
        },
    );
    agents
}

/// Each of the texts behind the flag `flag`.
pub open spec fn flagged(flag: Seq<char>, values: Seq<Seq<char>>) -> Seq<Seq<char>>
    decreases values.len(),
{
    if values.len() == 0 {
        Seq::<Seq<char>>::empty()
    } else {
        flagged(flag, values.drop_last()).push(flag).push(values.last())
    }
}

/// The words of the command that starts an agent.
pub open spec fn command_words(
    mode: AgentMode,
    includes: Seq<Seq<char>>,
    excludes: Seq<Seq<char>>,
) -> Seq<Seq<char>> {
    seq!["spacegraph-agent"@, "--mode"@, mode_name(mode)] + flagged("--include"@, includes) + flagged(
        "--exclude"@,
        excludes,
    )
}

fn push_flagged(parts: &mut Vec<String>, flag: &str, values: &Vec<String>)
    ensures
        texts_of(final(parts)@) == texts_of(old(parts)@) + flagged(flag@, texts_of(values@)),
{
    let ghost start = texts_of(parts@);
    let ghost all = texts_of(values@);
    let mut i: usize = 0;
    proof {
        assert(all.take(0) =~= Seq::<Seq<char>>::empty());
        assert(texts_of(parts@) =~= start + flagged(flag@, all.take(0)));
    }
    while i < values.len()
        invariant
            i <= values.len(),
            all == texts_of(values@),
            texts_of(parts@) == start + flagged(flag@, all.take(i as int)),
        decreases values.len() - i,
    {
        let ghost before = texts_of(parts@);
        parts.push(String::from_str(flag));
        parts.push(values[i].clone());
        proof {
            assert(all.take(i + 1).drop_last() =~= all.take(i as int));
            assert(all.take(i + 1).last() == values@[i as int]@);
            assert(texts_of(parts@) =~= before.push(flag@).push(values@[i as int]@));
            assert(texts_of(parts@) =~= start + flagged(flag@, all.take(i + 1)));
        }
        i += 1;
    }
    proof {
        assert(all.take(values.len() as int) =~= all);
    }
}

/// The command that starts an agent in `mode` with the paths of
/// `policy`: the includes and the excludes in ascending order, each once.
pub fn build_agent_command(_agent: &AgentEndpoint, policy: &PathPolicyConfig, mode: AgentMode) -> (cmd:
    String)
    ensures
        exists|includes: Seq<Seq<char>>, excludes: Seq<Seq<char>>|
            #![trigger command_words(mode, includes, excludes)]
            sorted_set_of(includes, texts_of(policy.includes@)) && sorted_set_of(
                excludes,
                texts_of(policy.excludes@),
            ) && cmd@ == joined(command_words(mode, includes, excludes), " "@),
{
    let mut parts: Vec<String> = Vec::new();
    parts.push(String::from_str("spacegraph-agent"));
    parts.push(String::from_str("--mode"));
    parts.push(String::from_str(mode.as_str()));
    assert(texts_of(parts@) =~= seq!["spacegraph-agent"@, "--mode"@, mode_name(mode)]);
    let includes = sorted_unique(&policy.includes);
    push_flagged(&mut parts, "--include", &includes);
    let excludes = sorted_unique(&policy.excludes);
    push_flagged(&mut parts, "--exclude", &excludes);
    let cmd = join_texts(&parts, " ");
    proof {
        assert(texts_of(parts@) == command_words(mode, texts_of(includes@), texts_of(excludes@)));
    }
    cmd
}

} // verus!
