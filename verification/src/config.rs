use crate::transform::Pattern;
use vstd::prelude::*;
use vstd::string::StringExecFns;

verus! {

/// The program's own settings: the commands to run, status reporting,
/// API tokens, triggers, and the restart throttle.
pub struct Config {
    pub run: Vec<String>,
    pub status: Status,
    pub tokens: Tokens,
    pub triggers: Vec<(String, Trigger)>,
    pub min_restart_interval_seconds: u64,
}

/// Where to report status, if anywhere.
pub struct Status {
    pub webhook: Option<String>,
}

/// API tokens handed to providers.
pub struct Tokens {
    pub github: Option<String>,
}

/// What causes a new preparation run.
pub enum Trigger {
    Startup,
    Webhook { port: u16 },
}

pub fn default_min_restart_interval() -> (r: u64)
    ensures
        r == 240,
{
    240
}

impl Default for Status {
    fn default() -> (r: Status)
        ensures
            r.webhook is None,
    {
        Status { webhook: None }
    }
}

impl Default for Tokens {
    fn default() -> (r: Tokens)
        ensures
            r.github is None,
    {
        Tokens { github: None }
    }
}

impl Default for Config {
    fn default() -> (r: Config)
        ensures
            r.run@.len() == 1,
            r.run@[0]@ == "java -jar fabric-server-launch.jar"@,
            r.status.webhook is None,
            r.tokens.github is None,
            r.triggers@.len() == 1,
            r.triggers@[0].0@ == "startup"@,
            r.triggers@[0].1 is Startup,
            r.min_restart_interval_seconds == 240,
    {
        let mut run: Vec<String> = Vec::new();
        run.push(String::from_str("java -jar fabric-server-launch.jar"));
        let mut triggers: Vec<(String, Trigger)> = Vec::new();
        triggers.push((String::from_str("startup"), Trigger::Startup));
        Config {
            run,
            status: Status { webhook: None },
            tokens: Tokens { github: None },
            triggers,
            min_restart_interval_seconds: default_min_restart_interval(),
        }
    }
}

/// All destination directories to keep in sync, by name.
pub struct Destinations {
    pub destinations: Vec<(String, Destination)>,
}

/// One destination: its directory, the triggers that refresh it, and its
/// source sets by name.
pub struct Destination {
    pub path: String,
    pub triggers: Vec<String>,
    pub sources: Vec<(String, SourceSet)>,
}

/// A group of sources sharing one transform.
pub struct SourceSet {
    pub transform: Option<Transform>,
    pub sources: Vec<(String, Source)>,
}

/// The configured post-fetch transform of a source set.
pub enum Transform {
    Unzip { unzip: Vec<Pattern> },
}

/// Where one artifact comes from.
pub enum Source {
    GitHubArtifacts {
        github: String,
        workflow: Option<String>,
        branch: Option<String>,
        artifact: Option<String>,
    },
    Modrinth { project_id: String, game_version: Option<String> },
    Url { url: String },
    Path { path: String },
}

/// The runtime transform a source set's configuration calls for: absent
/// means the identity, configured extraction keeps its rules.
pub fn runtime_transform(configured: &Option<Transform>) -> (r: crate::transform::Transform)
    ensures
        match configured {
            None => r is Direct,
            Some(c) => match (c, r) {
                (Transform::Unzip { unzip }, crate::transform::Transform::Unzip { unzip: out }) => {
                    &&& out@.len() == unzip@.len()
                    &&& forall|i: int|
                        0 <= i < unzip@.len() ==> (#[trigger] out@[i]).source() == unzip@[i].source()
                            && out@[i].exclude == unzip@[i].exclude
                },
                _ => false,
            },
        },
{
    match configured {
        None => crate::transform::Transform::Direct,
        Some(Transform::Unzip { unzip }) => {
            let n = unzip.len();
            let mut out: Vec<Pattern> = Vec::new();
            let mut i: usize = 0;
            while i < n
                invariant
                    i <= n,
                    n == unzip@.len(),
                    out@.len() == i,
                    forall|j: int|
                        0 <= j < i ==> (#[trigger] out@[j]).source() == unzip@[j].source()
                            && out@[j].exclude == unzip@[j].exclude,
                decreases n - i,
            {
                let p = Pattern { glob: unzip[i].glob.clone(), exclude: unzip[i].exclude };
                out.push(p);
                i += 1;
            }
            crate::transform::Transform::Unzip { unzip: out }
        },
    }
}

impl Default for Destinations {
    fn default() -> (r: Destinations)
        ensures
            r.destinations@.len() == 1,
            r.destinations@[0].0@ == "mods"@,
            r.destinations@[0].1.path@ == "mods"@,
            r.destinations@[0].1.triggers@.len() == 1,
            r.destinations@[0].1.triggers@[0]@ == "startup"@,
            r.destinations@[0].1.sources@.len() == 1,
            r.destinations@[0].1.sources@[0].0@ == "jars"@,
            r.destinations@[0].1.sources@[0].1.transform is None,
            r.destinations@[0].1.sources@[0].1.sources@.len() == 1,
            r.destinations@[0].1.sources@[0].1.sources@[0].0@ == "fabric-api"@,
            r.destinations@[0].1.sources@[0].1.sources@[0].1 matches Source::Url { url } && url@
                == "https://github.com/FabricMC/fabric/releases/download/0.29.3%2B1.16/fabric-api-0.29.3+1.16.jar"@,
    {
        let mut sources: Vec<(String, Source)> = Vec::new();
        sources.push(
            (
                String::from_str("fabric-api"),
                Source::Url {
                    url: String::from_str(
                        "https://github.com/FabricMC/fabric/releases/download/0.29.3%2B1.16/fabric-api-0.29.3+1.16.jar",
                    ),
                },
            ),
        );
        let mut source_sets: Vec<(String, SourceSet)> = Vec::new();
        source_sets.push((String::from_str("jars"), SourceSet { transform: None, sources }));
        let mut triggers: Vec<String> = Vec::new();
        triggers.push(String::from_str("startup"));
        let mut destinations: Vec<(String, Destination)> = Vec::new();
        destinations.push(
            (
                String::from_str("mods"),
                Destination { path: String::from_str("mods"), triggers, sources: source_sets },
            ),
        );
        Destinations { destinations }
    }
}

} // verus!
