//! Docker test containers: their configuration, and the `docker` command
//! lines and decisions that manage a container's lifecycle.
use crate::mock::names_view;
use crate::string_map::{Entries, StringMap};
use crate::text::{decimal, decimal_string, trim_text, trimmed};
use vstd::prelude::*;
use vstd::string::StringExecFns;

verus! {

broadcast use vstd::string::group_string_axioms;

/// Docker test container errors.
#[derive(Debug)]
pub enum DockerError {
    NotAvailable(String),
    StartFailed(String),
    StopFailed(String),
    PullFailed(String),
    NotFound(String),
}

/// Port mappings from host port to container port, each host port present
/// at most once, in the order first inserted.
#[derive(Debug)]
pub struct PortMap {
    entries: Vec<(u16, u16)>,
}

/// No host port occurs twice.
pub open spec fn ports_distinct(entries: Seq<(u16, u16)>) -> bool {
    forall|i: int, j: int|
        0 <= i < entries.len() && 0 <= j < entries.len() && i != j ==> #[trigger] entries[i].0
            != #[trigger] entries[j].0
}

/// The mappings after mapping `host` to `container`: an existing host port
/// keeps its place and takes the new target, a new one goes last.
pub open spec fn ports_inserted(entries: Seq<(u16, u16)>, host: u16, container: u16) -> Seq<
    (u16, u16),
> {
    if exists|i: int| 0 <= i < entries.len() && #[trigger] entries[i].0 == host {
        entries.update(
            choose|i: int| 0 <= i < entries.len() && #[trigger] entries[i].0 == host,
            (host, container),
        )
    } else {
        entries.push((host, container))
    }
}

impl View for PortMap {
    type V = Seq<(u16, u16)>;

    closed spec fn view(&self) -> Seq<(u16, u16)> {
        self.entries@
    }
}

impl PortMap {
    #[verifier::type_invariant]
    closed spec fn inv(self) -> bool {
        ports_distinct(self.entries@)
    }

    /// No mappings.
    pub fn new() -> (m: Self)
        ensures
            m@ == Seq::<(u16, u16)>::empty(),
    {
        PortMap { entries: Vec::new() }
    }

    /// Number of mappings.
    pub fn len(&self) -> (n: usize)
        ensures
            n == self@.len(),
    {
        self.entries.len()
    }

    /// The `i`-th mapping in insertion order.
    pub fn entry(&self, i: usize) -> (e: (u16, u16))
        requires
            i < self@.len(),
        ensures
            e == self@[i as int],
    {
        self.entries[i]
    }

    fn find(&self, host: u16) -> (r: Option<usize>)
        ensures
            match r {
                Some(i) => i < self@.len() && self@[i as int].0 == host,
                None => forall|i: int| 0 <= i < self@.len() ==> #[trigger] self@[i].0 != host,
            },
    {
        let mut i: usize = 0;
        while i < self.entries.len()
            invariant
                i <= self.entries.len(),
                forall|j: int| 0 <= j < i ==> #[trigger] self@[j].0 != host,
            decreases self.entries.len() - i,
        {
            if self.entries[i].0 == host {
                return Some(i);
            }
            i = i + 1;
        }
        None
    }

    /// The container port mapped from `host`.
    pub fn get(&self, host: &u16) -> (r: Option<&u16>)
        ensures
            match r {
                Some(c) => exists|i: int| 0 <= i < self@.len() && #[trigger] self@[i] == (*host, *c),
                None => forall|i: int| 0 <= i < self@.len() ==> #[trigger] self@[i].0 != *host,
            },
    {
        match self.find(*host) {
            Some(i) => Some(&self.entries[i].1),
            None => None,
        }
    }

    /// Map `host` to `container`, replacing an earlier mapping of `host`.
    pub fn insert(&mut self, host: u16, container: u16)
        ensures
            final(self)@ == ports_inserted(old(self)@, host, container),
    {
        proof {
            use_type_invariant(&*self);
        }
        let ghost before = self@;
        let found = self.find(host);
        let mut entries: Vec<(u16, u16)> = Vec::new();
        std::mem::swap(&mut entries, &mut self.entries);
        assert(entries@ == before);
        match found {
            Some(i) => {
                proof {
                    assert(before[i as int].0 == host);
                    let j = choose|j: int| 0 <= j < before.len() && #[trigger] before[j].0 == host;
                    assert(j == i as int);
                }
                entries.set(i, (host, container));
                assert(entries@ =~= ports_inserted(before, host, container));
            },
            None => {
                assert(!exists|k: int| 0 <= k < before.len() && #[trigger] before[k].0 == host);
                entries.push((host, container));
                assert(entries@ =~= ports_inserted(before, host, container));
            },
        }
        assert(ports_distinct(entries@)) by {
            assert forall|a: int, b: int|
                0 <= a < entries@.len() && 0 <= b < entries@.len() && a != b implies #[trigger] entries@[a].0
                != #[trigger] entries@[b].0 by {
                if a < before.len() && b < before.len() {
                    if found is None || (a != found.unwrap() && b != found.unwrap()) {
                        assert(entries@[a] == before[a] && entries@[b] == before[b]);
                    }
                }
            }
        }
        self.entries = entries;
    }
}

impl Clone for PortMap {
    fn clone(&self) -> (c: Self)
        ensures
            c@ == self@,
    {
        proof {
            use_type_invariant(self);
        }
        let mut entries: Vec<(u16, u16)> = Vec::new();
        let mut i: usize = 0;
        while i < self.entries.len()
            invariant
                i <= self.entries.len(),
                entries@ == self.entries@.subrange(0, i as int),
            decreases self.entries.len() - i,
        {
            entries.push(self.entries[i]);
            i = i + 1;
            assert(entries@ =~= self.entries@.subrange(0, i as int));
        }
        assert(entries@ =~= self.entries@);
        PortMap { entries }
    }
}

/// Docker container configuration.
#[derive(Debug)]
pub struct ContainerConfig {
    /// Docker image.
    pub image: String,
    /// Image tag.
    pub tag: String,
    /// Container name.
    pub name: Option<String>,
    /// Environment variables.
    pub env: StringMap,
    /// Port mappings (host port to container port).
    pub ports: PortMap,
    /// Seconds to wait for the container to be ready.
    pub wait_timeout_secs: u64,
}

/// `image:tag`.
pub open spec fn image_name_of(image: Seq<char>, tag: Seq<char>) -> Seq<char> {
    image + ":"@ + tag
}

impl ContainerConfig {
    /// A config for `image:tag`, with no name, variables or ports, and a
    /// thirty-second readiness wait.
    pub fn new(image: &str, tag: &str) -> (c: Self)
        ensures
            c.image@ == image@,
            c.tag@ == tag@,
            c.name is None,
            c.env@ == Seq::<(Seq<char>, Seq<char>)>::empty(),
            c.ports@ == Seq::<(u16, u16)>::empty(),
            c.wait_timeout_secs == 30,
    {
        ContainerConfig {
            image: image.to_string(),
            tag: tag.to_string(),
            name: None,
            env: StringMap::new(),
            ports: PortMap::new(),
            wait_timeout_secs: 30,
        }
    }

    /// Set the container name.
    pub fn with_name(self, name: &str) -> (c: Self)
        ensures
            c.image == self.image,
            c.tag == self.tag,
            c.name matches Some(n) && n@ == name@,
            c.env == self.env,
            c.ports == self.ports,
            c.wait_timeout_secs == self.wait_timeout_secs,
    {
        ContainerConfig { name: Some(name.to_string()), ..self }
    }

    /// Add an environment variable.
    pub fn with_env(self, key: &str, value: &str) -> (c: Self)
        ensures
            c.image == self.image,
            c.tag == self.tag,
            c.name == self.name,
            c.env@ == crate::string_map::inserted(self.env@, key@, value@),
            c.ports == self.ports,
            c.wait_timeout_secs == self.wait_timeout_secs,
    {
        let ContainerConfig { image, tag, name, mut env, ports, wait_timeout_secs } = self;
        env.insert(key.to_string(), value.to_string());
        ContainerConfig { image, tag, name, env, ports, wait_timeout_secs }
    }

    /// Add a port mapping.
    pub fn with_port(self, host_port: u16, container_port: u16) -> (c: Self)
        ensures
            c.image == self.image,
            c.tag == self.tag,
            c.name == self.name,
            c.env == self.env,
            c.ports@ == ports_inserted(self.ports@, host_port, container_port),
            c.wait_timeout_secs == self.wait_timeout_secs,
    {
        let ContainerConfig { image, tag, name, env, mut ports, wait_timeout_secs } = self;
        ports.insert(host_port, container_port);
        ContainerConfig { image, tag, name, env, ports, wait_timeout_secs }
    }

    /// Set the readiness wait, in seconds.
    pub fn with_wait_timeout(self, seconds: u64) -> (c: Self)
        ensures
            c == (ContainerConfig { wait_timeout_secs: seconds, ..self }),
    {
        ContainerConfig { wait_timeout_secs: seconds, ..self }
    }

    /// Full image name, `image:tag`.
    pub fn image_name(&self) -> (s: String)
        ensures
            s@ == image_name_of(self.image@, self.tag@),
    {
        let mut s = self.image.clone();
        s.append(":");
        s.append(self.tag.as_str());
        s
    }
}

/// `-e KEY=VALUE` for each variable, in order.
pub open spec fn env_args(env: Entries) -> Seq<Seq<char>>
    decreases env.len(),
{
    if env.len() == 0 {
        Seq::empty()
    } else {
        env_args(env.drop_last()) + seq!["-e"@, env.last().0 + "="@ + env.last().1]
    }
}

/// `-p HOST:CONTAINER` for each mapping, in order.
pub open spec fn port_args(ports: Seq<(u16, u16)>) -> Seq<Seq<char>>
    decreases ports.len(),
{
    if ports.len() == 0 {
        Seq::empty()
    } else {
        port_args(ports.drop_last()) + seq![
            "-p"@,
            decimal(ports.last().0 as nat) + ":"@ + decimal(ports.last().1 as nat),
        ]
    }
}

/// The arguments of `docker` that start a detached, self-removing container
/// for `config`.
pub open spec fn run_args_of(config: ContainerConfig) -> Seq<Seq<char>> {
    seq!["run"@, "-d"@, "--rm"@] + match config.name {
        Some(n) => seq!["--name"@, n@],
        None => Seq::empty(),
    } + env_args(config.env@) + port_args(config.ports@) + seq![
        image_name_of(config.image@, config.tag@),
    ]
}

/// Arguments `k` and `k + 1` publish mapping `(h, c)`: `-p`, then `h:c`
/// (host port, colon, container port).
pub open spec fn published_at(args: Seq<Seq<char>>, k: int, mapping: (u16, u16)) -> bool {
    &&& args[k] == "-p"@
    &&& args[k + 1] == decimal(mapping.0 as nat) + ":"@ + decimal(mapping.1 as nat)
}

/// Each mapping of `ports`, in order, is published by a pair of arguments,
/// the pairs standing just before the last argument.
pub open spec fn ports_published(args: Seq<Seq<char>>, ports: Seq<(u16, u16)>) -> bool {
    &&& args.len() >= 2 * ports.len() + 1
    &&& forall|i: int|
        0 <= i < ports.len() ==> published_at(
            args,
            args.len() - 1 - 2 * (ports.len() - i),
            #[trigger] ports[i],
        )
}

/// The port arguments are one `-p`, `h:c` pair per mapping, in order.
proof fn lemma_port_args_layout(ports: Seq<(u16, u16)>)
    ensures
        port_args(ports).len() == 2 * ports.len(),
        forall|i: int| 0 <= i < ports.len() ==> published_at(port_args(ports), 2 * i, #[trigger] ports[i]),
    decreases ports.len(),
{
    if ports.len() > 0 {
        let prev = ports.drop_last();
        lemma_port_args_layout(prev);
        let pa = port_args(prev);
        let last = seq![
            "-p"@,
            decimal(ports.last().0 as nat) + ":"@ + decimal(ports.last().1 as nat),
        ];
        assert(port_args(ports) == pa + last);
        assert forall|i: int| 0 <= i < ports.len() implies published_at(
            port_args(ports),
            2 * i,
            #[trigger] ports[i],
        ) by {
            if i < prev.len() {
                assert(ports[i] == prev[i]);
                assert(published_at(pa, 2 * i, prev[i]));
                assert(port_args(ports)[2 * i] == pa[2 * i]);
                assert(port_args(ports)[2 * i + 1] == pa[2 * i + 1]);
            } else {
                assert(ports[i] == ports.last());
                assert(port_args(ports)[2 * i] == last[0]);
                assert(port_args(ports)[2 * i + 1] == last[1]);
            }
        }
    }
}

/// The run arguments publish every port mapping.
proof fn lemma_run_args_publish_ports(config: ContainerConfig)
    ensures
        ports_published(run_args_of(config), config.ports@),
{
    let ports = config.ports@;
    lemma_port_args_layout(ports);
    let head = seq!["run"@, "-d"@, "--rm"@] + match config.name {
        Some(n) => seq!["--name"@, n@],
        None => Seq::empty(),
    } + env_args(config.env@);
    let pa = port_args(ports);
    let args = run_args_of(config);
    assert(args =~= head + pa + seq![image_name_of(config.image@, config.tag@)]);
    assert forall|i: int| 0 <= i < ports.len() implies published_at(
        args,
        args.len() - 1 - 2 * (ports.len() - i),
        #[trigger] ports[i],
    ) by {
        let k = args.len() - 1 - 2 * (ports.len() - i);
        assert(k == head.len() + 2 * i);
        assert(published_at(pa, 2 * i, ports[i]));
        assert(args[k] == pa[2 * i]);
        assert(args[k + 1] == pa[2 * i + 1]);
    }
}

/// Next step while waiting for a container to be ready.
#[derive(Debug, Clone, Copy, PartialEq, Eq, Structural)]
pub enum PollStep {
    /// The container is ready.
    Ready,
    /// The deadline passed first.
    TimedOut,
    /// Sleep one interval and ask again.
    Retry,
}

/// Docker test container: its configuration and, once started, its id.
pub struct DockerContainer {
    config: ContainerConfig,
    container_id: Option<String>,
}

impl DockerContainer {
    pub closed spec fn config(&self) -> ContainerConfig {
        self.config
    }

    /// The started container's id, if any.
    pub closed spec fn id(&self) -> Option<Seq<char>> {
        match self.container_id {
            Some(s) => Some(s@),
            None => None,
        }
    }

    /// A container for `config`, not started.
    pub fn new(config: ContainerConfig) -> (c: Self)
        ensures
            c.config() == config,
            c.id() is None,
    {
        DockerContainer { config, container_id: None }
    }

    /// The configuration.
    pub fn get_config(&self) -> (c: &ContainerConfig)
        ensures
            *c == self.config(),
    {
        &self.config
    }

    /// Get the container id.
    pub fn container_id(&self) -> (r: Option<&str>)
        ensures
            match r {
                Some(s) => self.id() == Some(s@),
                None => self.id() is None,
            },
    {
        match &self.container_id {
            Some(s) => Some(s.as_str()),
            None => None,
        }
    }

    /// Arguments of `docker run` for this container.
    pub fn run_args(&self) -> (args: Vec<String>)
        ensures
            names_view(args@) == run_args_of(self.config()),
            ports_published(names_view(args@), self.config().ports@),
            names_view(args@).len() > 0 && names_view(args@).last() == self.config().image@
                + ":"@ + self.config().tag@,
            names_view(args@).subrange(0, 3) == seq!["run"@, "-d"@, "--rm"@],
    {
        let mut args: Vec<String> = Vec::new();
        args.push(String::from_str("run"));
        args.push(String::from_str("-d"));
        args.push(String::from_str("--rm"));
        let ghost prefix = seq!["run"@, "-d"@, "--rm"@];
        assert(names_view(args@) =~= prefix);
        match &self.config.name {
            Some(name) => {
                args.push(String::from_str("--name"));
                args.push(name.clone());
            },
            None => {},
        }
        let ghost named = names_view(args@);
        assert(named =~= prefix + match self.config.name {
            Some(n) => seq!["--name"@, n@],
            None => Seq::<Seq<char>>::empty(),
        });
        let env = &self.config.env;
        let mut i: usize = 0;
        while i < env.len()
            invariant
                i <= env@.len(),
                names_view(args@) == named + env_args(env@.subrange(0, i as int)),
            decreases env@.len() - i,
        {
            let (k, v) = env.entry(i);
            let mut kv = k.clone();
            kv.append("=");
            kv.append(v.as_str());
            let ghost before = names_view(args@);
            args.push(String::from_str("-e"));
            args.push(kv);
            assert(env@.subrange(0, i as int + 1).drop_last() =~= env@.subrange(0, i as int));
            assert(names_view(args@) =~= before + seq!["-e"@, env@[i as int].0 + "="@ + env@[i as int].1]);
            i = i + 1;
        }
        assert(env@.subrange(0, i as int) =~= env@);
        let ghost with_env = names_view(args@);
        let ports = &self.config.ports;
        let mut j: usize = 0;
        while j < ports.len()
            invariant
                j <= ports@.len(),
                names_view(args@) == with_env + port_args(ports@.subrange(0, j as int)),
            decreases ports@.len() - j,
        {
            let (h, c) = ports.entry(j);
            let mut hc = decimal_string(h as u64);
            hc.append(":");
            let cs = decimal_string(c as u64);
            hc.append(cs.as_str());
            let ghost before = names_view(args@);
            args.push(String::from_str("-p"));
            args.push(hc);
            assert(ports@.subrange(0, j as int + 1).drop_last() =~= ports@.subrange(0, j as int));
            assert(names_view(args@) =~= before + seq![
                "-p"@,
                decimal(h as nat) + ":"@ + decimal(c as nat),
            ]);
            j = j + 1;
        }
        assert(ports@.subrange(0, j as int) =~= ports@);
        let ghost before = names_view(args@);
        args.push(self.config.image_name());
        assert(names_view(args@) =~= before + seq![
            image_name_of(self.config.image@, self.config.tag@),
        ]);
        assert(names_view(args@) =~= run_args_of(self.config));
        proof {
            lemma_run_args_publish_ports(self.config);
        }
        args
    }

    /// Arguments of `docker pull` for this container's image.
    pub fn pull_args(&self) -> (args: Vec<String>)
        ensures
            names_view(args@) == seq!["pull"@, image_name_of(self.config().image@, self.config().tag@)],
    {
        let mut args: Vec<String> = Vec::new();
        args.push(String::from_str("pull"));
        args.push(self.config.image_name());
        assert(names_view(args@) =~= seq![
            "pull"@,
            image_name_of(self.config.image@, self.config.tag@),
        ]);
        args
    }

    /// Arguments of `docker stop` for the started container; none when it
    /// was not started.
    pub fn stop_args(&self) -> (args: Option<Vec<String>>)
        ensures
            match self.id() {
                Some(id) => args matches Some(a) && names_view(a@) == seq!["stop"@, id],
                None => args is None,
            },
    {
        match &self.container_id {
            Some(id) => {
                let mut args: Vec<String> = Vec::new();
                args.push(String::from_str("stop"));
                args.push(id.clone());
                assert(names_view(args@) =~= seq!["stop"@, id@]);
                Some(args)
            },
            None => None,
        }
    }

    /// Arguments of `docker inspect` that print whether the started container
    /// is running; none when it was not started.
    pub fn inspect_args(&self) -> (args: Option<Vec<String>>)
        ensures
            match self.id() {
                Some(id) => args matches Some(a) && names_view(a@) == seq![
                    "inspect"@,
                    "-f"@,
                    "{{.State.Running}}"@,
                    id,
                ],
                None => args is None,
            },
    {
        match &self.container_id {
            Some(id) => {
                let mut args: Vec<String> = Vec::new();
                args.push(String::from_str("inspect"));
                args.push(String::from_str("-f"));
                args.push(String::from_str("{{.State.Running}}"));
                args.push(id.clone());
                assert(names_view(args@) =~= seq![
                    "inspect"@,
                    "-f"@,
                    "{{.State.Running}}"@,
                    id@,
                ]);
                Some(args)
            },
            None => None,
        }
    }

    /// Record that `docker run` succeeded and printed `stdout`: the
    /// container's id is that output, trimmed.
    pub fn record_started(&mut self, stdout: &str)
        ensures
            final(self).config() == old(self).config(),
            final(self).id() == Some(trimmed(stdout@)),
    {
        self.container_id = Some(trim_text(stdout));
    }

    /// Record that `docker stop` succeeded: the container has no id any more.
    pub fn record_stopped(&mut self)
        ensures
            final(self).config() == old(self).config(),
            final(self).id() is None,
    {
        self.container_id = None;
    }

    /// Whether `docker inspect` output says the container runs: its trimmed
    /// text is `true`.
    pub fn reports_running(stdout: &str) -> (b: bool)
        ensures
            b == (trimmed(stdout@) == "true"@),
    {
        let t = trim_text(stdout);
        let expected = String::from_str("true");
        t.eq(&expected)
    }

    /// How long to wait for readiness: the configured seconds, at least one.
    pub fn readiness_timeout_secs(&self) -> (s: u64)
        ensures
            s == (if self.config().wait_timeout_secs >= 1 {
                self.config().wait_timeout_secs
            } else {
                1
            }),
    {
        if self.config.wait_timeout_secs >= 1 {
            self.config.wait_timeout_secs
        } else {
            1
        }
    }

    /// The next step of the readiness wait: ready as soon as the check says
    /// so; otherwise time out once the deadline has passed, else retry.
    pub fn next_poll_step(ready: bool, deadline_passed: bool) -> (step: PollStep)
        ensures
            step == (if ready {
                PollStep::Ready
            } else if deadline_passed {
                PollStep::TimedOut
            } else {
                PollStep::Retry
            }),
    {
        if ready {
            PollStep::Ready
        } else if deadline_passed {
            PollStep::TimedOut
        } else {
            PollStep::Retry
        }
    }

    /// The error when Docker is not installed.
    pub fn docker_missing_error() -> (e: DockerError)
        ensures
            e matches DockerError::NotAvailable(m) && m@ == "Docker not found. Please install Docker."@,
    {
        DockerError::NotAvailable(String::from_str("Docker not found. Please install Docker."))
    }

    /// The error when the container did not report running in time.
    pub fn readiness_timeout_error(&self) -> (e: DockerError)
        ensures
            e matches DockerError::StartFailed(m) && m@
                == "container did not report running within wait_timeout_secs ("@ + decimal(
                self.config().wait_timeout_secs as nat,
            ) + "s)"@,
    {
        let mut m = String::from_str("container did not report running within wait_timeout_secs (");
        let secs = decimal_string(self.config.wait_timeout_secs);
        m.append(secs.as_str());
        m.append("s)");
        DockerError::StartFailed(m)
    }
}

/// A step of starting a container, in the order they run: check that Docker
/// is installed, pull the image, run the container, wait until it runs.
#[derive(Debug, Clone, Copy, PartialEq, Eq, Structural)]
pub enum StartStep {
    CheckDocker,
    Pull,
    Run,
    WaitReady,
}

/// What a start step gave: whether Docker is installed, what a `docker`
/// command printed (its output on success, its error text on failure), or
/// whether the container reported running in time.
#[derive(Debug)]
pub enum StartOutcome {
    Available(bool),
    Command(Result<String, String>),
    Ready(bool),
}

/// The outcome has the kind that `step` gives.
pub open spec fn outcome_fits(step: StartStep, outcome: StartOutcome) -> bool {
    match step {
        StartStep::CheckDocker => outcome is Available,
        StartStep::Pull | StartStep::Run => outcome is Command,
        StartStep::WaitReady => outcome is Ready,
    }
}

/// What follows `step` with `outcome`: the next step (`Ok(Some(..))`), a
/// started container (`Ok(None)`), or the error the start fails with, given
/// as the error's variant and message.
pub open spec fn start_transition(
    config: ContainerConfig,
    step: StartStep,
    outcome: StartOutcome,
) -> Result<Option<StartStep>, (int, Seq<char>)> {
    match outcome {
        StartOutcome::Available(true) => Ok(Some(StartStep::Pull)),
        StartOutcome::Available(false) => Err((0, "Docker not found. Please install Docker."@)),
        StartOutcome::Command(Ok(_)) => if step == StartStep::Pull {
            Ok(Some(StartStep::Run))
        } else {
            Ok(Some(StartStep::WaitReady))
        },
        StartOutcome::Command(Err(m)) => if step == StartStep::Pull {
            Err((3, m@))
        } else {
            Err((1, m@))
        },
        StartOutcome::Ready(true) => Ok(None),
        StartOutcome::Ready(false) => Err(
            (
                1,
                "container did not report running within wait_timeout_secs ("@ + decimal(
                    config.wait_timeout_secs as nat,
                ) + "s)"@,
            ),
        ),
    }
}

/// The variant number and message of an error: `NotAvailable` 0,
/// `StartFailed` 1, `StopFailed` 2, `PullFailed` 3, `NotFound` 4.
pub open spec fn error_parts(e: DockerError) -> (int, Seq<char>) {
    match e {
        DockerError::NotAvailable(m) => (0, m@),
        DockerError::StartFailed(m) => (1, m@),
        DockerError::StopFailed(m) => (2, m@),
        DockerError::PullFailed(m) => (3, m@),
        DockerError::NotFound(m) => (4, m@),
    }
}

impl DockerContainer {
    /// The first step of starting the container.
    pub fn first_start_step() -> (s: StartStep)
        ensures
            s == StartStep::CheckDocker,
    {
        StartStep::CheckDocker
    }

    /// Take the outcome of start step `step`: a missing Docker, a failed
    /// pull, a failed run or a readiness timeout ends the start with its
    /// error; a successful run records the container's id, the trimmed
    /// output of `docker run`; the id changes at no other step.
    pub fn advance_start(&mut self, step: StartStep, outcome: StartOutcome) -> (next: Result<
        Option<StartStep>,
        DockerError,
    >)
        requires
            outcome_fits(step, outcome),
        ensures
            final(self).config() == old(self).config(),
            match next {
                Ok(s) => start_transition(old(self).config(), step, outcome) == Ok::<
                    Option<StartStep>,
                    (int, Seq<char>),
                >(s),
                Err(e) => start_transition(old(self).config(), step, outcome) == Err::<
                    Option<StartStep>,
                    (int, Seq<char>),
                >(error_parts(e)),
            },
            match (step, outcome) {
                (StartStep::Run, StartOutcome::Command(Ok(out))) => final(self).id() == Some(
                    trimmed(out@),
                ),
                _ => final(self).id() == old(self).id(),
            },
    {
        match outcome {
            StartOutcome::Available(true) => Ok(Some(StartStep::Pull)),
            StartOutcome::Available(false) => Err(Self::docker_missing_error()),
            StartOutcome::Command(Ok(out)) => match step {
                StartStep::Pull => Ok(Some(StartStep::Run)),
                _ => {
                    self.record_started(out.as_str());
                    Ok(Some(StartStep::WaitReady))
                },
            },
            StartOutcome::Command(Err(m)) => match step {
                StartStep::Pull => Err(DockerError::PullFailed(m)),
                _ => Err(DockerError::StartFailed(m)),
            },
            StartOutcome::Ready(true) => Ok(None),
            StartOutcome::Ready(false) => Err(self.readiness_timeout_error()),
        }
    }
}

/// Law: a start runs its steps in order (check Docker, pull, run, wait),
/// each only after the one before succeeded, and ends started exactly when
/// the last one succeeded; any failure ends it with that step's error.
pub proof fn lemma_start_steps_in_order(config: ContainerConfig, out: String, m: String)
    ensures
        start_transition(config, StartStep::CheckDocker, StartOutcome::Available(true)) == Ok::<
            Option<StartStep>,
            (int, Seq<char>),
        >(Some(StartStep::Pull)),
        start_transition(config, StartStep::Pull, StartOutcome::Command(Ok(out))) == Ok::<
            Option<StartStep>,
            (int, Seq<char>),
        >(Some(StartStep::Run)),
        start_transition(config, StartStep::Run, StartOutcome::Command(Ok(out))) == Ok::<
            Option<StartStep>,
            (int, Seq<char>),
        >(Some(StartStep::WaitReady)),
        start_transition(config, StartStep::WaitReady, StartOutcome::Ready(true)) == Ok::<
            Option<StartStep>,
            (int, Seq<char>),
        >(None),
        start_transition(config, StartStep::CheckDocker, StartOutcome::Available(false)) is Err,
        start_transition(config, StartStep::Pull, StartOutcome::Command(Err(m))) is Err,
        start_transition(config, StartStep::Run, StartOutcome::Command(Err(m))) is Err,
        start_transition(config, StartStep::WaitReady, StartOutcome::Ready(false)) is Err,
{
}

/// A fresh random UUID in its hyphenated text form.
///
/// Calls `uuid::Uuid::new_v4` and renders it with `to_string`; uuid's
/// `Display` writes the 36-character hyphenated form, with hyphens at
/// positions 8, 13, 18 and 23. The value itself is random and not named.
#[verifier::external_body]
fn new_uuid_text() -> (s: String)
    ensures
        s@.len() == 36,
        s@[8] == '-' && s@[13] == '-' && s@[18] == '-' && s@[23] == '-',
{
    uuid::Uuid::new_v4().to_string()
}

/// `prefix` followed by `id`.
fn prefixed(prefix: &str, id: &str) -> (s: String)
    ensures
        s@ == prefix@ + id@,
{
    let mut s = String::from_str(prefix);
    s.append(id);
    s
}

/// Postgres test container helper.
pub struct PostgresContainer;

impl PostgresContainer {
    /// Postgres 15 named `armature-test-postgres-{id}`, with the database and
    /// credentials in its environment, port 5432 mapped, a ten-second wait.
    pub fn config_with_id(database: &str, username: &str, password: &str, id: &str) -> (c:
        ContainerConfig)
        ensures
            c.image@ == "postgres"@,
            c.tag@ == "15"@,
            c.name matches Some(n) && n@ == "armature-test-postgres-"@ + id@,
            c.env@ == seq![
                ("POSTGRES_DB"@, database@),
                ("POSTGRES_USER"@, username@),
                ("POSTGRES_PASSWORD"@, password@),
            ],
            c.ports@ == seq![(5432u16, 5432u16)],
            c.wait_timeout_secs == 10,
    {
        proof {
            reveal_strlit("POSTGRES_DB");
            reveal_strlit("POSTGRES_USER");
            reveal_strlit("POSTGRES_PASSWORD");
            assert("POSTGRES_DB"@.len() == 11);
            assert("POSTGRES_USER"@.len() == 13);
            assert("POSTGRES_PASSWORD"@.len() == 17);
        }
        let name = prefixed("armature-test-postgres-", id);
        let c = ContainerConfig::new("postgres", "15").with_name(name.as_str()).with_env(
            "POSTGRES_DB",
            database,
        );
        assert(c.env@ =~= seq![("POSTGRES_DB"@, database@)]);
        let c = c.with_env("POSTGRES_USER", username);
        assert(c.env@ =~= seq![("POSTGRES_DB"@, database@), ("POSTGRES_USER"@, username@)]);
        let c = c.with_env("POSTGRES_PASSWORD", password);
        assert(c.env@ =~= seq![
            ("POSTGRES_DB"@, database@),
            ("POSTGRES_USER"@, username@),
            ("POSTGRES_PASSWORD"@, password@),
        ]);
        let c = c.with_port(5432, 5432);
        assert(c.ports@ =~= seq![(5432u16, 5432u16)]);
        c.with_wait_timeout(10)
    }

    /// Create a Postgres test container config with a fresh random name.
    pub fn config(database: &str, username: &str, password: &str) -> (c: ContainerConfig)
        ensures
            c.name matches Some(n) && exists|id: Seq<char>|
                #![auto]
                id.len() == 36 && n@ == "armature-test-postgres-"@ + id,
            c.image@ == "postgres"@,
            c.tag@ == "15"@,
            c.env@ == seq![
                ("POSTGRES_DB"@, database@),
                ("POSTGRES_USER"@, username@),
                ("POSTGRES_PASSWORD"@, password@),
            ],
            c.ports@ == seq![(5432u16, 5432u16)],
            c.wait_timeout_secs == 10,
    {
        let id = new_uuid_text();
        Self::config_with_id(database, username, password, id.as_str())
    }
}

/// Redis test container helper.
pub struct RedisContainer;

impl RedisContainer {
    /// Redis 7 named `armature-test-redis-{id}`, port 6379 mapped, a
    /// five-second wait.
    pub fn config_with_id(id: &str) -> (c: ContainerConfig)
        ensures
            c.image@ == "redis"@,
            c.tag@ == "7"@,
            c.name matches Some(n) && n@ == "armature-test-redis-"@ + id@,
            c.env@ == Seq::<(Seq<char>, Seq<char>)>::empty(),
            c.ports@ == seq![(6379u16, 6379u16)],
            c.wait_timeout_secs == 5,
    {
        let name = prefixed("armature-test-redis-", id);
        let c = ContainerConfig::new("redis", "7").with_name(name.as_str()).with_port(6379, 6379);
        assert(c.ports@ =~= seq![(6379u16, 6379u16)]);
        c.with_wait_timeout(5)
    }

    /// Create a Redis test container config with a fresh random name.
    pub fn config() -> (c: ContainerConfig)
        ensures
            c.name matches Some(n) && exists|id: Seq<char>|
                #![auto]
                id.len() == 36 && n@ == "armature-test-redis-"@ + id,
            c.image@ == "redis"@,
            c.tag@ == "7"@,
            c.env@ == Seq::<(Seq<char>, Seq<char>)>::empty(),
            c.ports@ == seq![(6379u16, 6379u16)],
            c.wait_timeout_secs == 5,
    {
        let id = new_uuid_text();
        Self::config_with_id(id.as_str())
    }
}

/// MongoDB test container helper.
pub struct MongoContainer;

impl MongoContainer {
    /// Mongo 7 named `armature-test-mongo-{id}`, the database in its
    /// environment, port 27017 mapped, a ten-second wait.
    pub fn config_with_id(database: &str, id: &str) -> (c: ContainerConfig)
        ensures
            c.image@ == "mongo"@,
            c.tag@ == "7"@,
            c.name matches Some(n) && n@ == "armature-test-mongo-"@ + id@,
            c.env@ == seq![("MONGO_INITDB_DATABASE"@, database@)],
            c.ports@ == seq![(27017u16, 27017u16)],
            c.wait_timeout_secs == 10,
    {
        let name = prefixed("armature-test-mongo-", id);
        let c = ContainerConfig::new("mongo", "7").with_name(name.as_str()).with_env(
            "MONGO_INITDB_DATABASE",
            database,
        );
        assert(c.env@ =~= seq![("MONGO_INITDB_DATABASE"@, database@)]);
        let c = c.with_port(27017, 27017);
        assert(c.ports@ =~= seq![(27017u16, 27017u16)]);
        c.with_wait_timeout(10)
    }

    /// Create a MongoDB test container config with a fresh random name.
    pub fn config(database: &str) -> (c: ContainerConfig)
        ensures
            c.name matches Some(n) && exists|id: Seq<char>|
                #![auto]
                id.len() == 36 && n@ == "armature-test-mongo-"@ + id,
            c.image@ == "mongo"@,
            c.tag@ == "7"@,
            c.env@ == seq![("MONGO_INITDB_DATABASE"@, database@)],
            c.ports@ == seq![(27017u16, 27017u16)],
            c.wait_timeout_secs == 10,
    {
        let id = new_uuid_text();
        Self::config_with_id(database, id.as_str())
    }
}

} // verus!
