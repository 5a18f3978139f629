//! Dev mode configuration: the command line that spawns a frontend dev server,
//! and what `spawn` needs to run it.

use std::path::PathBuf;
use std::time::Duration;
use vstd::prelude::*;

use crate::text::{decimal, port_string};

verus! {

/// `std::path::PathBuf`, carried through unchanged to the process spawner.
#[verifier::external_type_specification]
#[verifier::external_body]
pub struct ExPathBuf(PathBuf);

/// `Duration::clone`: `Duration` is `Copy`, so its clone is the same value.
pub assume_specification[ <Duration as Clone>::clone ](d: &Duration) -> (r: Duration)
    ensures
        r == *d,
;

/// `PathBuf::clone`: nothing is stated of the copy (a `PathBuf` has no model here).
pub assume_specification[ <PathBuf as Clone>::clone ](p: &PathBuf) -> PathBuf;

/// The `Duration` that `Duration::from_secs(secs)` returns.
pub uninterp spec fn duration_of_secs(secs: u64) -> Duration;

/// Calls `Duration::from_secs`; the contract says only that the result is the
/// value named `duration_of_secs(secs)`, which depends on `secs` alone.
#[verifier::external_body]
fn duration_from_secs(secs: u64) -> (d: Duration)
    ensures
        d == duration_of_secs(secs),
{
    Duration::from_secs(secs)
}

/// Whether to inject a dev tool's host/port flags into the spawn command.
#[derive(Debug, Clone, Copy)]
enum FlagStyle {
    /// No flags appended (tool-neutral).
    Neutral,
    /// Vite: append `--host <host> --port <port> --strictPort`.
    Vite,
}

/// The character sequences of a list of strings.
pub open spec fn strings_view(v: Seq<String>) -> Seq<Seq<char>> {
    v.map_values(|s: String| s@)
}

/// The environment map that a list of entries denotes: a later entry for a
/// key overrides an earlier one.
pub open spec fn env_map(s: Seq<(String, String)>) -> Map<Seq<char>, Seq<char>>
    decreases s.len(),
{
    if s.len() == 0 {
        Map::empty()
    } else {
        env_map(s.drop_last()).insert(s.last().0@, s.last().1@)
    }
}

/// The entries of `s` whose key is not `k`, in order.
pub open spec fn drop_key(s: Seq<(String, String)>, k: Seq<char>) -> Seq<(String, String)>
    decreases s.len(),
{
    if s.len() == 0 {
        s
    } else if s.last().0@ == k {
        drop_key(s.drop_last(), k)
    } else {
        drop_key(s.drop_last(), k).push(s.last())
    }
}

/// No key occurs twice in a list of environment entries.
pub open spec fn keys_distinct(s: Seq<(String, String)>) -> bool
    decreases s.len(),
{
    s.len() == 0 || (keys_distinct(s.drop_last()) && !env_map(s.drop_last()).dom().contains(
        s.last().0@,
    ))
}

/// Dropping a key's entries removes exactly that key from the map.
proof fn lemma_drop_key(s: Seq<(String, String)>, k: Seq<char>)
    ensures
        env_map(drop_key(s, k)) == env_map(s).remove(k),
        keys_distinct(s) ==> keys_distinct(drop_key(s, k)),
    decreases s.len(),
{
    if s.len() == 0 {
        assert(env_map(s).remove(k) =~= env_map(s));
    } else {
        lemma_drop_key(s.drop_last(), k);
        let d = drop_key(s.drop_last(), k);
        if s.last().0@ == k {
            assert(env_map(s).remove(k) =~= env_map(s.drop_last()).remove(k));
        } else {
            assert(d.push(s.last()).drop_last() =~= d);
            assert(env_map(drop_key(s, k)) =~= env_map(s).remove(k));
        }
    }
}

/// What a [`DevConfig`] holds.
pub struct DevConfigView {
    pub command: Seq<Seq<char>>,
    pub cwd: Option<PathBuf>,
    pub env: Map<Seq<char>, Seq<char>>,
    pub host: Seq<char>,
    pub port: u16,
    pub ready_timeout: Duration,
    /// Whether Vite's `--host/--port/--strictPort` flags are appended.
    pub vite: bool,
}

/// The default host the dev server binds.
pub open spec fn default_host() -> Seq<char> {
    "127.0.0.1"@
}

/// The default port the dev server listens on.
pub open spec fn default_port() -> u16 {
    5173
}

/// The default readiness timeout: sixty seconds.
pub open spec fn default_ready_timeout() -> Duration {
    duration_of_secs(60)
}

/// The full argv: the command, followed for Vite by the pinned host and port.
pub open spec fn command_line_of(c: DevConfigView) -> Seq<Seq<char>> {
    if c.vite {
        c.command + seq!["--host"@, c.host, "--port"@, decimal(c.port as nat), "--strictPort"@]
    } else {
        c.command
    }
}

/// Configuration for spawning a frontend dev server.
#[derive(Debug, Clone)]
pub struct DevConfig {
    command: Vec<String>,
    cwd: Option<PathBuf>,
    env: Vec<(String, String)>,
    host: String,
    port: u16,
    ready_timeout: Duration,
    flags: FlagStyle,
}

impl View for DevConfig {
    type V = DevConfigView;

    closed spec fn view(&self) -> DevConfigView {
        DevConfigView {
            command: strings_view(self.command@),
            cwd: self.cwd,
            env: env_map(self.env@),
            host: self.host@,
            port: self.port,
            ready_timeout: self.ready_timeout,
            vite: self.flags is Vite,
        }
    }
}

/// Copy of a list of strings.
fn clone_strings(v: &Vec<String>) -> (r: Vec<String>)
    ensures
        strings_view(r@) == strings_view(v@),
{
    let mut r: Vec<String> = Vec::new();
    let n = v.len();
    for i in 0..n
        invariant
            n == v@.len(),
            r@.len() == i,
            forall|j: int| 0 <= j < i ==> #[trigger] r@[j]@ == v@[j]@,
    {
        r.push(v[i].clone());
    }
    proof {
        assert(strings_view(r@) =~= strings_view(v@));
    }
    r
}

/// Set `key` to `value`: every earlier entry for `key` is dropped and the new
/// entry appended.
fn insert_env(env: &mut Vec<(String, String)>, key: String, value: String)
    ensures
        env_map(final(env)@) == env_map(old(env)@).insert(key@, value@),
        keys_distinct(old(env)@) ==> keys_distinct(final(env)@),
{
    let ghost old_env = env@;
    let ghost k = key@;
    let n = env.len();
    let mut kept: Vec<(String, String)> = Vec::new();
    for i in 0..n
        invariant
            n == old_env.len(),
            env@ == old_env,
            k == key@,
            kept@ == drop_key(old_env.take(i as int), k),
    {
        proof {
            assert(old_env.take(i + 1).drop_last() =~= old_env.take(i as int));
        }
        if env[i].0 != key {
            let e = (env[i].0.clone(), env[i].1.clone());
            kept.push(e);
        }
    }
    proof {
        assert(old_env.take(n as int) =~= old_env);
        lemma_drop_key(old_env, k);
    }
    let ghost d = kept@;
    kept.push((key, value));
    proof {
        assert(kept@.drop_last() =~= d);
    }
    *env = kept;
}

impl DevConfig {
    /// The environment holds no key twice (as the map it models never does).
    pub closed spec fn well_formed(&self) -> bool {
        keys_distinct(self.env@)
    }

    /// Tool-neutral config for the given command (program + args). No dev-tool
    /// flags are injected; include any flags you need in `command` yourself.
    ///
    /// Defaults: host `127.0.0.1`, port `5173`, readiness timeout 60s.
    pub fn new(command: Vec<String>) -> (c: Self)
        ensures
            c@.command == strings_view(command@),
            c@.cwd is None,
            c@.env == Map::<Seq<char>, Seq<char>>::empty(),
            c@.host == default_host(),
            c@.port == default_port(),
            c@.ready_timeout == default_ready_timeout(),
            c@.host == "127.0.0.1"@,
            c@.port == 5173,
            c@.ready_timeout == duration_of_secs(60),
            !c@.vite,
            c.well_formed(),
    {
        let c = DevConfig {
            command,
            cwd: None,
            env: Vec::new(),
            host: String::from_str("127.0.0.1"),
            port: 5173,
            ready_timeout: duration_from_secs(60),
            flags: FlagStyle::Neutral,
        };
        c
    }

    /// Preset for Vite: runs `pnpm dev` and injects `--host <host> --port <port>
    /// --strictPort` at spawn time.
    pub fn vite() -> (c: Self)
        ensures
            c@.command == seq!["pnpm"@, "dev"@],
            c@.cwd is None,
            c@.env == Map::<Seq<char>, Seq<char>>::empty(),
            c@.host == default_host(),
            c@.port == default_port(),
            c@.ready_timeout == default_ready_timeout(),
            c@.host == "127.0.0.1"@,
            c@.port == 5173,
            c@.ready_timeout == duration_of_secs(60),
            c@.vite,
            c.well_formed(),
    {
        let mut command: Vec<String> = Vec::new();
        command.push(String::from_str("pnpm"));
        command.push(String::from_str("dev"));
        proof {
            assert(strings_view(command@) =~= seq!["pnpm"@, "dev"@]);
        }
        let c = Self::new(command);
        DevConfig { flags: FlagStyle::Vite, ..c }
    }
}

impl DevConfig {
    /// Override the command (program + args), e.g. `["pnpm", "dev"]`.
    pub fn command(self, parts: Vec<String>) -> (c: Self)
        ensures
            c@ == (DevConfigView { command: strings_view(parts@), ..self@ }),
            self.well_formed() ==> c.well_formed(),
    {
        DevConfig { command: parts, ..self }
    }

    /// Working directory to run the command in (e.g. `"frontend"`).
    pub fn cwd(self, dir: PathBuf) -> (c: Self)
        ensures
            c@ == (DevConfigView { cwd: Some(dir), ..self@ }),
            self.well_formed() ==> c.well_formed(),
    {
        DevConfig { cwd: Some(dir), ..self }
    }

    /// Add an environment variable for the child process; a later value for the
    /// same key replaces an earlier one.
    pub fn env(self, key: String, value: String) -> (c: Self)
        ensures
            c@ == (DevConfigView { env: self@.env.insert(key@, value@), ..self@ }),
            self.well_formed() ==> c.well_formed(),
    {
        let mut c = self;
        insert_env(&mut c.env, key, value);
        c
    }

    /// Set the host the dev server binds, and the readiness-probe / proxy target.
    pub fn host(self, host: String) -> (c: Self)
        ensures
            c@ == (DevConfigView { host: host@, ..self@ }),
            self.well_formed() ==> c.well_formed(),
    {
        DevConfig { host, ..self }
    }

    /// Set the port the dev server listens on.
    pub fn port(self, port: u16) -> (c: Self)
        ensures
            c@ == (DevConfigView { port, ..self@ }),
            self.well_formed() ==> c.well_formed(),
    {
        DevConfig { port, ..self }
    }

    /// How long `spawn` waits for the dev server to accept connections.
    pub fn ready_timeout(self, timeout: Duration) -> (c: Self)
        ensures
            c@ == (DevConfigView { ready_timeout: timeout, ..self@ }),
            self.well_formed() ==> c.well_formed(),
    {
        DevConfig { ready_timeout: timeout, ..self }
    }

    /// Full argv for the dev command (program + args), including any injected
    /// dev-tool flags (see [`DevConfig::vite`]).
    pub fn command_line(&self) -> (argv: Vec<String>)
        ensures
            strings_view(argv@) == command_line_of(self@),
    {
        let mut argv = clone_strings(&self.command);
        let ghost base = strings_view(argv@);
        match self.flags {
            FlagStyle::Vite => {
                argv.push(String::from_str("--host"));
                argv.push(self.host.clone());
                argv.push(String::from_str("--port"));
                argv.push(port_string(self.port));
                argv.push(String::from_str("--strictPort"));
                proof {
                    assert(strings_view(argv@) =~= base + seq![
                        "--host"@,
                        self.host@,
                        "--port"@,
                        decimal(self.port as nat),
                        "--strictPort"@,
                    ]);
                }
            },
            FlagStyle::Neutral => {},
        }
        argv
    }
}

/// Why a dev server could not be spawned before any process was started.
#[derive(Debug, Clone, Copy, PartialEq, Eq)]
pub enum SpawnError {
    /// The command line is empty: there is no program to run.
    EmptyCommand,
}

/// What `spawn` runs and then waits for: the program, its arguments, where and
/// with which extra environment it runs, and the address that must start
/// accepting connections within the readiness timeout.
#[derive(Debug)]
pub struct SpawnPlan {
    pub program: String,
    pub args: Vec<String>,
    pub cwd: Option<PathBuf>,
    pub env: Vec<(String, String)>,
    pub host: String,
    pub port: u16,
    pub ready_timeout: Duration,
}

impl DevConfig {
    /// Split the full command line into program and arguments and hand over
    /// everything the spawned process needs; fails when the configured command
    /// is empty (injected dev-tool flags are no program).
    pub fn spawn_plan(self) -> (r: Result<SpawnPlan, SpawnError>)
        ensures
            r is Err <==> self@.command.len() == 0,
            r matches Ok(p) ==> {
                &&& seq![p.program@] + strings_view(p.args@) == command_line_of(self@)
                &&& p.cwd == self@.cwd
                &&& env_map(p.env@) == self@.env
                &&& (self.well_formed() ==> keys_distinct(p.env@))
                &&& p.host@ == self@.host
                &&& p.port == self@.port
                &&& p.ready_timeout == self@.ready_timeout
            },
    {
        if self.command.len() == 0 {
            return Err(SpawnError::EmptyCommand);
        }
        let mut argv = self.command_line();
        proof {
            assert(strings_view(argv@).len() == argv@.len());
            assert(self@.command.len() == self.command@.len());
            assert(command_line_of(self@).len() >= self@.command.len());
        }
        let ghost full = argv@;
        let program = argv.remove(0);
        proof {
            assert(strings_view(full) =~= seq![program@] + strings_view(argv@));
        }
        let DevConfig { command: _, cwd, env, host, port, ready_timeout, flags: _ } = self;
        Ok(SpawnPlan { program, args: argv, cwd, env, host, port, ready_timeout })
    }
}

/// The Vite preset pins the dev server to the configured host and port: right
/// after the command come `--host <host>` and `--port <port>`, then
/// `--strictPort`, so the readiness probe and the proxy target reach it.
pub proof fn lemma_vite_pins_host_and_port(c: DevConfigView)
    requires
        c.vite,
    ensures
        command_line_of(c).len() == c.command.len() + 5,
        command_line_of(c).subrange(0, c.command.len() as int) == c.command,
        command_line_of(c)[c.command.len() as int] == "--host"@,
        command_line_of(c)[c.command.len() + 1int] == c.host,
        command_line_of(c)[c.command.len() + 2int] == "--port"@,
        command_line_of(c)[c.command.len() + 3int] == decimal(c.port as nat),
        command_line_of(c)[c.command.len() + 4int] == "--strictPort"@,
{
    assert(command_line_of(c).subrange(0, c.command.len() as int) =~= c.command);
}

/// A tool-neutral configuration runs its command exactly as given.
pub proof fn lemma_neutral_injects_no_flags(c: DevConfigView)
    requires
        !c.vite,
    ensures
        command_line_of(c) == c.command,
{
}

/// Setting an environment variable twice keeps only the later value.
pub proof fn lemma_env_later_value_wins(
    env: Map<Seq<char>, Seq<char>>,
    key: Seq<char>,
    first: Seq<char>,
    second: Seq<char>,
)
    ensures
        env.insert(key, first).insert(key, second) == env.insert(key, second),
{
    assert(env.insert(key, first).insert(key, second) =~= env.insert(key, second));
}

} // verus!
