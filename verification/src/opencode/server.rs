//! OpenCode server lifecycle: reusing a running server, starting one, waiting for it and stopping
//! it.

use vstd::prelude::*;

use crate::number;
use crate::number::decimal_text;
use crate::opencode::client;
use crate::opencode::client::server_url;
use crate::opencode::error::OpenCodeError;
use crate::opencode::types::ServerInfo;
use crate::text;
use crate::text::{chars_of, extend_str, string_of};

verus! {

broadcast use vstd::string::group_string_axioms;

/// How often to poll the server during startup health checks, in milliseconds.
pub const HEALTH_POLL_INTERVAL_MS: u64 = 500;

/// Maximum time to wait for the server to become healthy after spawning, in milliseconds.
pub const STARTUP_TIMEOUT_MS: u64 = 30_000;

/// How many health checks a started server gets.
pub const MAX_ATTEMPTS: u32 = 60;

/// The environment variable that tells a started server to ask before edits.
pub const PERMISSION_VARIABLE: &'static str = "OPENCODE_PERMISSION";

/// Its value.
pub const PERMISSION_VALUE: &'static str = "{\"edit\":\"ask\"}";

/// How far the start of a server has come.
#[derive(Debug, Clone, Copy, PartialEq, Eq, Structural)]
pub enum Startup {
    /// Looking for a server that runs already.
    Probing,
    /// Starting a process.
    Spawning,
    /// Pausing before a health check; `attempt` of them are done.
    Pausing { attempt: u32 },
    /// In a health check, the `attempt`-th.
    Checking { attempt: u32 },
    /// A server is there. `managed` says that it was started here.
    Ready { managed: bool },
    /// There is no server.
    Failed,
}

/// What is to be done next.
#[derive(Debug, Clone, PartialEq, Eq)]
pub enum StartupAction {
    /// Check whether the server answers.
    CheckHealth,
    /// Start the server process with these arguments.
    Spawn { args: Vec<String> },
    /// Wait.
    Sleep { ms: u64 },
    /// Done: the server is there.
    Done(ServerInfo),
    /// Give up.
    GiveUp(OpenCodeError),
}

/// What came of it.
#[derive(Debug, Clone, PartialEq, Eq)]
pub enum StartupEvent {
    /// The server answered the health check, or did not.
    Health(bool),
    /// The process was started.
    Spawned,
    /// The process could not be started, for the reason given.
    SpawnFailed(String),
    /// The wait is over.
    Slept,
}

/// The startup after an event.
pub open spec fn startup_after(state: Startup, event: StartupEvent) -> Startup {
    match (state, event) {
        (Startup::Probing, StartupEvent::Health(true)) => Startup::Ready { managed: false },
        (Startup::Probing, StartupEvent::Health(false)) => Startup::Spawning,
        (Startup::Spawning, StartupEvent::Spawned) => Startup::Pausing { attempt: 0 },
        (Startup::Spawning, StartupEvent::SpawnFailed(_)) => Startup::Failed,
        (Startup::Pausing { attempt }, StartupEvent::Slept) => if attempt < MAX_ATTEMPTS {
            Startup::Checking { attempt: (attempt + 1) as u32 }
        } else {
            Startup::Failed
        },
        (Startup::Checking { attempt }, StartupEvent::Health(true)) => Startup::Ready {
            managed: true,
        },
        (Startup::Checking { attempt }, StartupEvent::Health(false)) => if attempt < MAX_ATTEMPTS {
            Startup::Pausing { attempt }
        } else {
            Startup::Failed
        },
        _ => state,
    }
}

/// The arguments that the server process is started with.
pub open spec fn serve_args(port: u16) -> Seq<Seq<char>> {
    seq!["serve"@, "--port"@, number::decimal(port as nat)]
}

/// What is said where the process at `path` could not be started.
pub open spec fn spawn_failure(path: Seq<char>, reason: Seq<char>) -> Seq<char> {
    "Failed to run '"@ + path + "': "@ + reason + ". Is opencode installed?"@
}

/// Whether `action` is what a startup that reached `state` by `event` asks for.
pub open spec fn asks_for(
    state: Startup,
    event: StartupEvent,
    port: u16,
    path: Seq<char>,
    action: StartupAction,
) -> bool {
    match state {
        Startup::Probing => action == StartupAction::CheckHealth,
        Startup::Checking { .. } => action == StartupAction::CheckHealth,
        Startup::Spawning => action is Spawn && text::strings(action->args@) == serve_args(port),
        Startup::Pausing { .. } => action == (StartupAction::Sleep { ms: HEALTH_POLL_INTERVAL_MS }),
        Startup::Ready { managed } => action is Done && action->Done_0.port == port
            && action->Done_0.url@ == client::local_url(port) && action->Done_0.managed == managed,
        Startup::Failed => action is GiveUp && match event {
            StartupEvent::SpawnFailed(reason) => action->GiveUp_0 is SpawnFailed
                && action->GiveUp_0->SpawnFailed_0@ == spawn_failure(path, reason@),
            _ => action->GiveUp_0 == OpenCodeError::Timeout,
        },
    }
}

/// The start of a server on `port`, by the program at `path`.
pub struct ServerStart {
    pub port: u16,
    pub path: String,
    pub state: Startup,
}

fn failed_to_run(path: &str, reason: &str) -> (r: String)
    ensures
        r@ == spawn_failure(path@, reason@),
{
    let mut t = chars_of("Failed to run '");
    extend_str(&mut t, path);
    extend_str(&mut t, "': ");
    extend_str(&mut t, reason);
    extend_str(&mut t, ". Is opencode installed?");
    string_of(&t)
}

fn args_for(port: u16) -> (r: Vec<String>)
    ensures
        text::strings(r@) == serve_args(port),
{
    let serve = chars_of("serve");
    let flag = chars_of("--port");
    let number = decimal_text(port as u64);
    let mut v: Vec<String> = Vec::new();
    v.push(string_of(&serve));
    v.push(string_of(&flag));
    v.push(string_of(&number));
    proof {
        assert(text::strings(v@) =~= serve_args(port));
    }
    v
}

impl ServerStart {
    /// Begins a start: first comes a look whether a server is already listening on `port`.
    pub fn new(port: u16, path: String) -> (r: (ServerStart, StartupAction))
        ensures
            r.0.port == port,
            r.0.path@ == path@,
            r.0.state == Startup::Probing,
            r.1 == StartupAction::CheckHealth,
    {
        (ServerStart { port, path, state: Startup::Probing }, StartupAction::CheckHealth)
    }

    /// Takes what came of the last action and says what to do next.
    ///
    /// A server that answers at once is reused without starting one. Otherwise a process is
    /// started, and checked at intervals until it answers or the time is up.
    pub fn step(&mut self, event: StartupEvent) -> (r: StartupAction)
        requires
            !(old(self).state is Failed),
        ensures
            final(self).port == old(self).port,
            final(self).path == old(self).path,
            final(self).state == startup_after(old(self).state, event),
            asks_for(final(self).state, event, old(self).port, old(self).path@, r),
    {
        match self.state {
            Startup::Probing => match event {
                StartupEvent::Health(true) => {
                    self.state = Startup::Ready { managed: false };
                },
                StartupEvent::Health(false) => {
                    self.state = Startup::Spawning;
                },
                _ => {},
            },
            Startup::Spawning => match event {
                StartupEvent::Spawned => {
                    self.state = Startup::Pausing { attempt: 0 };
                },
                StartupEvent::SpawnFailed(reason) => {
                    self.state = Startup::Failed;
                    let message = failed_to_run(self.path.as_str(), reason.as_str());
                    return StartupAction::GiveUp(OpenCodeError::SpawnFailed(message));
                },
                _ => {},
            },
            Startup::Pausing { attempt } => match event {
                StartupEvent::Slept => {
                    self.state = if attempt < MAX_ATTEMPTS {
                        Startup::Checking { attempt: attempt + 1 }
                    } else {
                        Startup::Failed
                    };
                },
                _ => {},
            },
            Startup::Checking { attempt } => match event {
                StartupEvent::Health(true) => {
                    self.state = Startup::Ready { managed: true };
                },
                StartupEvent::Health(false) => {
                    self.state = if attempt < MAX_ATTEMPTS {
                        Startup::Pausing { attempt }
                    } else {
                        Startup::Failed
                    };
                },
                _ => {},
            },
            Startup::Ready { .. } => {},
            Startup::Failed => {},
        }
        match self.state {
            Startup::Probing | Startup::Checking { .. } => StartupAction::CheckHealth,
            Startup::Spawning => StartupAction::Spawn { args: args_for(self.port) },
            Startup::Pausing { .. } => StartupAction::Sleep { ms: HEALTH_POLL_INTERVAL_MS },
            Startup::Ready { managed } => StartupAction::Done(
                ServerInfo { port: self.port, url: server_url(self.port), managed },
            ),
            Startup::Failed => StartupAction::GiveUp(OpenCodeError::Timeout),
        }
    }
}

/// The startup after a pause and a health check that the server did not answer.
pub open spec fn after_silence(state: Startup) -> Startup {
    startup_after(
        startup_after(state, StartupEvent::Slept),
        StartupEvent::Health(false),
    )
}

/// The startup after `n` such rounds.
pub open spec fn after_rounds(state: Startup, n: nat) -> Startup
    decreases n,
{
    if n == 0 {
        state
    } else {
        after_silence(after_rounds(state, (n - 1) as nat))
    }
}

/// A started server that never answers is given up on when the startup time is over, and not
/// before.
pub proof fn law_waits_for_the_startup_time(n: nat)
    ensures
        n * HEALTH_POLL_INTERVAL_MS < STARTUP_TIMEOUT_MS ==> after_rounds(
            Startup::Pausing { attempt: 0 },
            n,
        ) == (Startup::Pausing { attempt: n as u32 }),
        n * HEALTH_POLL_INTERVAL_MS >= STARTUP_TIMEOUT_MS ==> after_rounds(
            Startup::Pausing { attempt: 0 },
            n,
        ) == Startup::Failed,
    decreases n,
{
    if n > 0 {
        law_waits_for_the_startup_time((n - 1) as nat);
    }
}

/// A server counts as managed exactly where a process was started for it: one that answers the
/// first look is reused.
pub proof fn law_only_a_started_server_is_managed(state: Startup, event: StartupEvent)
    requires
        !(state is Ready),
    ensures
        startup_after(state, event) == (Startup::Ready { managed: false }) ==> state
            == Startup::Probing,
        startup_after(state, event) == (Startup::Ready { managed: true }) ==> state is Checking,
        state is Probing ==> !(startup_after(state, event) is Pausing) && !(startup_after(
            state,
            event,
        ) is Checking),
{
}

/// Whether stopping ends the server process: only a server that was started here is ended; others
/// are left untouched.
pub fn ends_process(info: &ServerInfo) -> (r: bool)
    ensures
        r == info.managed,
{
    info.managed
}

/// The steps of a start: a server that answers the first look is used as it is; else a process is
/// started on the port, and after each half second it is asked whether it is there, sixty times at
/// most. One that answers is the one to use; one that cannot be started, or never answers, is given
/// up.
pub proof fn law_steps_of_a_start(
    attempt: u32,
    port: u16,
    path: Seq<char>,
    reason: String,
    event: StartupEvent,
    action: StartupAction,
    to: Startup,
)
    requires
        asks_for(to, event, port, path, action),
    ensures
        startup_after(Startup::Probing, StartupEvent::Health(true)) == (Startup::Ready {
            managed: false,
        }),
        startup_after(Startup::Probing, StartupEvent::Health(false)) is Spawning,
        startup_after(Startup::Spawning, StartupEvent::Spawned) == (Startup::Pausing { attempt: 0 }),
        startup_after(Startup::Spawning, StartupEvent::SpawnFailed(reason)) is Failed,
        attempt < 60 ==> startup_after(Startup::Pausing { attempt }, StartupEvent::Slept) == (
        Startup::Checking { attempt: (attempt + 1) as u32 }),
        attempt < 60 ==> startup_after(Startup::Checking { attempt }, StartupEvent::Health(false))
            == (Startup::Pausing { attempt }),
        attempt >= 60 ==> startup_after(
            Startup::Checking { attempt },
            StartupEvent::Health(false),
        ) is Failed,
        startup_after(Startup::Checking { attempt }, StartupEvent::Health(true)) == (
        Startup::Ready { managed: true }),
        to is Probing || to is Checking ==> action is CheckHealth,
        to is Spawning ==> action is Spawn && text::strings(action->args@) == seq![
            "serve"@,
            "--port"@,
            number::decimal(port as nat),
        ],
        to is Pausing ==> action == (StartupAction::Sleep { ms: 500 }),
        to matches Startup::Ready { managed } ==> action is Done && action->Done_0.port == port
            && action->Done_0.managed == managed && action->Done_0.url@ == "http://127.0.0.1:"@
            + number::decimal(port as nat),
        to is Failed ==> action is GiveUp,
        to is Failed && !(event is SpawnFailed) ==> action->GiveUp_0 is Timeout,
        to is Failed ==> (event matches StartupEvent::SpawnFailed(why) ==> action->GiveUp_0
            is SpawnFailed && action->GiveUp_0->SpawnFailed_0@ == "Failed to run '"@ + path + "': "@
            + why@ + ". Is opencode installed?"@),
{
}

/// A started server that never answers is asked sixty times.
pub proof fn law_silent_server_is_asked_sixty_times(n: nat)
    ensures
        n < 60 ==> after_rounds(Startup::Pausing { attempt: 0 }, n) == (Startup::Pausing {
            attempt: n as u32,
        }),
        n >= 60 ==> after_rounds(Startup::Pausing { attempt: 0 }, n) == Startup::Failed,
    decreases n,
{
    if n > 0 {
        law_silent_server_is_asked_sixty_times((n - 1) as nat);
    }
}

/// The server is started with the wish to be asked before it edits, in a variable of its own.
pub proof fn law_server_asks_before_it_edits()
    ensures
        PERMISSION_VARIABLE@ == "OPENCODE_PERMISSION"@,
        PERMISSION_VALUE@ == "{\"edit\":\"ask\"}"@,
{
}

} // verus!
