//! The backend process: starting, stopping, cleaning up after a crash, and
//! logins to providers.

use vstd::prelude::*;

use crate::maps::TextMap;
use crate::text::{join2, text_eq, trim};
#[allow(unused_imports)]
use crate::text::{opt_view, trimmed, views};
#[allow(unused_imports)]
use crate::types::login_flag;
use crate::types::{login_flag_for_provider, LoginOutputEvent, LoginStatusEvent};

verus! {

// ---------------------------------------------------------------------------
// Health
// ---------------------------------------------------------------------------

/// How often a backend that should be running is probed.
pub const RUNNING_PROBES: u32 = 5;

/// How often a backend that has just been started is probed.
pub const STARTING_PROBES: u32 = 50;

/// Waiting for the backend to become healthy.
#[derive(Debug)]
pub struct HealthWait {
    left: u32,
    healthy: bool,
}

impl HealthWait {
    /// The probes that are left.
    pub closed spec fn probes_left(&self) -> nat {
        self.left as nat
    }

    /// The backend has been found healthy.
    pub closed spec fn found_healthy(&self) -> bool {
        self.healthy
    }

    /// A wait of that many probes.
    pub fn new(attempts: u32) -> (r: Self)
        ensures
            r.probes_left() == attempts,
            !r.found_healthy(),
    {
        HealthWait { left: attempts, healthy: false }
    }

    /// Another probe is due.
    pub fn wants_probe(&self) -> (r: bool)
        ensures
            r == (!self.found_healthy() && self.probes_left() > 0),
    {
        !self.healthy && self.left > 0
    }

    /// A probe has been made.
    pub fn probed(&mut self, healthy: bool)
        requires
            old(self).probes_left() > 0,
        ensures
            final(self).found_healthy() == healthy,
            final(self).probes_left() == old(self).probes_left() - 1,
    {
        self.left = self.left - 1;
        self.healthy = healthy;
    }

    /// The backend is healthy.
    pub fn is_healthy(&self) -> (r: bool)
        ensures
            r == self.found_healthy(),
    {
        self.healthy
    }
}

// ---------------------------------------------------------------------------
// Start and stop
// ---------------------------------------------------------------------------

/// A backend process.
#[derive(Debug, Clone, Copy, PartialEq, Eq, Structural)]
pub struct BackendProcess {
    pub pid: u32,
    pub port: u16,
}

/// The backend that is already running, after it has been checked: its port
/// where it still runs and is healthy, else it is forgotten.
pub fn reuse_backend(slot: &mut Option<BackendProcess>, usable: bool) -> (r: Option<u16>)
    ensures
        match *old(slot) {
            Some(process) => if usable {
                r == Some(process.port) && *final(slot) == *old(slot)
            } else {
                r is None && *final(slot) is None
            },
            None => r is None && *final(slot) is None,
        },
{
    match *slot {
        Some(process) => {
            if usable {
                Some(process.port)
            } else {
                *slot = None;
                None
            }
        },
        None => None,
    }
}

/// Where the backend's executable is.
#[derive(Debug)]
pub enum BinaryLookup {
    /// The path could not be found out; the error's text.
    Unknown(String),
    /// Nothing at this path.
    Missing(String),
    /// There.
    Present,
}

/// Why the executable cannot be run.
pub open spec fn binary_error(b: BinaryLookup) -> Option<Seq<char>> {
    match b {
        BinaryLookup::Unknown(e) => Some(e@),
        BinaryLookup::Missing(path) => Some("AI proxy backend binary not found at "@ + path@),
        BinaryLookup::Present => None,
    }
}

/// Fails where the executable cannot be run.
pub fn require_binary(binary: &BinaryLookup) -> (r: Result<(), String>)
    ensures
        r is Ok <==> binary_error(*binary) is None,
        r matches Err(e) ==> binary_error(*binary) == Some(e@),
{
    match binary {
        BinaryLookup::Unknown(e) => Err(e.clone()),
        BinaryLookup::Missing(path) => Err(
            join2("AI proxy backend binary not found at ", path.as_str()),
        ),
        BinaryLookup::Present => Ok(()),
    }
}

/// Keeps the process that has been started.
pub fn backend_started(slot: &mut Option<BackendProcess>, pid: u32, port: u16)
    ensures
        *final(slot) == Some(BackendProcess { pid, port }),
{
    *slot = Some(BackendProcess { pid, port });
}

/// The port of the backend that has been started, if it has become healthy.
pub fn backend_ready(port: u16, healthy: bool) -> (r: Result<u16, String>)
    ensures
        healthy ==> r == Ok::<u16, String>(port),
        !healthy ==> (r matches Err(e) && e@
            == "AI proxy backend started but did not become healthy in time"@),
{
    if healthy {
        Ok(port)
    } else {
        Err("AI proxy backend started but did not become healthy in time".to_owned())
    }
}

/// Takes the process out; what is returned is to be killed. `None` means that
/// none was running.
pub fn stop_backend(slot: &mut Option<BackendProcess>) -> (r: Option<BackendProcess>)
    ensures
        r == *old(slot),
        *final(slot) is None,
{
    slot.take()
}

/// Takes the process out at exit; what is returned is to be killed.
pub fn shutdown_backend(slot: &mut Option<BackendProcess>) -> (r: Option<BackendProcess>)
    ensures
        r == *old(slot),
        *final(slot) is None,
{
    stop_backend(slot)
}

// ---------------------------------------------------------------------------
// Cleaning up after a crash
// ---------------------------------------------------------------------------

/// What the file of the running backend records: the process that started it,
/// the backend's process and its port.
#[derive(Debug, Clone, Copy, PartialEq, Eq, Structural)]
pub struct BackendPidRecord {
    pub jean_pid: u32,
    pub server_pid: u32,
    pub port: u16,
}

/// Where the cleanup stands.
#[derive(Debug, Clone, Copy, PartialEq, Eq, Structural)]
pub enum CleanupState {
    AskingOwner,
    AskingServer,
    AskingHealth,
    AskingHealthAfterKill,
    Finished,
}

/// What the cleanup does next. The checks are answered with yes or no.
#[derive(Debug, Clone, Copy, PartialEq, Eq, Structural)]
pub enum CleanupAction {
    /// Is this process alive?
    CheckProcess(u32),
    /// Is the backend on this port healthy?
    CheckHealth(u16),
    /// Kill this process and its children, wait, then check the port.
    KillTreeAndCheckHealth(u32, u16),
    /// Kill this process, then remove the file.
    KillAndRemoveFile(u32),
    /// Remove the file.
    RemoveFile,
    /// Leave everything as it is.
    Leave,
}

/// The cleanup begins: a file that cannot be read is removed.
pub fn begin_cleanup(record: Option<BackendPidRecord>) -> (r: (CleanupState, CleanupAction))
    ensures
        match record {
            Some(rec) => r == (
                CleanupState::AskingOwner,
                CleanupAction::CheckProcess(rec.jean_pid),
            ),
            None => r == (CleanupState::Finished, CleanupAction::RemoveFile),
        },
{
    match record {
        Some(rec) => (CleanupState::AskingOwner, CleanupAction::CheckProcess(rec.jean_pid)),
        None => (CleanupState::Finished, CleanupAction::RemoveFile),
    }
}

/// What follows from an answer. The backend is left alone while the process
/// that started it lives; it is killed only where it is alive and healthy.
pub open spec fn cleanup_step(
    record: BackendPidRecord,
    state: CleanupState,
    yes: bool,
) -> (CleanupState, CleanupAction) {
    match state {
        CleanupState::AskingOwner => if yes {
            (CleanupState::Finished, CleanupAction::Leave)
        } else {
            (CleanupState::AskingServer, CleanupAction::CheckProcess(record.server_pid))
        },
        CleanupState::AskingServer => if yes {
            (CleanupState::AskingHealth, CleanupAction::CheckHealth(record.port))
        } else {
            (CleanupState::Finished, CleanupAction::RemoveFile)
        },
        CleanupState::AskingHealth => if yes {
            (
                CleanupState::AskingHealthAfterKill,
                CleanupAction::KillTreeAndCheckHealth(record.server_pid, record.port),
            )
        } else {
            (CleanupState::Finished, CleanupAction::RemoveFile)
        },
        CleanupState::AskingHealthAfterKill => if yes {
            (CleanupState::Finished, CleanupAction::KillAndRemoveFile(record.server_pid))
        } else {
            (CleanupState::Finished, CleanupAction::RemoveFile)
        },
        CleanupState::Finished => (CleanupState::Finished, CleanupAction::Leave),
    }
}

/// What follows from an answer.
pub fn continue_cleanup(record: BackendPidRecord, state: CleanupState, yes: bool) -> (r: (
    CleanupState,
    CleanupAction,
))
    ensures
        r == cleanup_step(record, state, yes),
{
    match state {
        CleanupState::AskingOwner => if yes {
            (CleanupState::Finished, CleanupAction::Leave)
        } else {
            (CleanupState::AskingServer, CleanupAction::CheckProcess(record.server_pid))
        },
        CleanupState::AskingServer => if yes {
            (CleanupState::AskingHealth, CleanupAction::CheckHealth(record.port))
        } else {
            (CleanupState::Finished, CleanupAction::RemoveFile)
        },
        CleanupState::AskingHealth => if yes {
            (
                CleanupState::AskingHealthAfterKill,
                CleanupAction::KillTreeAndCheckHealth(record.server_pid, record.port),
            )
        } else {
            (CleanupState::Finished, CleanupAction::RemoveFile)
        },
        CleanupState::AskingHealthAfterKill => if yes {
            (CleanupState::Finished, CleanupAction::KillAndRemoveFile(record.server_pid))
        } else {
            (CleanupState::Finished, CleanupAction::RemoveFile)
        },
        CleanupState::Finished => (CleanupState::Finished, CleanupAction::Leave),
    }
}

/// The last action of a cleanup with these answers: whether the owner lives,
/// whether the backend lives, whether it is healthy, and whether it still is
/// after it was killed.
pub open spec fn cleanup_outcome(
    record: BackendPidRecord,
    owner: bool,
    server: bool,
    healthy: bool,
    still: bool,
) -> CleanupAction {
    let (s1, a1) = cleanup_step(record, CleanupState::AskingOwner, owner);
    if s1 is Finished {
        a1
    } else {
        let (s2, a2) = cleanup_step(record, s1, server);
        if s2 is Finished {
            a2
        } else {
            let (s3, a3) = cleanup_step(record, s2, healthy);
            if s3 is Finished {
                a3
            } else {
                let (_, a4) = cleanup_step(record, s3, still);
                a4
            }
        }
    }
}

/// The cleanup leaves the file and the backend alone exactly while the owner
/// lives, otherwise it ends with the file removed; and it kills nothing that
/// is not alive and healthy.
pub proof fn cleanup_spares_owned_and_unrelated(
    record: BackendPidRecord,
    owner: bool,
    server: bool,
    healthy: bool,
    still: bool,
)
    ensures
        cleanup_outcome(record, owner, server, healthy, still) is Leave <==> owner,
        !owner ==> cleanup_outcome(record, owner, server, healthy, still) is RemoveFile
            || cleanup_outcome(record, owner, server, healthy, still) is KillAndRemoveFile,
        cleanup_outcome(record, owner, server, healthy, still) is KillAndRemoveFile ==> !owner
            && server && healthy && still,
        forall|state: CleanupState, yes: bool|
            (#[trigger] cleanup_step(record, state, yes)).1 is KillTreeAndCheckHealth ==> state
                is AskingHealth && yes,
{
}

// ---------------------------------------------------------------------------
// Logins
// ---------------------------------------------------------------------------

/// The seconds after which a login is ended.
pub const LOGIN_TIMEOUT_SECS: u64 = 300;

/// A login that can be started.
#[derive(Debug)]
pub struct LoginPlan {
    pub provider: String,
    /// The command line flag.
    pub flag: String,
    /// The email address to submit.
    pub email: Option<String>,
    /// Something is going to be written to the process.
    pub needs_stdin: bool,
}

/// The email address without white space around it, where something is left.
pub open spec fn clean_email(email: Option<Seq<char>>) -> Option<Seq<char>> {
    match email {
        Some(e) => if trimmed(e).len() > 0 {
            Some(trimmed(e))
        } else {
            None
        },
        None => None,
    }
}

/// Why a login cannot be started; the first reason that applies.
pub open spec fn login_refusal(
    provider: Seq<char>,
    anthropic: Seq<char>,
    email: Option<Seq<char>>,
    active: Map<Seq<char>, u32>,
    binary: BinaryLookup,
) -> Option<Seq<char>> {
    match login_flag(provider, anthropic) {
        None => Some("Unknown provider: "@ + provider),
        Some(flag) => if flag.len() == 0 {
            Some(provider + " uses API keys, not OAuth"@)
        } else if active.dom().contains(provider) {
            Some("Login already in progress for "@ + provider)
        } else if binary_error(binary) is Some {
            binary_error(binary)
        } else if provider == "qwen"@ && clean_email(email) is None {
            Some("Qwen login requires an email address"@)
        } else {
            None
        },
    }
}

/// Something is written to the login process of this provider.
pub open spec fn prompts(provider: Seq<char>) -> bool {
    provider == "gemini"@ || provider == "codex"@ || provider == "qwen"@
}

/// The email address without white space around it, where something is left.
fn clean(email: Option<String>) -> (r: Option<String>)
    ensures
        opt_view(r) == clean_email(opt_view(email)),
{
    match email {
        Some(e) => {
            let t = trim(e.as_str());
            if t.as_str().is_empty() {
                None
            } else {
                Some(t)
            }
        },
        None => None,
    }
}

/// The login that a request leads to, or why there is none.
pub fn plan_login(
    provider: &str,
    anthropic: &str,
    email: Option<String>,
    active: &TextMap<u32>,
    binary: &BinaryLookup,
) -> (r: Result<LoginPlan, String>)
    ensures
        r is Ok <==> login_refusal(provider@, anthropic@, opt_view(email), active@, *binary) is None,
        r matches Err(e) ==> login_refusal(provider@, anthropic@, opt_view(email), active@, *binary) == Some(
            e@,
        ),
        r matches Ok(plan) ==> plan.provider@ == provider@ && login_flag(provider@, anthropic@) == Some(
            plan.flag@,
        ) && opt_view(plan.email) == clean_email(opt_view(email)) && plan.needs_stdin == prompts(
            provider@,
        ),
{
    match login_flag_for_provider(provider, anthropic) {
        None => Err(join2("Unknown provider: ", provider)),
        Some(flag) => {
            if flag.as_str().is_empty() {
                return Err(join2(provider, " uses API keys, not OAuth"));
            }
            if active.contains_key(provider) {
                return Err(join2("Login already in progress for ", provider));
            }
            match require_binary(binary) {
                Ok(_) => {},
                Err(e) => {
                    return Err(e);
                },
            }
            let email = clean(email);
            if text_eq(provider, "qwen") && email.is_none() {
                return Err("Qwen login requires an email address".to_owned());
            }
            Ok(
                LoginPlan {
                    provider: provider.to_owned(),
                    flag,
                    email,
                    needs_stdin: text_eq(provider, "gemini") || text_eq(provider, "codex")
                        || text_eq(provider, "qwen"),
                },
            )
        },
    }
}

/// A login process has been started.
pub fn login_started(active: &mut TextMap<u32>, provider: &str, pid: u32) -> (r: LoginStatusEvent)
    ensures
        final(active)@ == old(active)@.insert(provider@, pid),
        r.provider@ == provider@,
        r.status@ == "started"@,
{
    active.insert(provider.to_owned(), pid);
    LoginStatusEvent { provider: provider.to_owned(), status: "started".to_owned() }
}

/// The providers whose logins are under way.
pub fn get_active_logins(active: &TextMap<u32>) -> (r: Vec<String>)
    ensures
        views(r@).no_duplicates(),
        forall|p: Seq<char>| views(r@).contains(p) <==> active@.dom().contains(p),
{
    active.keys()
}

/// What is shown of a line that a login process has printed: the line without
/// white space around it, if something is left.
pub fn login_output(provider: &str, line: &str) -> (r: Option<LoginOutputEvent>)
    ensures
        r is Some <==> trimmed(line@).len() > 0,
        r matches Some(event) ==> event.provider@ == provider@ && event.line@ == trimmed(line@),
{
    let t = trim(line);
    if t.as_str().is_empty() {
        None
    } else {
        Some(LoginOutputEvent { provider: provider.to_owned(), line: t })
    }
}

/// Something to write to a login process.
#[derive(Debug)]
pub struct StdinWrite {
    /// The seconds to wait first.
    pub delay_secs: u64,
    pub text: String,
}

/// What is written to the login process of a provider, and when.
pub open spec fn stdin_write(provider: Seq<char>, email: Option<Seq<char>>) -> Option<
    (u64, Seq<char>),
> {
    if provider == "gemini"@ {
        Some((3, "\n"@))
    } else if provider == "codex"@ {
        Some((12, "\n"@))
    } else if provider == "qwen"@ && email is Some {
        Some((10, email->0 + "\n"@))
    } else {
        None
    }
}

/// What is written to the login process of a provider, and when.
pub fn plan_stdin(provider: &str, email: &Option<String>) -> (r: Option<StdinWrite>)
    ensures
        r is Some <==> stdin_write(provider@, opt_view(*email)) is Some,
        r matches Some(w) ==> stdin_write(provider@, opt_view(*email)) == Some(
            (w.delay_secs, w.text@),
        ),
{
    if text_eq(provider, "gemini") {
        Some(StdinWrite { delay_secs: 3, text: "\n".to_owned() })
    } else if text_eq(provider, "codex") {
        Some(StdinWrite { delay_secs: 12, text: "\n".to_owned() })
    } else if text_eq(provider, "qwen") {
        match email {
            Some(e) => Some(StdinWrite { delay_secs: 10, text: join2(e.as_str(), "\n") }),
            None => None,
        }
    } else {
        None
    }
}

/// The race between a login process and its timeout.
#[derive(Debug, Clone, Copy, PartialEq, Eq, Structural)]
pub struct LoginWatch {
    pub timed_out: bool,
    pub finished: bool,
}

impl LoginWatch {
    /// Neither has happened.
    pub fn new() -> (r: Self)
        ensures
            r == (LoginWatch { timed_out: false, finished: false }),
    {
        LoginWatch { timed_out: false, finished: false }
    }

    /// The time is up. Returns whether the process is to be killed, which it
    /// is unless it has finished.
    pub fn time_is_up(&mut self) -> (r: bool)
        ensures
            r == !old(self).finished,
            final(self).finished == old(self).finished,
            final(self).timed_out == (old(self).timed_out || !old(self).finished),
    {
        if self.finished {
            false
        } else {
            self.timed_out = true;
            true
        }
    }

    /// The process has ended.
    pub fn process_ended(&mut self)
        ensures
            final(self).finished,
            final(self).timed_out == old(self).timed_out,
    {
        self.finished = true;
    }
}

/// How a login process ended.
#[derive(Debug)]
pub enum LoginExit {
    /// With success.
    Success,
    /// Without success; its exit status as text.
    Failure(String),
    /// Unknown; the error's text.
    Lost(String),
}

/// The state in which a login ends.
pub open spec fn login_status(timed_out: bool, exit: LoginExit) -> Seq<char> {
    if timed_out {
        "timed_out"@
    } else if exit is Success {
        "completed"@
    } else {
        "failed"@
    }
}

/// What is shown of a login that failed.
pub open spec fn login_failure(timed_out: bool, exit: LoginExit) -> Option<Seq<char>> {
    if timed_out {
        None
    } else {
        match exit {
            LoginExit::Success => None,
            LoginExit::Failure(code) => Some("Login process exited unsuccessfully: "@ + code@),
            LoginExit::Lost(e) => Some("Failed waiting for login process exit: "@ + e@),
        }
    }
}

/// A login process has ended: what is shown, if it failed, and the state. A
/// new login can be started.
pub fn login_finished(
    active: &mut TextMap<u32>,
    provider: &str,
    timed_out: bool,
    exit: LoginExit,
) -> (r: (Option<LoginOutputEvent>, LoginStatusEvent))
    ensures
        final(active)@ == old(active)@.remove(provider@),
        match r.0 {
            Some(event) => event.provider@ == provider@ && login_failure(timed_out, exit) == Some(
                event.line@,
            ),
            None => login_failure(timed_out, exit) is None,
        },
        r.1.provider@ == provider@,
        r.1.status@ == login_status(timed_out, exit),
{
    active.remove(provider);
    let done = matches!(exit, LoginExit::Success);
    let detail: Option<String> = if timed_out {
        None
    } else {
        match exit {
            LoginExit::Success => None,
            LoginExit::Failure(code) => Some(
                join2("Login process exited unsuccessfully: ", code.as_str()),
            ),
            LoginExit::Lost(e) => Some(
                join2("Failed waiting for login process exit: ", e.as_str()),
            ),
        }
    };
    let output = match detail {
        Some(line) => Some(LoginOutputEvent { provider: provider.to_owned(), line }),
        None => None,
    };
    let status = if timed_out {
        "timed_out".to_owned()
    } else if done {
        "completed".to_owned()
    } else {
        "failed".to_owned()
    };
    (output, LoginStatusEvent { provider: provider.to_owned(), status })
}

/// The error of a login process that could not be started.
pub fn login_not_started(provider: &str, error: &str) -> (r: String)
    ensures
        r@ == "Failed to trigger login for "@ + provider@ + ": "@ + error@,
{
    let head = join2("Failed to trigger login for ", provider);
    let lead = join2(head.as_str(), ": ");
    join2(lead.as_str(), error)
}

/// A second login of a provider is refused while the first is under way, and
/// no longer once it has finished. Other providers' logins are unaffected.
pub proof fn one_login_at_a_time(
    provider: Seq<char>,
    other: Seq<char>,
    anthropic: Seq<char>,
    email: Option<Seq<char>>,
    active: Map<Seq<char>, u32>,
    pid: u32,
    binary: BinaryLookup,
)
    requires
        login_refusal(provider, anthropic, email, active, binary) is None,
        other != provider,
    ensures
        login_refusal(provider, anthropic, email, active.insert(provider, pid), binary) is Some,
        login_refusal(
            provider,
            anthropic,
            email,
            active.insert(provider, pid).remove(provider),
            binary,
        ) is None,
        login_refusal(other, anthropic, email, active.insert(provider, pid), binary) == login_refusal(
            other,
            anthropic,
            email,
            active,
            binary,
        ),
{
}

/// How long is waited: five probes for a backend that is thought to run, fifty
/// for one that was just started, and five minutes for a login.
pub proof fn waits_are_bounded()
    ensures
        RUNNING_PROBES == 5,
        STARTING_PROBES == 50,
        LOGIN_TIMEOUT_SECS == 5 * 60,
{
}

/// The backend that a crash has left behind is found and killed: where its
/// owner is dead it is asked whether the recorded process lives, where that
/// lives whether the recorded port answers, and where that answers the process
/// is killed with its children, and once more by itself where it still answers.
/// In each other case the record is removed and nothing is killed.
pub proof fn orphans_are_killed(record: BackendPidRecord)
    ensures
        cleanup_step(record, CleanupState::AskingOwner, true).1 is Leave,
        cleanup_step(record, CleanupState::AskingOwner, false) == (
            CleanupState::AskingServer,
            CleanupAction::CheckProcess(record.server_pid),
        ),
        cleanup_step(record, CleanupState::AskingServer, true) == (
            CleanupState::AskingHealth,
            CleanupAction::CheckHealth(record.port),
        ),
        cleanup_step(record, CleanupState::AskingHealth, true) == (
            CleanupState::AskingHealthAfterKill,
            CleanupAction::KillTreeAndCheckHealth(record.server_pid, record.port),
        ),
        cleanup_step(record, CleanupState::AskingHealthAfterKill, true).1
            == CleanupAction::KillAndRemoveFile(record.server_pid),
        cleanup_step(record, CleanupState::AskingServer, false).1 is RemoveFile,
        cleanup_step(record, CleanupState::AskingHealth, false).1 is RemoveFile,
        cleanup_step(record, CleanupState::AskingHealthAfterKill, false).1 is RemoveFile,
        forall|server: bool, healthy: bool, still: bool|
            cleanup_outcome(record, false, server, healthy, still) is KillAndRemoveFile <==> server
                && healthy && still,
{
}

/// Why a login is refused, in this order: the provider is not known, it takes
/// API keys, its login is under way, the executable is not there, Qwen has been
/// given no address. Otherwise it is not refused.
pub proof fn logins_are_refused_for_these_reasons(
    provider: Seq<char>,
    anthropic: Seq<char>,
    email: Option<Seq<char>>,
    active: Map<Seq<char>, u32>,
    binary: BinaryLookup,
)
    ensures
        ({
            let r = login_refusal(provider, anthropic, email, active, binary);
            let flag = login_flag(provider, anthropic);
            let free = flag is Some && flag->0.len() > 0 && !active.dom().contains(provider);
            let addressed = email matches Some(e) && trimmed(e).len() > 0;
            &&& flag is None ==> r == Some("Unknown provider: "@ + provider)
            &&& flag is Some && flag->0.len() == 0 ==> r == Some(
                provider + " uses API keys, not OAuth"@,
            )
            &&& flag is Some && flag->0.len() > 0 && active.dom().contains(provider) ==> r == Some(
                "Login already in progress for "@ + provider,
            )
            &&& free ==> {
                &&& binary matches BinaryLookup::Unknown(e) ==> r == Some(e@)
                &&& binary matches BinaryLookup::Missing(path) ==> r == Some(
                    "AI proxy backend binary not found at "@ + path@,
                )
                &&& binary is Present && provider == "qwen"@ && !addressed ==> r == Some(
                    "Qwen login requires an email address"@,
                )
                &&& binary is Present && (provider != "qwen"@ || addressed) ==> r is None
            }
        }),
{
}

/// What is written to a login process: a line break to Gemini's after three
/// seconds and to Codex's after twelve, the address and a line break to Qwen's
/// after ten, and nothing to any other. A process that something is written to
/// has its input open.
pub proof fn logins_are_answered(provider: Seq<char>, email: Seq<char>)
    ensures
        provider == "gemini"@ ==> stdin_write(provider, None) == Some((3u64, seq!['\n']))
            && stdin_write(provider, Some(email)) == Some((3u64, seq!['\n'])),
        provider == "codex"@ ==> stdin_write(provider, None) == Some((12u64, seq!['\n']))
            && stdin_write(provider, Some(email)) == Some((12u64, seq!['\n'])),
        provider == "qwen"@ ==> stdin_write(provider, Some(email)) == Some(
            (10u64, email + seq!['\n']),
        ) && stdin_write(provider, None) is None,
        provider != "gemini"@ && provider != "codex"@ && provider != "qwen"@ ==> stdin_write(
            provider,
            Some(email),
        ) is None && stdin_write(provider, None) is None,
        stdin_write(provider, Some(email)) is Some <==> prompts(provider),
{
    reveal_strlit("\n");
    assert("\n"@ =~= seq!['\n']);
    reveal_strlit("gemini");
    reveal_strlit("codex");
    reveal_strlit("qwen");
    assert("gemini"@.len() == 6 && "codex"@.len() == 5 && "qwen"@.len() == 4);
}

/// How a login ends: out of time before all else, completed where the process
/// succeeded, failed otherwise; only a failure is explained.
pub proof fn logins_end_in_one_of_three_ways(exit: LoginExit)
    ensures
        login_status(true, exit) == "timed_out"@,
        exit is Success ==> login_status(false, exit) == "completed"@,
        !(exit is Success) ==> login_status(false, exit) == "failed"@,
        login_failure(true, exit) is None,
        exit is Success ==> login_failure(false, exit) is None,
        exit matches LoginExit::Failure(code) ==> login_failure(false, exit) == Some(
            "Login process exited unsuccessfully: "@ + code@,
        ),
        exit matches LoginExit::Lost(e) ==> login_failure(false, exit) == Some(
            "Failed waiting for login process exit: "@ + e@,
        ),
{
}

/// An address is taken without the white space around it; a blank one is none.
pub proof fn addresses_are_cleaned(email: Seq<char>)
    ensures
        trimmed(email).len() > 0 ==> clean_email(Some(email)) == Some(trimmed(email)),
        trimmed(email).len() == 0 ==> clean_email(Some(email)) is None,
        clean_email(None) is None,
{
}

/// A cleanup that has left the backend alone or removed the record asks nothing
/// more.
pub proof fn cleanups_come_to_an_end(record: BackendPidRecord, state: CleanupState, yes: bool)
    ensures
        ({
            let (next, action) = cleanup_step(record, state, yes);
            &&& next is Finished <==> action is Leave || action is RemoveFile || action
                is KillAndRemoveFile
            &&& state is Finished ==> action is Leave
        }),
{
}

} // verus!
