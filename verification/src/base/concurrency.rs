//! Running a foreign language in the same thread or in a process of its own.

use std::time::Duration;

use rand::Rng;
use vstd::prelude::*;

use crate::base::path::{is_same_path, same_path};
use crate::text::{decimal, decimal_u64, integer_value, join, join3, join4, parse_i64};

verus! {

/// Options for creating a new thread
#[derive(Debug, PartialEq, Eq)]
pub struct ProcessOpts {
    /// Must contain the executable path as the first argument
    /// or `-` to use the current executable
    ///
    /// The needed env variables are set besides
    ///
    /// The process must then run the process client to connect
    /// to the parent process
    pub cmd_argv: Vec<String>,
    pub mem_soft_limit: usize,
    pub mem_hard_limit: usize,
    pub start_timeout: Duration,
}

/// The characters of a random name.
pub const CHARSET: &'static str = "ABCDEFGHIJKLMNOPQRSTUVWXYZabcdefghijklmnopqrstuvwxyz0123456789";

/// How many characters a random name has.
pub const NAME_LENGTH: usize = 16;

/// A random number below `n`.
///
/// Calls `rand::Rng::random_range`. Believed of it: the number lies in the range that was asked
/// for. Which one it is, is left to chance.
#[verifier::external_body]
fn random_below(n: usize) -> (r: usize)
    requires
        n > 0,
    ensures
        r < n,
{
    rand::rng().random_range(0..n)
}

/// A random number.
///
/// Calls `rand::random`. Nothing is believed of it: any number may come.
#[verifier::external_body]
fn random_u64() -> (r: u64) {
    rand::random::<u64>()
}

proof fn lemma_charset()
    ensures
        CHARSET@.len() == 62,
        vstd::string::is_ascii(CHARSET),
{
    reveal_strlit("ABCDEFGHIJKLMNOPQRSTUVWXYZabcdefghijklmnopqrstuvwxyz0123456789");
}

/// The text whose characters are those of the set at the given places.
pub fn alphanumeric(places: &Vec<usize>) -> (r: String)
    requires
        forall|i: int| 0 <= i < places@.len() ==> #[trigger] places@[i] < CHARSET@.len(),
    ensures
        r@ == Seq::new(places@.len(), |i: int| CHARSET@[places@[i] as int]),
{
    let mut r = String::new();
    let mut i: usize = 0;
    proof {
        lemma_charset();
    }
    while i < places.len()
        invariant
            i <= places@.len(),
            CHARSET@.len() == 62,
            vstd::string::is_ascii(CHARSET),
            forall|k: int| 0 <= k < places@.len() ==> #[trigger] places@[k] < CHARSET@.len(),
            r@ =~= Seq::new(i as nat, |k: int| CHARSET@[places@[k] as int]),
        decreases places@.len() - i,
    {
        let at = places[i];
        let one = CHARSET.substring_ascii(at, at + 1);
        r.append(one);
        assert(one@ =~= seq![CHARSET@[at as int]]);
        i += 1;
    }
    r
}

/// A random text of so many letters and digits.
pub fn generate_random_alphanumeric_string(length: usize) -> (r: String)
    ensures
        r@.len() == length,
        forall|i: int| 0 <= i < length ==> CHARSET@.contains(#[trigger] r@[i]),
{
    proof {
        lemma_charset();
    }
    let mut places: Vec<usize> = Vec::new();
    let mut i: usize = 0;
    while i < length
        invariant
            i <= length,
            CHARSET@.len() == 62,
            places@.len() == i,
            forall|k: int| 0 <= k < i ==> #[trigger] places@[k] < CHARSET@.len(),
        decreases length - i,
    {
        places.push(random_below(62));
        i += 1;
    }
    let r = alphanumeric(&places);
    assert forall|k: int| 0 <= k < length implies CHARSET@.contains(#[trigger] r@[k]) by {
        assert(r@[k] == CHARSET@[places@[k] as int]);
    }
    r
}

/// The end of the name of a socket file.
pub open spec fn socket_suffix_of(name: Seq<char>) -> Seq<char> {
    "ce"@ + name + ".sock"@
}

/// The end of the name of the socket file for that name.
pub fn socket_suffix(name: &str) -> (r: String)
    ensures
        r@ == socket_suffix_of(name@),
{
    join3("ce", name, ".sock")
}

/// The end of the name of a new socket file.
pub fn random_socket_suffix() -> (r: String)
    ensures
        exists|name: Seq<char>|
            name.len() == NAME_LENGTH && (forall|i: int|
                0 <= i < name.len() ==> CHARSET@.contains(#[trigger] name[i])) && r@
                == #[trigger] socket_suffix_of(name),
{
    let name = generate_random_alphanumeric_string(NAME_LENGTH);
    socket_suffix(&name)
}

/// Which program is to be run.
#[derive(Debug, PartialEq, Eq)]
pub enum Executable {
    /// The program that is running.
    Current,
    Named(String),
}

/// How a process is to be started.
#[derive(Debug, PartialEq, Eq)]
pub struct ProcessPlan {
    pub exe: Executable,
    pub args: Vec<String>,
    /// The variables that tell the process where to connect and what it may use.
    pub uds_path: String,
    pub mem_soft_limit: String,
    pub mem_hard_limit: String,
}

/// The name of the variable that holds the path of the socket.
pub const UDS_PATH_VAR: &'static str = "CONCURRENT_EXECUTOR_UDS_PATH";

/// The name of the variable that holds the soft memory limit.
pub const MEM_SOFT_LIMIT_VAR: &'static str = "CONCURRENT_EXECUTOR_MEM_SOFT_LIMIT";

/// The name of the variable that holds the hard memory limit.
pub const MEM_HARD_LIMIT_VAR: &'static str = "CONCURRENT_EXECUTOR_MEM_HARD_LIMIT";

/// The texts of some strings.
pub open spec fn texts(s: Seq<String>) -> Seq<Seq<char>> {
    s.map_values(|t: String| t@)
}

/// How a process is to be started: the first argument names the program, `-` the one that is
/// running, and the others are its arguments. The path of the socket must be a text.
pub fn plan_process(opts: &ProcessOpts, uds_path: Option<&str>) -> (r: Result<ProcessPlan, String>)
    ensures
        match r {
            Ok(plan) => {
                &&& opts.cmd_argv@.len() > 0
                &&& uds_path matches Some(path) && plan.uds_path@ == path@
                &&& match plan.exe {
                    Executable::Current => opts.cmd_argv@[0]@ == "-"@,
                    Executable::Named(exe) => exe@ == opts.cmd_argv@[0]@ && exe@ != "-"@,
                }
                &&& texts(plan.args@) == texts(opts.cmd_argv@).skip(1)
                &&& plan.mem_soft_limit@ == decimal(opts.mem_soft_limit as nat)
                &&& plan.mem_hard_limit@ == decimal(opts.mem_hard_limit as nat)
            },
            Err(e) => {
                ||| opts.cmd_argv@.len() == 0 && e@
                    == "cmd_argv must contain at least the executable path"@
                ||| opts.cmd_argv@.len() > 0 && uds_path is None && e@
                    == "Failed to convert UDS path to str"@
            },
        },
        r is Ok <==> opts.cmd_argv@.len() > 0 && uds_path is Some,
{
    if opts.cmd_argv.len() == 0 {
        return Err("cmd_argv must contain at least the executable path".to_owned());
    }
    let exe = if opts.cmd_argv[0] == "-".to_owned() {
        Executable::Current
    } else {
        Executable::Named(opts.cmd_argv[0].clone())
    };
    let mut args: Vec<String> = Vec::new();
    let mut i: usize = 1;
    let ghost all = texts(opts.cmd_argv@);
    while i < opts.cmd_argv.len()
        invariant
            1 <= i <= opts.cmd_argv@.len(),
            all == texts(opts.cmd_argv@),
            texts(args@) =~= all.subrange(1, i as int),
        decreases opts.cmd_argv@.len() - i,
    {
        let ghost before = args@;
        let arg = opts.cmd_argv[i].clone();
        args.push(arg);
        assert(texts(args@) =~= texts(before).push(arg@));
        i += 1;
    }
    assert(texts(args@) =~= all.skip(1));
    match uds_path {
        None => Err("Failed to convert UDS path to str".to_owned()),
        Some(path) => Ok(
            ProcessPlan {
                exe,
                args,
                uds_path: path.to_owned(),
                mem_soft_limit: decimal_u64(opts.mem_soft_limit as u64),
                mem_hard_limit: decimal_u64(opts.mem_hard_limit as u64),
            },
        ),
    }
}

/// What ended the wait for a new process.
#[derive(Debug, PartialEq, Eq)]
pub enum StartEvent {
    /// The time that a process has to connect is over.
    TimedOut,
    /// The process ended.
    Exited,
    /// The connection could not be accepted.
    AcceptFailed(String),
    /// A process connected, from an address that may have a path.
    Connected(Option<String>),
}

/// What follows from the end of the wait.
#[derive(Debug, PartialEq, Eq)]
pub struct StartVerdict {
    /// Whether everything that the executor does is to be cancelled.
    pub cancel: bool,
    /// Whether the process is the expected one, or why it is not taken.
    pub result: Result<(), String>,
}

/// Whether the process that was started is to be talked to.
pub fn judge_start(event: StartEvent, uds_path: &str) -> (r: StartVerdict)
    ensures
        r.cancel <==> event is Exited,
        r.result is Ok <==> (event matches StartEvent::Connected(Some(path)) && same_path(
            path@,
            uds_path@,
        )),
        r.result matches Err(e) ==> match event {
            StartEvent::TimedOut => e@ == "Timed out waiting for process to connect"@,
            StartEvent::Exited => e@ == "Process exited before connecting"@,
            StartEvent::AcceptFailed(t) => e@ == t@,
            StartEvent::Connected(None) => e@
                == "Failed to get pathname from unix socket address"@,
            StartEvent::Connected(Some(_)) => e@
                == "Unix socket address pathname does not match expected path"@,
        },
{
    match event {
        StartEvent::TimedOut => StartVerdict {
            cancel: false,
            result: Err("Timed out waiting for process to connect".to_owned()),
        },
        StartEvent::Exited => StartVerdict {
            cancel: true,
            result: Err("Process exited before connecting".to_owned()),
        },
        StartEvent::AcceptFailed(e) => StartVerdict { cancel: false, result: Err(e) },
        StartEvent::Connected(None) => StartVerdict {
            cancel: false,
            result: Err("Failed to get pathname from unix socket address".to_owned()),
        },
        StartEvent::Connected(Some(path)) => {
            if is_same_path(&path, uds_path) {
                StartVerdict { cancel: false, result: Ok(()) }
            } else {
                StartVerdict {
                    cancel: false,
                    result: Err(
                        "Unix socket address pathname does not match expected path".to_owned(),
                    ),
                }
            }
        },
    }
}

/// How the making of the channel to a process ends: the connection, then the hand-over of the end
/// on which messages come.
pub fn channel_made(connected: Result<(), String>, handed_over: Result<(), String>) -> (r: Result<
    (),
    String,
>)
    ensures
        match (connected, handed_over) {
            (Err(t), _) => r matches Err(e) && e@ == "Failed to create remoc connection: "@ + t@,
            (Ok(_), Err(t)) => r matches Err(e) && e@
                == "Failed to send LoadMpsc message to process: "@ + t@,
            (Ok(_), Ok(_)) => r is Ok,
        },
{
    match connected {
        Err(e) => return Err(join("Failed to create remoc connection: ", &e)),
        Ok(_) => {},
    }
    match handed_over {
        Err(e) => Err(join("Failed to send LoadMpsc message to process: ", &e)),
        Ok(_) => Ok(()),
    }
}

/// The memory limit that a variable holds, which is 0 where it is not set. There is none where
/// it holds something else than a 64-bit integer.
pub fn limit_of(var: Option<&str>) -> (r: Option<i64>)
    ensures
        match var {
            None => r == Some(0i64),
            Some(s) => (r is Some <==> (integer_value(s@) matches Some(v) && i64::MIN <= v
                <= i64::MAX)) && (r matches Some(i) ==> integer_value(s@) == Some(i as int)),
        },
{
    match var {
        None => Some(0),
        Some(s) => parse_i64(s),
    }
}

/// The limit that a process is started with is the limit that it reads, as long as it is one
/// that a 64-bit integer holds.
pub proof fn law_limit_is_read_back(limit: usize)
    ensures
        integer_value(decimal(limit as nat)) == Some(limit as int),
{
    crate::text::law_decimal_is_read_back(limit as int);
}

/// Whether a process is put into a control group: whether any limit is set.
pub fn needs_cgroup(mem_soft_limit: i64, mem_hard_limit: i64) -> (r: bool)
    ensures
        r <==> mem_soft_limit > 0 || mem_hard_limit > 0,
{
    mem_hard_limit > 0 || mem_soft_limit > 0
}

/// The name of a control group.
pub open spec fn cgroup_name_of(pid: nat, salt: nat) -> Seq<char> {
    "ce-"@ + decimal(pid) + "-"@ + decimal(salt)
}

/// The name of the control group of a process.
pub fn cgroup_name(pid: u32, salt: u64) -> (r: String)
    ensures
        r@ == cgroup_name_of(pid as nat, salt as nat),
{
    let p = decimal_u64(pid as u64);
    let s = decimal_u64(salt);
    join4("ce-", &p, "-", &s)
}

/// A new name for the control group of a process.
pub fn random_cgroup_name(pid: u32) -> (r: String)
    ensures
        exists|salt: nat| salt <= u64::MAX && r@ == #[trigger] cgroup_name_of(pid as nat, salt),
{
    let salt = random_u64();
    assert(salt as nat <= u64::MAX);
    cgroup_name(pid, salt)
}

/// What a process client has received, or that it is to stop.
#[derive(Debug, PartialEq, Eq)]
pub enum ChildEvent<T> {
    /// A message for what the process runs.
    Message(T),
    /// The channel on which messages will come.
    LoadMpsc,
    /// Nothing.
    Empty,
    /// The parent could not be heard.
    Failed,
    Cancelled,
}

/// What a process client does next.
#[derive(Debug, PartialEq, Eq)]
pub enum ChildAction<T> {
    /// Take the channel, start what the process runs and listen to the channel.
    Start,
    /// Hand the message to what the process runs.
    Forward(T),
    /// Go on listening.
    Listen,
    /// End.
    Stop,
    /// Give up, with this text.
    Abort(&'static str),
}

/// What a process client does before it has the channel.
pub fn before_channel<T>(event: ChildEvent<T>) -> (r: ChildAction<T>)
    ensures
        match event {
            ChildEvent::LoadMpsc => r is Start,
            ChildEvent::Message(_) => r matches ChildAction::Abort(t) && t@
                == "Received unexpected message before LoadMpsc"@,
            ChildEvent::Empty => r matches ChildAction::Abort(t) && t@
                == "Did not receive LoadMpsc message"@,
            ChildEvent::Failed => r matches ChildAction::Abort(t) && t@
                == "Failed to receive message from parent process"@,
            ChildEvent::Cancelled => r is Stop,
        },
{
    match event {
        ChildEvent::LoadMpsc => ChildAction::Start,
        ChildEvent::Message(_) => ChildAction::Abort(
            "Received unexpected message before LoadMpsc",
        ),
        ChildEvent::Empty => ChildAction::Abort("Did not receive LoadMpsc message"),
        ChildEvent::Failed => ChildAction::Abort("Failed to receive message from parent process"),
        ChildEvent::Cancelled => ChildAction::Stop,
    }
}

/// What a process client does once it has the channel.
pub fn on_channel<T>(event: ChildEvent<T>) -> (r: ChildAction<T>)
    ensures
        match event {
            ChildEvent::Message(m) => r == ChildAction::Forward(m),
            ChildEvent::LoadMpsc => r matches ChildAction::Abort(t) && t@
                == "Received unexpected LoadMpsc message"@,
            ChildEvent::Empty => r is Listen,
            ChildEvent::Failed => r matches ChildAction::Abort(t) && t@
                == "Failed to receive message from parent process"@,
            ChildEvent::Cancelled => r is Stop,
        },
{
    match event {
        ChildEvent::Message(m) => ChildAction::Forward(m),
        ChildEvent::LoadMpsc => ChildAction::Abort("Received unexpected LoadMpsc message"),
        ChildEvent::Empty => ChildAction::Listen,
        ChildEvent::Failed => ChildAction::Abort("Failed to receive message from parent process"),
        ChildEvent::Cancelled => ChildAction::Stop,
    }
}

/// Where a foreign language runs.
#[derive(Clone, Copy, Debug, PartialEq, Eq, Structural)]
pub enum ExecutorKind {
    Local,
    Process,
}

/// How the sending of one answer ends: a local receiver that is gone is no error.
pub fn oneshot_sent(kind: ExecutorKind, sent: Result<(), String>) -> (r: Result<(), String>)
    ensures
        r is Ok <==> kind == ExecutorKind::Local || sent is Ok,
        r matches Err(e) ==> e@ == "Failed to send value through process oneshot sender: "@
            + sent->Err_0@,
{
    match kind {
        ExecutorKind::Local => Ok(()),
        ExecutorKind::Process => match sent {
            Ok(()) => Ok(()),
            Err(e) => Err(join("Failed to send value through process oneshot sender: ", &e)),
        },
    }
}

/// How the receiving of one answer ends.
pub fn oneshot_received<T>(kind: ExecutorKind, received: Result<T, String>) -> (r: Result<
    T,
    String,
>)
    ensures
        match (received, r) {
            (Ok(x), Ok(y)) => x == y,
            (Err(e), Err(t)) => t@ == match kind {
                ExecutorKind::Local => "Failed to receive value from local oneshot receiver: "@,
                ExecutorKind::Process => "Failed to receive value from process oneshot receiver: "@,
            } + e@,
            _ => false,
        },
{
    match received {
        Ok(x) => Ok(x),
        Err(e) => match kind {
            ExecutorKind::Local => Err(
                join("Failed to receive value from local oneshot receiver: ", &e),
            ),
            ExecutorKind::Process => Err(
                join("Failed to receive value from process oneshot receiver: ", &e),
            ),
        },
    }
}

/// Whether a sender can be handed to another process.
pub fn oneshot_sender_movable(kind: ExecutorKind) -> (r: Result<(), &'static str>)
    ensures
        r is Ok <==> kind == ExecutorKind::Process,
        r matches Err(e) ==> e@ == "Cannot serialize local oneshot sender"@,
{
    match kind {
        ExecutorKind::Local => Err("Cannot serialize local oneshot sender"),
        ExecutorKind::Process => Ok(()),
    }
}

/// Whether a receiver can be handed to another process.
pub fn oneshot_receiver_movable(kind: ExecutorKind) -> (r: Result<(), &'static str>)
    ensures
        r is Ok <==> kind == ExecutorKind::Process,
        r matches Err(e) ==> e@ == "Cannot serialize local oneshot receiver"@,
{
    match kind {
        ExecutorKind::Local => Err("Cannot serialize local oneshot receiver"),
        ExecutorKind::Process => Ok(()),
    }
}

/// How the sending of a message to an executor ends.
pub fn fired(kind: ExecutorKind, sent: Result<(), String>) -> (r: Result<(), String>)
    ensures
        r is Ok <==> sent is Ok,
        r matches Err(e) ==> e@ == match kind {
            ExecutorKind::Local => sent->Err_0@,
            ExecutorKind::Process => "Failed to send message to process executor: "@
                + sent->Err_0@,
        },
{
    match sent {
        Ok(()) => Ok(()),
        Err(e) => match kind {
            ExecutorKind::Local => Err(e),
            ExecutorKind::Process => Err(join("Failed to send message to process executor: ", &e)),
        },
    }
}

/// What ended the wait for an executor.
#[derive(Clone, Copy, Debug, PartialEq, Eq, Structural)]
pub enum WaitEvent {
    Cancelled,
    ProcessExited,
}

/// Whether everything that the executor does is to be cancelled after the wait for it: a process
/// that has ended takes the executor with it.
pub fn cancels_after_wait(event: WaitEvent) -> (r: bool)
    ensures
        r <==> event == WaitEvent::ProcessExited,
{
    match event {
        WaitEvent::Cancelled => false,
        WaitEvent::ProcessExited => true,
    }
}

/// The time that a process has to end by itself, in milliseconds.
pub const KILL_DELAY_MS: u64 = 100;

/// What the shutdown of an executor does besides telling it.
#[derive(Debug, PartialEq, Eq)]
pub struct ShutdownPlan {
    /// Whether everything that the executor does is to be cancelled.
    pub cancel: bool,
    /// After how many milliseconds the process is to be killed, where there is one.
    pub kill_after_ms: Option<u64>,
    pub result: Result<(), String>,
}

/// What the shutdown of an executor does once it was told, or could not be: one in the same
/// thread that cannot be told is left alone, a process is ended in any case.
pub fn plan_shutdown(kind: ExecutorKind, told: Result<(), String>) -> (r: ShutdownPlan)
    ensures
        r.cancel <==> kind == ExecutorKind::Process || told is Ok,
        r.kill_after_ms == if kind == ExecutorKind::Process {
            Some(KILL_DELAY_MS)
        } else {
            None
        },
        r.result is Ok <==> kind == ExecutorKind::Process || told is Ok,
        r.result matches Err(e) ==> e@ == told->Err_0@,
{
    match kind {
        ExecutorKind::Local => match told {
            Ok(()) => ShutdownPlan { cancel: true, kill_after_ms: None, result: Ok(()) },
            Err(e) => ShutdownPlan { cancel: false, kill_after_ms: None, result: Err(e) },
        },
        ExecutorKind::Process => ShutdownPlan {
            cancel: true,
            kill_after_ms: Some(KILL_DELAY_MS),
            result: Ok(()),
        },
    }
}

/// Two sockets have the same name only where what they are named after is the same.
pub proof fn law_sockets_have_their_own_names(a: Seq<char>, b: Seq<char>)
    requires
        socket_suffix_of(a) == socket_suffix_of(b),
    ensures
        a == b,
{
    let s = socket_suffix_of(a);
    let head = "ce"@.len() as int;
    let tail = ".sock"@.len() as int;
    assert(s.subrange(head, s.len() - tail) =~= a);
    assert(s.subrange(head, s.len() - tail) =~= b);
}

} // verus!
