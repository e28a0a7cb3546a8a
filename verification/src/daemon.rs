//! The daemon child process as the app sees it: whether it owns a running
//! child, why the last start failed, and the one state the interface shows.
//!
//! The app owns the daemon exclusively: only a child it spawned itself counts
//! as started, and it is stopped when the app exits. A daemon started by hand
//! is never taken over.
use vstd::prelude::*;

use crate::text::{joined, opt_text};

verus! {

/// The state shown for the daemon, from two facts that can disagree: whether
/// the child that this app spawned is alive (`owned`) and whether the socket
/// answers (`serving`). A daemon left over from a killed app instance serves
/// without being owned.
pub open spec fn state_name(owned: bool, serving: bool) -> Seq<char> {
    if owned && serving {
        "running"@
    } else if owned {
        // The process is up but its socket is not bound yet; staying here
        // usually means iTerm2 is not running or has not authorized it.
        "starting"@
    } else if serving {
        // Not our child, yet serving: an orphan, or one started by hand.
        "external"@
    } else {
        "stopped"@
    }
}

/// The state shown for the daemon (see `state_name`).
pub fn classify(owned: bool, serving: bool) -> (state: &'static str)
    ensures
        state@ == state_name(owned, serving),
{
    if owned && serving {
        "running"
    } else if owned {
        "starting"
    } else if serving {
        "external"
    } else {
        "stopped"
    }
}

/// What the interface shows of the daemon; both panels read only this.
pub struct DaemonStatus {
    /// `stopped`, `starting`, `running` or `external`.
    pub state: &'static str,
    pub pid: Option<u32>,
    /// Why the last start failed, so that the panel can say what is wrong.
    pub last_error: Option<String>,
}

/// The message for a start while the owned daemon is running.
pub open spec fn already_running_message() -> Seq<char> {
    "daemon 已经在运行了"@
}

/// The message for a start that finds no daemon executable.
pub open spec fn missing_binary_message() -> Seq<char> {
    "找不到 daemon 可执行文件（打包资源和 dist/ 里都没有，先跑 build.sh 冻一个）"@
}

/// The message for a child that has exited with the status described by `status`.
pub open spec fn exited_message(status: Seq<char>) -> Seq<char> {
    "daemon 已退出（"@ + status + "）"@
}

/// The message for a child whose state could not be queried, for the reason `err`.
pub open spec fn poll_failed_message(err: Seq<char>) -> Seq<char> {
    "无法查询 daemon 状态："@ + err
}

/// The message for a spawn that failed for the reason `err`.
pub open spec fn spawn_failed_message(err: Seq<char>) -> Seq<char> {
    "启动 daemon 失败："@ + err
}

/// What asking the owned child whether it has exited (`try_wait`) told.
pub enum ChildPoll {
    /// It has exited; holds the description of its exit status.
    Exited(String),
    /// It is still running.
    Running,
    /// Its state could not be queried; holds the reason.
    Failed(String),
}

/// The value of a `ChildPoll`.
pub enum PollView {
    Exited(Seq<char>),
    Running,
    Failed(Seq<char>),
}

impl View for ChildPoll {
    type V = PollView;

    open spec fn view(&self) -> PollView {
        match self {
            ChildPoll::Exited(s) => PollView::Exited(s@),
            ChildPoll::Running => PollView::Running,
            ChildPoll::Failed(s) => PollView::Failed(s@),
        }
    }
}

/// How an attempt to launch the daemon went.
pub enum Launch {
    /// No daemon executable was found.
    MissingBinary,
    /// Spawning failed; holds the reason.
    SpawnFailed(String),
    /// The daemon runs as the child with this process id.
    Spawned(u32),
}

/// The value of a `Launch`.
pub enum LaunchView {
    MissingBinary,
    SpawnFailed(Seq<char>),
    Spawned(u32),
}

impl View for Launch {
    type V = LaunchView;

    open spec fn view(&self) -> LaunchView {
        match self {
            Launch::MissingBinary => LaunchView::MissingBinary,
            Launch::SpawnFailed(s) => LaunchView::SpawnFailed(s@),
            Launch::Spawned(pid) => LaunchView::Spawned(*pid),
        }
    }
}

/// The value of a `DaemonManager`: the process id of the owned live child,
/// and why the last start failed.
pub struct DaemonView {
    pub child: Option<u32>,
    pub last_error: Option<Seq<char>>,
}

/// The manager after a poll of its child: a child that has exited, or whose
/// state cannot be queried, is forgotten and the reason kept.
pub open spec fn reaped(d: DaemonView, poll: PollView) -> DaemonView {
    if d.child is None {
        d
    } else {
        match poll {
            PollView::Exited(status) => DaemonView {
                child: None,
                last_error: Some(exited_message(status)),
            },
            PollView::Running => d,
            PollView::Failed(err) => DaemonView {
                child: None,
                last_error: Some(poll_failed_message(err)),
            },
        }
    }
}

/// The manager after a start whose launch went as `launch` (the launch is not
/// attempted while a child is owned), and what the start answers.
pub open spec fn after_start(d: DaemonView, launch: LaunchView) -> (DaemonView, Result<(), Seq<char>>) {
    if d.child is Some {
        (d, Err(already_running_message()))
    } else {
        match launch {
            LaunchView::MissingBinary => (
                DaemonView { child: None, last_error: Some(missing_binary_message()) },
                Err(missing_binary_message()),
            ),
            LaunchView::SpawnFailed(err) => (
                DaemonView { child: None, last_error: Some(spawn_failed_message(err)) },
                Err(spawn_failed_message(err)),
            ),
            LaunchView::Spawned(pid) => (DaemonView { child: Some(pid), last_error: None }, Ok(())),
        }
    }
}

/// The manager after a stop: no child, no error.
pub open spec fn stopped() -> DaemonView {
    DaemonView { child: None, last_error: None }
}

/// The daemon child's state as this app knows it.
pub struct DaemonManager {
    child: Option<u32>,
    last_error: Option<String>,
}

impl View for DaemonManager {
    type V = DaemonView;

    closed spec fn view(&self) -> DaemonView {
        DaemonView { child: self.child, last_error: opt_text(self.last_error) }
    }
}

/// The optional string `o`, copied.
fn copy_text(o: &Option<String>) -> (r: Option<String>)
    ensures
        opt_text(r) == opt_text(*o),
{
    match o {
        Some(s) => Some(s.clone()),
        None => None,
    }
}

impl DaemonManager {
    /// A manager that owns no child and knows of no error.
    pub fn new() -> (m: DaemonManager)
        ensures
            m@ == stopped(),
    {
        DaemonManager { child: None, last_error: None }
    }

    /// Takes in what polling the owned child told, so that an exited child
    /// leaves no zombie behind and the state tells the truth.
    pub fn reap(&mut self, poll: ChildPoll)
        ensures
            final(self)@ == reaped(old(self)@, poll@),
    {
        if self.child.is_some() {
            match poll {
                ChildPoll::Exited(status) => {
                    self.child = None;
                    self.last_error = Some(joined(joined("daemon 已退出（", status.as_str()).as_str(), "）"));
                },
                ChildPoll::Running => {},
                ChildPoll::Failed(err) => {
                    self.child = None;
                    self.last_error = Some(joined("无法查询 daemon 状态：", err.as_str()));
                },
            }
        }
    }

    /// Whether a child of ours is alive, its process id, and the last error.
    pub fn owned(&self) -> (r: (bool, Option<u32>, Option<String>))
        ensures
            r.0 == self@.child is Some,
            r.1 == self@.child,
            opt_text(r.2) == self@.last_error,
    {
        (self.child.is_some(), self.child, copy_text(&self.last_error))
    }

    /// Whether a start may launch the daemon: not while our child runs.
    pub fn can_start(&self) -> (r: Result<(), String>)
        ensures
            self@.child is Some ==> (r matches Err(m) && m@ == already_running_message()),
            self@.child is None ==> r is Ok,
    {
        if self.child.is_some() {
            Err(String::from_str("daemon 已经在运行了"))
        } else {
            Ok(())
        }
    }

    /// Records a start whose launch went as `launch`.
    pub fn start(&mut self, launch: Launch) -> (r: Result<(), String>)
        ensures
            final(self)@ == after_start(old(self)@, launch@).0,
            match r {
                Ok(()) => after_start(old(self)@, launch@).1 == Ok::<(), Seq<char>>(()),
                Err(m) => after_start(old(self)@, launch@).1 == Err::<(), Seq<char>>(m@),
            },
    {
        if self.child.is_some() {
            return Err(String::from_str("daemon 已经在运行了"));
        }
        match launch {
            Launch::MissingBinary => {
                let message = String::from_str(
                    "找不到 daemon 可执行文件（打包资源和 dist/ 里都没有，先跑 build.sh 冻一个）",
                );
                self.last_error = Some(message.clone());
                Err(message)
            },
            Launch::SpawnFailed(err) => {
                let message = joined("启动 daemon 失败：", err.as_str());
                self.last_error = Some(message.clone());
                Err(message)
            },
            Launch::Spawned(pid) => {
                self.child = Some(pid);
                self.last_error = None;
                Ok(())
            },
        }
    }

    /// Forgets the child (the caller signals its whole process group and
    /// waits for it) and clears the last error.
    pub fn stop(&mut self) -> (r: Result<(), String>)
        ensures
            final(self)@ == stopped(),
            r is Ok,
    {
        self.child = None;
        self.last_error = None;
        Ok(())
    }

    /// The status to show, given whether the socket answers.
    pub fn status(&self, serving: bool) -> (s: DaemonStatus)
        ensures
            s.state@ == state_name(self@.child is Some, serving),
            s.pid == self@.child,
            opt_text(s.last_error) == self@.last_error,
    {
        DaemonStatus {
            state: classify(self.child.is_some(), serving),
            pid: self.child,
            last_error: copy_text(&self.last_error),
        }
    }
}

/// The daemon executable to run, from the candidates in priority order: an
/// explicit override, the copy bundled in the app's resources, and the one
/// built in the source tree (each of the last two given only where it is a file).
pub fn choose_daemon_bin(
    explicit: Option<String>,
    bundled: Option<String>,
    built: Option<String>,
) -> (r: Option<String>)
    ensures
        opt_text(r) == match opt_text(explicit) {
            Some(p) => Some(p),
            None => match opt_text(bundled) {
                Some(p) => Some(p),
                None => opt_text(built),
            },
        },
{
    match explicit {
        Some(p) => Some(p),
        None => match bundled {
            Some(p) => Some(p),
            None => built,
        },
    }
}

/// The permission bits to give the daemon executable, where bundling has
/// dropped all its execute bits: the old bits with `0o755` added.
/// `None` where some execute bit is set and nothing needs changing.
pub fn executable_mode(mode: u32) -> (r: Option<u32>)
    ensures
        mode & 0o111 == 0 ==> r == Some(mode | 0o755),
        mode & 0o111 != 0 ==> r is None,
        r matches Some(m) ==> m & 0o111 == 0o111 && m & mode == mode && m & 0o755 == 0o755,
{
    if mode & 0o111 == 0 {
        let m = mode | 0o755;
        assert(m & 0o111 == 0o111 && m & mode == mode && m & 0o755 == 0o755) by (bit_vector)
            requires
                m == mode | 0o755,
        ;
        Some(m)
    } else {
        None
    }
}

/// The target for `kill` that signals the whole process group led by `pid`:
/// the negated id.
pub fn process_group_target(pid: u32) -> (target: i32)
    requires
        pid != 0x8000_0000,
    ensures
        pid < 0x8000_0000 ==> target == -(pid as int),
        pid > 0x8000_0000 ==> target == 0x1_0000_0000 - pid,
{
    let id = pid as i32;
    assert(pid < 0x8000_0000 ==> id == pid) by (bit_vector)
        requires
            id == pid as i32,
    ;
    assert(pid > 0x8000_0000 ==> id == pid - 0x1_0000_0000 && id > i32::MIN) by (bit_vector)
        requires
            id == pid as i32,
    ;
    -id
}

/// Law: the shown state tells both facts apart: each of the four pairs
/// (owned, serving) has its own state.
pub proof fn law_states_are_distinct(o1: bool, s1: bool, o2: bool, s2: bool)
    requires
        o1 != o2 || s1 != s2,
    ensures
        state_name(o1, s1) != state_name(o2, s2),
{
    reveal_strlit("running");
    reveal_strlit("starting");
    reveal_strlit("external");
    reveal_strlit("stopped");
    let a = state_name(o1, s1);
    let b = state_name(o2, s2);
    if a.len() == b.len() {
        assert(a[1] != b[1] || a[0] != b[0] || a[2] != b[2]);
    }
}

/// Law: a start while our child runs refuses and changes nothing.
pub proof fn law_start_while_owned_refuses(d: DaemonView, launch: LaunchView)
    requires
        d.child is Some,
    ensures
        after_start(d, launch) == (d, Err::<(), Seq<char>>(already_running_message())),
{
}

/// Law: a restart (a stop, then a start) never refuses as already running:
/// it succeeds exactly when the daemon was spawned, and then the manager owns
/// that child and holds no error.
pub proof fn law_restart_follows_launch(launch: LaunchView)
    ensures
        after_start(stopped(), launch).1 is Ok <==> (launch is Spawned),
        launch matches LaunchView::Spawned(pid) ==> (after_start(stopped(), launch).0 == (DaemonView {
            child: Some(pid),
            last_error: None,
        })),
{
}

/// Law: a failed start owns no child and keeps the reason it answered, so the
/// panel can show it.
pub proof fn law_failed_start_keeps_reason(launch: LaunchView)
    requires
        !(launch is Spawned),
    ensures
        after_start(stopped(), launch).0.child is None,
        (after_start(stopped(), launch).1 matches Err(m) && after_start(stopped(), launch).0.last_error
            == Some(m)),
{
}

/// Law: after a poll the manager owns a child only where it owned one before
/// and the poll found it running; it never invents one.
pub proof fn law_reap_never_invents_a_child(d: DaemonView, poll: PollView)
    ensures
        reaped(d, poll).child is Some ==> (reaped(d, poll) == d && poll is Running),
{
}

} // verus!
