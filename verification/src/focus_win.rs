//! Bringing a session's terminal to the front on Windows.
//!
//! The flow is a state machine. A state says what to do next (`action`); whoever does it hands
//! back what came of it (`advance`). The types hold texts of type `T` and lists of pids of type
//! `L`: `String` and `Vec` when they run, sequences when they are reasoned about.

use vstd::prelude::*;

use crate::focus::{
    front_error, no_session, not_in_front, session_error, Outcome, NO_HOST, UNSUPPORTED,
};
use crate::terminal::{
    app_name, app_name_of, find_host_terminal, first_terminal, law_host_is_nearest_of_its_kind,
    law_lineage_follows_parents, lineage, pids_of_kind, row_views, same_kind_ancestors,
    HostTerminal, ProcRow, RowView, TerminalKind,
    MAX_ANCESTORS,
};
use crate::text::owned_view;

verus! {

/// The terminal to bring to the front. `pids` are the processes that may own its window,
/// nearest first: the host may be a helper without one (VS Code's pty host).
#[derive(Debug, PartialEq, Eq)]
pub struct Target<T, L> {
    pub app: T,
    pub project: T,
    pub host_pid: u32,
    pub pids: L,
}

impl View for Target<String, Vec<u32>> {
    type V = Target<Seq<char>, Seq<u32>>;

    open spec fn view(&self) -> Target<Seq<char>, Seq<u32>> {
        Target {
            app: self.app@,
            project: self.project@,
            host_pid: self.host_pid,
            pids: self.pids@,
        }
    }
}

/// How far the flow has come.
#[derive(Debug, PartialEq, Eq)]
pub enum WinState<T, L> {
    /// The process of the session is looked for.
    Session { agent: T, project: T },
    /// The processes are listed.
    Processes { claude_pid: u32, project: T },
    /// The host is VS Code; the path of its executable is asked for.
    ImagePath { target: Target<T, L> },
    /// The command line tool next to the executable is looked for.
    FindCli { target: Target<T, L>, exe_path: T },
    /// The tool is run.
    RunCli { target: Target<T, L>, cli: T },
    /// The window of `pid` is raised; if that fails, those of `left` are tried in turn.
    Raise { app: T, pid: u32, left: L },
    /// There is nothing left to do.
    Done(Outcome<T>),
}

impl View for WinState<String, Vec<u32>> {
    type V = WinState<Seq<char>, Seq<u32>>;

    open spec fn view(&self) -> WinState<Seq<char>, Seq<u32>> {
        match self {
            WinState::Session { agent, project } => WinState::Session {
                agent: agent@,
                project: project@,
            },
            WinState::Processes { claude_pid, project } => WinState::Processes {
                claude_pid: *claude_pid,
                project: project@,
            },
            WinState::ImagePath { target } => WinState::ImagePath { target: target@ },
            WinState::FindCli { target, exe_path } => WinState::FindCli {
                target: target@,
                exe_path: exe_path@,
            },
            WinState::RunCli { target, cli } => WinState::RunCli { target: target@, cli: cli@ },
            WinState::Raise { app, pid, left } => WinState::Raise {
                app: app@,
                pid: *pid,
                left: left@,
            },
            WinState::Done(outcome) => WinState::Done(outcome@),
        }
    }
}

/// What to do next.
#[derive(Debug, PartialEq, Eq)]
pub enum WinAction<T> {
    /// Find the process of the session in the session files.
    ResolveSession,
    /// Take a snapshot of all processes.
    ListProcesses,
    /// Ask for the path of the executable of this process.
    ImagePath(u32),
    /// Find the tool next to this executable.
    FindCli { exe_path: T },
    /// Run `<cli> -r <folder>` without a console window.
    RunCli { cli: T, folder: T },
    /// Raise the window of this process.
    RaiseWindow(u32),
    /// Nothing.
    Finish,
}

impl View for WinAction<String> {
    type V = WinAction<Seq<char>>;

    open spec fn view(&self) -> WinAction<Seq<char>> {
        match self {
            WinAction::ResolveSession => WinAction::ResolveSession,
            WinAction::ListProcesses => WinAction::ListProcesses,
            WinAction::ImagePath(pid) => WinAction::ImagePath(*pid),
            WinAction::FindCli { exe_path } => WinAction::FindCli { exe_path: exe_path@ },
            WinAction::RunCli { cli, folder } => WinAction::RunCli { cli: cli@, folder: folder@ },
            WinAction::RaiseWindow(pid) => WinAction::RaiseWindow(*pid),
            WinAction::Finish => WinAction::Finish,
        }
    }
}

/// What came of an action. `R` is a list of processes.
#[derive(Debug, PartialEq, Eq)]
pub enum WinEvent<T, R> {
    /// The process of the session, if a session file names it.
    Session(Option<u32>),
    /// The processes, or why they could not be listed.
    Processes(Result<R, T>),
    /// The path of the executable, if it could be had.
    ImagePath(Option<T>),
    /// The tool, if there is one.
    Cli(Option<T>),
    /// Whether a command ran and succeeded.
    Ran(bool),
    /// Whether the window is in front, or why it is not.
    Raised(Result<(), T>),
}

impl View for WinEvent<String, Vec<ProcRow>> {
    type V = WinEvent<Seq<char>, Seq<RowView>>;

    open spec fn view(&self) -> WinEvent<Seq<char>, Seq<RowView>> {
        match self {
            WinEvent::Session(pid) => WinEvent::Session(*pid),
            WinEvent::Processes(Ok(rows)) => WinEvent::Processes(Ok(row_views(rows@))),
            WinEvent::Processes(Err(message)) => WinEvent::Processes(Err(message@)),
            WinEvent::ImagePath(path) => WinEvent::ImagePath(owned_view(*path)),
            WinEvent::Cli(cli) => WinEvent::Cli(owned_view(*cli)),
            WinEvent::Ran(success) => WinEvent::Ran(*success),
            WinEvent::Raised(Ok(_)) => WinEvent::Raised(Ok(())),
            WinEvent::Raised(Err(message)) => WinEvent::Raised(Err(message@)),
        }
    }
}

/// What a state asks for.
pub open spec fn win_action(state: WinState<Seq<char>, Seq<u32>>) -> WinAction<Seq<char>> {
    match state {
        WinState::Session { .. } => WinAction::ResolveSession,
        WinState::Processes { .. } => WinAction::ListProcesses,
        WinState::ImagePath { target } => WinAction::ImagePath(target.host_pid),
        WinState::FindCli { exe_path, .. } => WinAction::FindCli { exe_path },
        WinState::RunCli { target, cli } => WinAction::RunCli { cli, folder: target.project },
        WinState::Raise { pid, .. } => WinAction::RaiseWindow(pid),
        WinState::Done(_) => WinAction::Finish,
    }
}

/// The windows of `pids` are tried in turn; `error` is what is wrong where none is left.
pub open spec fn raise_next(
    app: Seq<char>,
    pids: Seq<u32>,
    error: Seq<char>,
) -> WinState<Seq<char>, Seq<u32>> {
    if pids.len() == 0 {
        WinState::Done(Outcome::Failed(error))
    } else {
        WinState::Raise { app, pid: pids[0], left: pids.skip(1) }
    }
}

/// The windows that may belong to the terminal are tried in turn.
pub open spec fn raise_target(target: Target<Seq<char>, Seq<u32>>) -> WinState<
    Seq<char>,
    Seq<u32>,
> {
    raise_next(target.app, target.pids, not_in_front(target.app))
}

/// What the list of processes leads to: for VS Code the search for its tool, which focuses the
/// very window, and for other terminals raising a window.
pub open spec fn rows_listed(
    claude_pid: u32,
    project: Seq<char>,
    rows: Seq<RowView>,
) -> WinState<Seq<char>, Seq<u32>> {
    let chain = lineage(rows, claude_pid, MAX_ANCESTORS as nat);
    match first_terminal(chain) {
        None => WinState::Done(Outcome::Failed(NO_HOST@)),
        Some(host) => match app_name_of(host.kind) {
            None => WinState::Done(Outcome::Failed(UNSUPPORTED@)),
            Some(app) => {
                let target = Target {
                    app,
                    project,
                    host_pid: host.pid,
                    pids: pids_of_kind(chain, host.kind),
                };
                if host.kind == TerminalKind::VsCode {
                    WinState::ImagePath { target }
                } else {
                    raise_target(target)
                }
            },
        },
    }
}

/// The state that an event leads to. An event that does not answer the state's action leaves
/// the state as it is.
pub open spec fn win_next(
    state: WinState<Seq<char>, Seq<u32>>,
    event: WinEvent<Seq<char>, Seq<RowView>>,
) -> WinState<Seq<char>, Seq<u32>> {
    match (state, event) {
        (WinState::Session { agent, project }, WinEvent::Session(pid)) => match pid {
            None => WinState::Done(Outcome::Failed(no_session(agent))),
            Some(claude_pid) => WinState::Processes { claude_pid, project },
        },
        (WinState::Processes { claude_pid, project }, WinEvent::Processes(result)) => match result {
            Err(message) => WinState::Done(Outcome::Failed(message)),
            Ok(rows) => rows_listed(claude_pid, project, rows),
        },
        (WinState::ImagePath { target }, WinEvent::ImagePath(path)) => match path {
            Some(exe_path) => WinState::FindCli { target, exe_path },
            None => raise_target(target),
        },
        (WinState::FindCli { target, .. }, WinEvent::Cli(found)) => match found {
            Some(cli) => WinState::RunCli { target, cli },
            None => raise_target(target),
        },
        (WinState::RunCli { target, .. }, WinEvent::Ran(success)) => if success {
            WinState::Done(Outcome::Focused { app: target.app, window_focused: true })
        } else {
            raise_target(target)
        },
        (WinState::Raise { app, left, .. }, WinEvent::Raised(result)) => match result {
            Ok(_) => WinState::Done(Outcome::Focused { app, window_focused: false }),
            Err(message) => raise_next(app, left, message),
        },
        _ => state,
    }
}

impl WinState<String, Vec<u32>> {
    /// The flow for a session of `agent` in the folder `project`, before anything was done.
    pub fn start(agent: String, project: String) -> (state: WinState<String, Vec<u32>>)
        ensures
            state@ == (WinState::<Seq<char>, Seq<u32>>::Session {
                agent: agent@,
                project: project@,
            }),
    {
        WinState::Session { agent, project }
    }

    /// What to do next.
    pub fn action(&self) -> (action: WinAction<String>)
        ensures
            action@ == win_action(self@),
    {
        match self {
            WinState::Session { .. } => WinAction::ResolveSession,
            WinState::Processes { .. } => WinAction::ListProcesses,
            WinState::ImagePath { target } => WinAction::ImagePath(target.host_pid),
            WinState::FindCli { exe_path, .. } => WinAction::FindCli {
                exe_path: exe_path.clone(),
            },
            WinState::RunCli { target, cli } => WinAction::RunCli {
                cli: cli.clone(),
                folder: target.project.clone(),
            },
            WinState::Raise { pid, .. } => WinAction::RaiseWindow(*pid),
            WinState::Done(_) => WinAction::Finish,
        }
    }

    /// Goes on from what came of the action.
    pub fn advance(self, event: WinEvent<String, Vec<ProcRow>>) -> (next: WinState<
        String,
        Vec<u32>,
    >)
        ensures
            next@ == win_next(self@, event@),
    {
        match (self, event) {
            (WinState::Session { agent, project }, WinEvent::Session(pid)) => match pid {
                None => WinState::Done(Outcome::Failed(session_error(agent.as_str()))),
                Some(claude_pid) => WinState::Processes { claude_pid, project },
            },
            (
                WinState::Processes { claude_pid, project },
                WinEvent::Processes(result),
            ) => match result {
                Err(message) => WinState::Done(Outcome::Failed(message)),
                Ok(rows) => Self::after_processes(claude_pid, project, rows.as_slice()),
            },
            (WinState::ImagePath { target }, WinEvent::ImagePath(path)) => match path {
                Some(exe_path) => WinState::FindCli { target, exe_path },
                None => Self::raise(target),
            },
            (WinState::FindCli { target, .. }, WinEvent::Cli(found)) => match found {
                Some(cli) => WinState::RunCli { target, cli },
                None => Self::raise(target),
            },
            (WinState::RunCli { target, .. }, WinEvent::Ran(success)) => {
                if success {
                    WinState::Done(Outcome::Focused { app: target.app, window_focused: true })
                } else {
                    Self::raise(target)
                }
            },
            (WinState::Raise { app, left, .. }, WinEvent::Raised(result)) => match result {
                Ok(_) => WinState::Done(Outcome::Focused { app, window_focused: false }),
                Err(message) => Self::raise_first(app, left, message),
            },
            (state, _) => state,
        }
    }

    /// Tries the windows of `pids` in turn.
    fn raise_first(app: String, pids: Vec<u32>, error: String) -> (next: WinState<String, Vec<u32>>)
        ensures
            next@ == raise_next(app@, pids@, error@),
    {
        if pids.len() == 0 {
            WinState::Done(Outcome::Failed(error))
        } else {
            let mut left = pids;
            let pid: u32 = left.remove(0);
            assert(left@ =~= pids@.skip(1));
            WinState::Raise { app, pid, left }
        }
    }

    /// Tries the windows that may belong to the terminal.
    fn raise(target: Target<String, Vec<u32>>) -> (next: WinState<String, Vec<u32>>)
        ensures
            next@ == raise_target(target@),
    {
        let error = front_error(target.app.as_str());
        Self::raise_first(target.app, target.pids, error)
    }

    /// Goes on from the list of processes.
    fn after_processes(claude_pid: u32, project: String, rows: &[ProcRow]) -> (next: WinState<
        String,
        Vec<u32>,
    >)
        ensures
            next@ == rows_listed(claude_pid, project@, row_views(rows@)),
    {
        match find_host_terminal(claude_pid, rows) {
            None => WinState::Done(Outcome::Failed(NO_HOST.to_owned())),
            Some(host) => match app_name(&host.kind) {
                None => WinState::Done(Outcome::Failed(UNSUPPORTED.to_owned())),
                Some(app) => {
                    let target = Target {
                        app: app.to_owned(),
                        project,
                        host_pid: host.pid,
                        pids: same_kind_ancestors(claude_pid, &host.kind, rows),
                    };
                    if host.kind == TerminalKind::VsCode {
                        WinState::ImagePath { target }
                    } else {
                        Self::raise(target)
                    }
                },
            },
        }
    }
}


/// How far a state is from the end, apart from the windows that are left to try.
pub open spec fn win_stage(state: WinState<Seq<char>, Seq<u32>>) -> nat {
    match state {
        WinState::Session { .. } => 6,
        WinState::Processes { .. } => 5,
        WinState::ImagePath { .. } => 4,
        WinState::FindCli { .. } => 3,
        WinState::RunCli { .. } => 2,
        WinState::Raise { .. } => 1,
        WinState::Done(_) => 0,
    }
}

/// The event is an answer to what the state asks for.
pub open spec fn win_answers(
    state: WinState<Seq<char>, Seq<u32>>,
    event: WinEvent<Seq<char>, Seq<RowView>>,
) -> bool {
    match win_action(state) {
        WinAction::ResolveSession => event is Session,
        WinAction::ListProcesses => event is Processes,
        WinAction::ImagePath(_) => event is ImagePath,
        WinAction::FindCli { .. } => event is Cli,
        WinAction::RunCli { .. } => event is Ran,
        WinAction::RaiseWindow(_) => event is Raised,
        WinAction::Finish => false,
    }
}

/// Every answer brings the flow to a later stage, or leaves one window less to try, and
/// nothing else moves it.
pub proof fn law_windows_flow_ends(
    state: WinState<Seq<char>, Seq<u32>>,
    event: WinEvent<Seq<char>, Seq<RowView>>,
)
    ensures
        win_answers(state, event) ==> win_stage(win_next(state, event)) < win_stage(state) || (
        state matches WinState::Raise { left, .. } && win_next(state, event) matches WinState::Raise {
            left: fewer,
            ..
        } && fewer.len() < left.len()),
        !win_answers(state, event) ==> win_next(state, event) == state,
        win_stage(state) == 0 <==> state is Done,
{
}

/// Raising a window finds no tab, so that the very window is in front is claimed only where VS
/// Code's own tool succeeded.
pub proof fn law_a_raised_window_is_not_claimed(
    state: WinState<Seq<char>, Seq<u32>>,
    event: WinEvent<Seq<char>, Seq<RowView>>,
)
    requires
        !(state is Done),
        win_next(state, event) matches WinState::Done(
            Outcome::Focused { window_focused: true, .. },
        ),
    ensures
        state is RunCli,
        event == WinEvent::<Seq<char>, Seq<RowView>>::Ran(true),
{
}

/// What the system answers to each action of one run.
pub struct WinWorld {
    pub session: Option<u32>,
    pub processes: Result<Seq<RowView>, Seq<char>>,
    pub image_path: Option<Seq<char>>,
    pub cli: Option<Seq<char>>,
    pub cli_ran: bool,
    pub raise: spec_fn(u32) -> Result<(), Seq<char>>,
}

/// The answer to an action.
pub open spec fn win_reply(world: WinWorld, action: WinAction<Seq<char>>) -> WinEvent<
    Seq<char>,
    Seq<RowView>,
> {
    match action {
        WinAction::ResolveSession => WinEvent::Session(world.session),
        WinAction::ListProcesses => WinEvent::Processes(world.processes),
        WinAction::ImagePath(_) => WinEvent::ImagePath(world.image_path),
        WinAction::FindCli { .. } => WinEvent::Cli(world.cli),
        WinAction::RunCli { .. } => WinEvent::Ran(world.cli_ran),
        WinAction::RaiseWindow(pid) => WinEvent::Raised((world.raise)(pid)),
        WinAction::Finish => WinEvent::Ran(true),
    }
}

/// The state after `steps` answers.
pub open spec fn win_run(
    world: WinWorld,
    state: WinState<Seq<char>, Seq<u32>>,
    steps: nat,
) -> WinState<Seq<char>, Seq<u32>>
    decreases steps,
{
    if steps == 0 {
        state
    } else {
        win_run(world, win_next(state, win_reply(world, win_action(state))), (steps - 1) as nat)
    }
}

/// What comes of raising the windows of `pids` in turn: the first that can be raised is, and
/// where none can, the last refusal is the reason (`error` where there was none to try).
pub open spec fn raised(
    raise: spec_fn(u32) -> Result<(), Seq<char>>,
    app: Seq<char>,
    pids: Seq<u32>,
    error: Seq<char>,
) -> Outcome<Seq<char>>
    decreases pids.len(),
{
    if pids.len() == 0 {
        Outcome::Failed(error)
    } else {
        match raise(pids[0]) {
            Ok(_) => Outcome::Focused { app, window_focused: false },
            Err(message) => raised(raise, app, pids.skip(1), message),
        }
    }
}

/// How a request ends, read off the answers.
pub open spec fn win_outcome(world: WinWorld, agent: Seq<char>) -> Outcome<Seq<char>> {
    match world.session {
        None => Outcome::Failed(no_session(agent)),
        Some(claude_pid) => match world.processes {
            Err(message) => Outcome::Failed(message),
            Ok(rows) => {
                let chain = lineage(rows, claude_pid, MAX_ANCESTORS as nat);
                match first_terminal(chain) {
                    None => Outcome::Failed(NO_HOST@),
                    Some(host) => {
                        let app = app_name_of(host.kind)->0;
                        if host.kind == TerminalKind::VsCode && world.image_path is Some
                            && world.cli is Some && world.cli_ran {
                            Outcome::Focused { app, window_focused: true }
                        } else {
                            raised(
                                world.raise,
                                app,
                                pids_of_kind(chain, host.kind),
                                not_in_front(app),
                            )
                        }
                    },
                }
            },
        },
    }
}

proof fn lemma_done_stays(world: WinWorld, outcome: Outcome<Seq<char>>, steps: nat)
    ensures
        win_run(world, WinState::Done(outcome), steps) == WinState::<Seq<char>, Seq<u32>>::Done(
            outcome,
        ),
    decreases steps,
{
    if steps > 0 {
        lemma_done_stays(world, outcome, (steps - 1) as nat);
    }
}

proof fn lemma_raising_ends(
    world: WinWorld,
    app: Seq<char>,
    pids: Seq<u32>,
    error: Seq<char>,
    steps: nat,
)
    requires
        steps >= pids.len(),
    ensures
        win_run(world, raise_next(app, pids, error), steps) == WinState::<
            Seq<char>,
            Seq<u32>,
        >::Done(raised(world.raise, app, pids, error)),
    decreases pids.len(),
{
    if pids.len() == 0 {
        lemma_done_stays(world, Outcome::Failed(error), steps);
    } else {
        match (world.raise)(pids[0]) {
            Ok(_) => lemma_done_stays(
                world,
                Outcome::Focused { app, window_focused: false },
                (steps - 1) as nat,
            ),
            Err(message) => lemma_raising_ends(
                world,
                app,
                pids.skip(1),
                message,
                (steps - 1) as nat,
            ),
        }
    }
}

proof fn lemma_pids_of_kind_are_fewer(rows: Seq<RowView>, kind: TerminalKind)
    ensures
        pids_of_kind(rows, kind).len() <= rows.len(),
    decreases rows.len(),
{
    if rows.len() > 0 {
        lemma_pids_of_kind_are_fewer(rows.drop_last(), kind);
    }
}

/// From start to end the flow gives what the answers of the system call for.
pub proof fn law_windows_flow_gives_its_outcome(
    world: WinWorld,
    agent: Seq<char>,
    project: Seq<char>,
)
    ensures
        win_run(world, WinState::Session { agent, project }, 5 + MAX_ANCESTORS as nat)
            == WinState::<Seq<char>, Seq<u32>>::Done(win_outcome(world, agent)),
{
    let limit = MAX_ANCESTORS as nat;
    let start: WinState<Seq<char>, Seq<u32>> = WinState::Session { agent, project };
    let first = win_next(start, win_reply(world, win_action(start)));
    assert(win_run(world, start, 5 + limit) == win_run(world, first, 4 + limit));
    match world.session {
        None => lemma_done_stays(world, Outcome::Failed(no_session(agent)), 4 + limit),
        Some(claude_pid) => {
            let second = win_next(first, win_reply(world, win_action(first)));
            assert(win_run(world, first, 4 + limit) == win_run(world, second, 3 + limit));
            match world.processes {
                Err(message) => lemma_done_stays(world, Outcome::Failed(message), 3 + limit),
                Ok(rows) => {
                    let chain = lineage(rows, claude_pid, limit);
                    law_host_is_nearest_of_its_kind(chain);
                    match first_terminal(chain) {
                        None => lemma_done_stays(world, Outcome::Failed(NO_HOST@), 3 + limit),
                        Some(host) => {
                            let app = app_name_of(host.kind)->0;
                            let pids = pids_of_kind(chain, host.kind);
                            law_lineage_follows_parents(rows, claude_pid, limit);
                            lemma_pids_of_kind_are_fewer(chain, host.kind);
                            lemma_target_is_focused(
                                world,
                                Target { app, project, host_pid: host.pid, pids },
                                3 + limit,
                            );
                            lemma_raising_ends(world, app, pids, not_in_front(app), 3 + limit);
                        },
                    }
                },
            }
        },
    }
}

proof fn lemma_target_is_focused(
    world: WinWorld,
    target: Target<Seq<char>, Seq<u32>>,
    steps: nat,
)
    requires
        steps >= 3 + target.pids.len(),
    ensures
        win_run(world, WinState::ImagePath { target }, steps) == WinState::<
            Seq<char>,
            Seq<u32>,
        >::Done(
            if world.image_path is Some && world.cli is Some && world.cli_ran {
                Outcome::Focused { app: target.app, window_focused: true }
            } else {
                raised(world.raise, target.app, target.pids, not_in_front(target.app))
            },
        ),
{
    let refused = not_in_front(target.app);
    reveal_with_fuel(win_run, 4);
    lemma_raising_ends(world, target.app, target.pids, refused, (steps - 1) as nat);
    lemma_raising_ends(world, target.app, target.pids, refused, (steps - 2) as nat);
    lemma_raising_ends(world, target.app, target.pids, refused, (steps - 3) as nat);
    lemma_done_stays(
        world,
        Outcome::Focused { app: target.app, window_focused: true },
        (steps - 3) as nat,
    );
}

/// Raising works out exactly when the window of one of the processes can be raised.
pub proof fn law_raising_tries_every_process(
    raise: spec_fn(u32) -> Result<(), Seq<char>>,
    app: Seq<char>,
    pids: Seq<u32>,
    error: Seq<char>,
)
    ensures
        raised(raise, app, pids, error) is Focused <==> exists|i: int|
            0 <= i < pids.len() && raise(#[trigger] pids[i]) is Ok,
        raised(raise, app, pids, error) matches Outcome::Focused { app: name, window_focused }
            ==> name == app && !window_focused,
        raised(raise, app, pids, error) matches Outcome::Failed(message) ==> if pids.len() == 0 {
            message == error
        } else {
            raise(pids.last()) == Err::<(), Seq<char>>(message)
        },
    decreases pids.len(),
{
    if pids.len() > 0 {
        if let Err(message) = raise(pids[0]) {
            let rest = pids.skip(1);
            law_raising_tries_every_process(raise, app, rest, message);
            if exists|i: int| 0 <= i < rest.len() && raise(#[trigger] rest[i]) is Ok {
                let i = choose|i: int| 0 <= i < rest.len() && raise(#[trigger] rest[i]) is Ok;
                assert(pids[i + 1] == rest[i]);
            }
            if exists|i: int| 0 <= i < pids.len() && raise(#[trigger] pids[i]) is Ok {
                let i = choose|i: int| 0 <= i < pids.len() && raise(#[trigger] pids[i]) is Ok;
                assert(rest[i - 1] == pids[i]);
            }
            if rest.len() > 0 {
                assert(rest.last() == pids.last());
            }
        } else {
            assert(raise(pids[0]) is Ok);
        }
    }
}

/// A terminal, a state, an action and an event are seen as they are, with every text and number
/// they hold.
pub proof fn law_windows_values_are_seen_as_they_are(
    target: Target<String, Vec<u32>>,
    pid: u32,
    pids: Vec<u32>,
    rows: Vec<ProcRow>,
    a: String,
    b: String,
    maybe: Option<String>,
    yes: bool,
)
    ensures
        target@.app == target.app@,
        target@.project == target.project@,
        target@.host_pid == target.host_pid,
        target@.pids == target.pids@,
        (WinState::<String, Vec<u32>>::Session { agent: a, project: b })@ == (WinState::<
            Seq<char>,
            Seq<u32>,
        >::Session { agent: a@, project: b@ }),
        (WinState::<String, Vec<u32>>::Processes { claude_pid: pid, project: b })@ == (WinState::<
            Seq<char>,
            Seq<u32>,
        >::Processes { claude_pid: pid, project: b@ }),
        (WinState::ImagePath { target })@ == (WinState::ImagePath { target: target@ }),
        (WinState::FindCli { target, exe_path: a })@ == (WinState::FindCli {
            target: target@,
            exe_path: a@,
        }),
        (WinState::RunCli { target, cli: a })@ == (WinState::RunCli {
            target: target@,
            cli: a@,
        }),
        (WinState::Raise { app: a, pid, left: pids })@ == (WinState::Raise {
            app: a@,
            pid,
            left: pids@,
        }),
        WinAction::<String>::ImagePath(pid)@ == WinAction::<Seq<char>>::ImagePath(pid),
        (WinAction::FindCli { exe_path: a })@ == (WinAction::FindCli { exe_path: a@ }),
        (WinAction::RunCli { cli: a, folder: b })@ == (WinAction::RunCli {
            cli: a@,
            folder: b@,
        }),
        WinAction::<String>::RaiseWindow(pid)@ == WinAction::<Seq<char>>::RaiseWindow(pid),
        WinEvent::<String, Vec<ProcRow>>::Session(Some(pid))@ == WinEvent::<
            Seq<char>,
            Seq<RowView>,
        >::Session(Some(pid)),
        WinEvent::<String, Vec<ProcRow>>::Session(None)@ == WinEvent::<
            Seq<char>,
            Seq<RowView>,
        >::Session(None),
        WinEvent::<String, Vec<ProcRow>>::Processes(Ok(rows))@ == WinEvent::<
            Seq<char>,
            Seq<RowView>,
        >::Processes(Ok(row_views(rows@))),
        WinEvent::<String, Vec<ProcRow>>::Processes(Err(a))@ == WinEvent::<
            Seq<char>,
            Seq<RowView>,
        >::Processes(Err(a@)),
        WinEvent::<String, Vec<ProcRow>>::ImagePath(maybe)@ == WinEvent::<
            Seq<char>,
            Seq<RowView>,
        >::ImagePath(owned_view(maybe)),
        WinEvent::<String, Vec<ProcRow>>::Cli(maybe)@ == WinEvent::<
            Seq<char>,
            Seq<RowView>,
        >::Cli(owned_view(maybe)),
        WinEvent::<String, Vec<ProcRow>>::Ran(yes)@ == WinEvent::<Seq<char>, Seq<RowView>>::Ran(
            yes,
        ),
        WinEvent::<String, Vec<ProcRow>>::Raised(Ok(()))@ == WinEvent::<
            Seq<char>,
            Seq<RowView>,
        >::Raised(Ok(())),
        WinEvent::<String, Vec<ProcRow>>::Raised(Err(a))@ == WinEvent::<
            Seq<char>,
            Seq<RowView>,
        >::Raised(Err(a@)),
{
}

/// The state after these events.
pub open spec fn win_after(
    state: WinState<Seq<char>, Seq<u32>>,
    events: Seq<WinEvent<Seq<char>, Seq<RowView>>>,
) -> WinState<Seq<char>, Seq<u32>>
    decreases events.len(),
{
    if events.len() == 0 {
        state
    } else {
        win_next(win_after(state, events.drop_last()), events.last())
    }
}

/// The state is one of a run in the folder `project`.
spec fn runs_in(state: WinState<Seq<char>, Seq<u32>>, project: Seq<char>) -> bool {
    match state {
        WinState::Session { project: folder, .. } => folder == project,
        WinState::Processes { project: folder, .. } => folder == project,
        WinState::ImagePath { target } => target.project == project,
        WinState::FindCli { target, .. } => target.project == project,
        WinState::RunCli { target, .. } => target.project == project,
        WinState::Raise { .. } => true,
        WinState::Done(_) => true,
    }
}

proof fn lemma_run_stays_in(
    state: WinState<Seq<char>, Seq<u32>>,
    events: Seq<WinEvent<Seq<char>, Seq<RowView>>>,
    project: Seq<char>,
)
    requires
        runs_in(state, project),
    ensures
        runs_in(win_after(state, events), project),
    decreases events.len(),
{
    if events.len() > 0 {
        lemma_run_stays_in(state, events.drop_last(), project);
    }
}

/// Whatever comes of its actions, a run hands no folder to a tool but the session's own,
/// character for character.
pub proof fn law_the_tool_gets_the_folder_of_the_session(
    agent: Seq<char>,
    project: Seq<char>,
    events: Seq<WinEvent<Seq<char>, Seq<RowView>>>,
)
    ensures
        win_action(win_after(WinState::Session { agent, project }, events)) matches WinAction::RunCli {
            folder,
            ..
        } ==> folder == project,
{
    lemma_run_stays_in(WinState::Session { agent, project }, events, project);
}

/// A run asks for one thing after the other, each with what it was told before: the session,
/// the processes, and for VS Code the path of the host's executable, the tool next to that
/// executable and a run of that tool on the session's folder.
pub proof fn law_a_windows_run_asks_in_turn(
    world: WinWorld,
    agent: Seq<char>,
    project: Seq<char>,
    pid: u32,
    rows: Seq<RowView>,
    host: HostTerminal,
)
    requires
        world.session == Some(pid),
        world.processes == Ok::<Seq<RowView>, Seq<char>>(rows),
        first_terminal(lineage(rows, pid, 64)) == Some(host),
    ensures
        ({
            let start = WinState::<Seq<char>, Seq<u32>>::Session { agent, project };
            let step = |n: nat| win_action(win_run(world, start, n));
            let raise = WinAction::<Seq<char>>::RaiseWindow(host.pid);
            &&& step(0) == WinAction::<Seq<char>>::ResolveSession
            &&& step(1) == WinAction::<Seq<char>>::ListProcesses
            &&& host.kind != TerminalKind::VsCode ==> step(2) == raise
            &&& host.kind == TerminalKind::VsCode ==> {
                &&& step(2) == WinAction::<Seq<char>>::ImagePath(host.pid)
                &&& world.image_path is None ==> step(3) == raise
                &&& world.image_path matches Some(exe_path) ==> {
                    &&& step(3) == (WinAction::FindCli { exe_path })
                    &&& world.cli is None ==> step(4) == raise
                    &&& world.cli matches Some(cli) ==> {
                        &&& step(4) == (WinAction::RunCli { cli, folder: project })
                        &&& !world.cli_ran ==> step(5) == raise
                    }
                }
            }
        }),
{
    reveal_with_fuel(win_run, 6);
    law_host_is_nearest_of_its_kind(lineage(rows, pid, MAX_ANCESTORS as nat));
}

/// The windows are tried one after the other, nearest process first: where the first `n` cannot
/// be raised, the next one is tried, with the same app and those behind it left. Where none is
/// left, the last refusal is the reason.
pub proof fn law_windows_are_tried_in_turn(
    world: WinWorld,
    app: Seq<char>,
    pids: Seq<u32>,
    error: Seq<char>,
    n: nat,
)
    requires
        n <= pids.len(),
        forall|i: int| 0 <= i < n ==> (world.raise)(#[trigger] pids[i]) is Err,
    ensures
        n < pids.len() ==> win_run(world, raise_next(app, pids, error), n) == (WinState::Raise {
            app,
            pid: pids[n as int],
            left: pids.skip(n + 1int),
        }),
        n == pids.len() ==> win_run(world, raise_next(app, pids, error), n) == WinState::<
            Seq<char>,
            Seq<u32>,
        >::Done(
            Outcome::Failed(
                if n == 0 {
                    error
                } else {
                    (world.raise)(pids.last())->Err_0
                },
            ),
        ),
    decreases n,
{
    if n > 0 {
        let rest = pids.skip(1);
        assert((world.raise)(pids[0]) is Err);
        assert forall|i: int| 0 <= i < n - 1 implies (world.raise)(#[trigger] rest[i]) is Err by {
            assert(rest[i] == pids[i + 1]);
        }
        let message = (world.raise)(pids[0])->Err_0;
        law_windows_are_tried_in_turn(world, app, rest, message, (n - 1) as nat);
        if n < pids.len() {
            assert(rest[n - 1] == pids[n as int]);
            assert(rest.skip(n as int) =~= pids.skip(n + 1int));
        }
        if rest.len() > 0 {
            assert(rest.last() == pids.last());
        }
    }
}

/// A raised window ends a run with the app in front, and no claim on the very window. The
/// processes whose windows are tried are all those of the host's kind above the session, and
/// only where there is none to try the reason is that the app did not come to the front.
pub proof fn law_the_windows_of_the_host_are_tried(
    agent: Seq<char>,
    project: Seq<char>,
    pid: u32,
    rows: Seq<RowView>,
    host: HostTerminal,
    app: Seq<char>,
    left: Seq<u32>,
)
    requires
        first_terminal(lineage(rows, pid, 64)) == Some(host),
    ensures
        ({
            let listed = win_next(
                win_next(
                    WinState::<Seq<char>, Seq<u32>>::Session { agent, project },
                    WinEvent::Session(Some(pid)),
                ),
                WinEvent::Processes(Ok(rows)),
            );
            let pids = pids_of_kind(lineage(rows, pid, 64), host.kind);
            let name = app_name_of(host.kind)->0;
            let raise = WinState::Raise { app: name, pid: host.pid, left: pids.skip(1) };
            let target = Target { app: name, project, host_pid: host.pid, pids };
            &&& host.kind != TerminalKind::VsCode ==> listed == raise
            &&& host.kind == TerminalKind::VsCode ==> listed == (WinState::ImagePath { target })
                && win_next(listed, WinEvent::ImagePath(None)) == raise
        }),
        win_next(WinState::Raise { app, pid, left }, WinEvent::Raised(Ok(()))) == WinState::<
            Seq<char>,
            Seq<u32>,
        >::Done(Outcome::Focused { app, window_focused: false }),
        raise_next(app, Seq::empty(), not_in_front(app)) == WinState::<Seq<char>, Seq<u32>>::Done(
            Outcome::Failed(not_in_front(app)),
        ),
{
    law_host_is_nearest_of_its_kind(lineage(rows, pid, MAX_ANCESTORS as nat));
}

/// How a run ends. It fails with a message of its own where the session has no process, the
/// processes cannot be listed, or none of them is a host. Where the tool of VS Code succeeds,
/// the very window is in front; else the app is exactly where the window of some process of
/// its kind can be raised, and where none can, the last refusal is the reason.
pub proof fn law_a_windows_run_ends_with_its_answer(
    world: WinWorld,
    agent: Seq<char>,
    project: Seq<char>,
)
    ensures
        ({
            let end = win_run(world, WinState::Session { agent, project }, 69);
            let failed = |message: Seq<char>|
                end == WinState::<Seq<char>, Seq<u32>>::Done(Outcome::Failed(message));
            let focused = |app: Seq<char>, window_focused: bool|
                end == WinState::<Seq<char>, Seq<u32>>::Done(
                    Outcome::Focused { app, window_focused },
                );
            &&& world.session is None ==> failed(no_session(agent))
            &&& world.session is Some && world.processes is Err ==> failed(
                world.processes->Err_0,
            )
            &&& world.session is Some && world.processes is Ok ==> {
                let chain = lineage(world.processes->Ok_0, world.session->0, 64);
                match first_terminal(chain) {
                    None => failed("could not identify the host terminal"@),
                    Some(host) => {
                        let app = app_name_of(host.kind)->0;
                        let pids = pids_of_kind(chain, host.kind);
                        let by_tool = host.kind == TerminalKind::VsCode && world.image_path is Some
                            && world.cli is Some && world.cli_ran;
                        let raisable = exists|i: int|
                            0 <= i < pids.len() && (world.raise)(#[trigger] pids[i]) is Ok;
                        &&& by_tool ==> focused(app, true)
                        &&& !by_tool && raisable ==> focused(app, false)
                        &&& !by_tool && !raisable ==> failed((world.raise)(pids.last())->Err_0)
                    },
                }
            }
        }),
{
    law_windows_flow_gives_its_outcome(world, agent, project);
    if world.session is Some && world.processes is Ok {
        let chain = lineage(world.processes->Ok_0, world.session->0, MAX_ANCESTORS as nat);
        law_host_is_nearest_of_its_kind(chain);
        if let Some(host) = first_terminal(chain) {
            let app = app_name_of(host.kind)->0;
            let pids = pids_of_kind(chain, host.kind);
            law_raising_tries_every_process(world.raise, app, pids, not_in_front(app));
        }
    }
}

/// Each state asks for what it holds, as it is.
pub proof fn law_windows_states_ask_for_what_they_hold(
    target: Target<Seq<char>, Seq<u32>>,
    app: Seq<char>,
    pid: u32,
    left: Seq<u32>,
    text: Seq<char>,
)
    ensures
        win_action(WinState::ImagePath { target }) == WinAction::<Seq<char>>::ImagePath(
            target.host_pid,
        ),
        win_action(WinState::FindCli { target, exe_path: text }) == (WinAction::FindCli {
            exe_path: text,
        }),
        win_action(WinState::RunCli { target, cli: text }) == (WinAction::RunCli {
            cli: text,
            folder: target.project,
        }),
        win_action(WinState::Raise { app, pid, left }) == WinAction::<Seq<char>>::RaiseWindow(pid),
{
}

/// Once the terminal is known it stays the same until its windows are tried, and the tool that
/// is run is the one that was found.
pub proof fn law_the_target_stays_the_same(
    target: Target<Seq<char>, Seq<u32>>,
    text: Seq<char>,
    path: Option<Seq<char>>,
    success: bool,
)
    ensures
        ({
            let tried = raise_next(target.app, target.pids, not_in_front(target.app));
            &&& win_next(WinState::ImagePath { target }, WinEvent::ImagePath(path)) == match path {
                Some(exe_path) => WinState::FindCli { target, exe_path },
                None => tried,
            }
            &&& win_next(
                WinState::FindCli { target, exe_path: text },
                WinEvent::Cli(path),
            ) == match path {
                Some(cli) => WinState::RunCli { target, cli },
                None => tried,
            }
            &&& win_next(WinState::RunCli { target, cli: text }, WinEvent::Ran(success)) == if success {
                WinState::Done(Outcome::Focused { app: target.app, window_focused: true })
            } else {
                tried
            }
        }),
{
}

/// What does not answer the question of a state leaves it as it is, and nothing moves an end.
pub proof fn law_windows_other_events_change_nothing(
    state: WinState<Seq<char>, Seq<u32>>,
    event: WinEvent<Seq<char>, Seq<RowView>>,
)
    ensures
        state is Session && !(event is Session) ==> win_next(state, event) == state,
        state is Processes && !(event is Processes) ==> win_next(state, event) == state,
        state is ImagePath && !(event is ImagePath) ==> win_next(state, event) == state,
        state is FindCli && !(event is Cli) ==> win_next(state, event) == state,
        state is RunCli && !(event is Ran) ==> win_next(state, event) == state,
        state is Raise && !(event is Raised) ==> win_next(state, event) == state,
        state is Done ==> win_next(state, event) == state,
        state is Done <==> win_action(state) is Finish,
{
}

} // verus!
