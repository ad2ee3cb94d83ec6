//! Bringing a session's terminal to the front on macOS.
//!
//! The flow is a state machine. A state says what to do next (`action`); whoever does it hands
//! back what came of it (`advance`). The types hold texts of type `T`: `String` when they run,
//! sequences of characters when they are reasoned about.

use vstd::prelude::*;

use crate::focus::{
    front_error, no_session, not_in_front, session_error, Outcome, NO_HOST, UNSUPPORTED,
};
use crate::ps::{controlling_tty, output_rows, parse_ps_rows, tty_in};
use crate::script::{
    activate_script, build_activate_script, build_window_focus_script, focus_is_reliable,
    law_only_macos_terminals_have_a_script, reliable, window_focus_script,
};
use crate::terminal::{
    app_name, app_name_of, find_host_terminal, find_row, first_terminal,
    law_host_is_nearest_of_its_kind, law_lineage_follows_parents, law_pids_of_kind_are_that_kind,
    law_row_is_found, lineage, pids_of_kind, row_of, row_views, HostTerminal, RowView,
    TerminalKind, MAX_ANCESTORS,
};
use crate::text::{basename, basename_of, owned_view, text_view};

verus! {

/// The terminal to bring to the front, and what its window is known by.
#[derive(Debug, PartialEq, Eq)]
pub struct Front<T> {
    pub app: T,
    pub kind: TerminalKind,
    pub tty: Option<T>,
    pub project: T,
}

impl View for Front<String> {
    type V = Front<Seq<char>>;

    open spec fn view(&self) -> Front<Seq<char>> {
        Front {
            app: self.app@,
            kind: self.kind,
            tty: owned_view(self.tty),
            project: self.project@,
        }
    }
}

/// How far the flow has come.
#[derive(Debug, PartialEq, Eq)]
pub enum MacState<T> {
    /// The process of the session is looked for.
    Session { agent: T, project: T },
    /// The processes are listed.
    Processes { claude_pid: u32, project: T },
    /// The host terminal is known; the tty of the session is asked for.
    Tty { claude_pid: u32, project: T, host: HostTerminal, host_comm: Option<T> },
    /// The host is VS Code; its command line tool is looked for.
    FindCli { front: Front<T>, host_comm: T },
    /// The tool is run.
    RunCli { front: Front<T>, cli: T },
    /// The app is activated.
    Activate { front: Front<T> },
    /// The app is in front; its window is looked for.
    Window { front: Front<T>, script: T },
    /// There is nothing left to do.
    Done(Outcome<T>),
}

impl View for MacState<String> {
    type V = MacState<Seq<char>>;

    open spec fn view(&self) -> MacState<Seq<char>> {
        match self {
            MacState::Session { agent, project } => MacState::Session {
                agent: agent@,
                project: project@,
            },
            MacState::Processes { claude_pid, project } => MacState::Processes {
                claude_pid: *claude_pid,
                project: project@,
            },
            MacState::Tty { claude_pid, project, host, host_comm } => MacState::Tty {
                claude_pid: *claude_pid,
                project: project@,
                host: *host,
                host_comm: owned_view(*host_comm),
            },
            MacState::FindCli { front, host_comm } => MacState::FindCli {
                front: front@,
                host_comm: host_comm@,
            },
            MacState::RunCli { front, cli } => MacState::RunCli { front: front@, cli: cli@ },
            MacState::Activate { front } => MacState::Activate { front: front@ },
            MacState::Window { front, script } => MacState::Window {
                front: front@,
                script: script@,
            },
            MacState::Done(outcome) => MacState::Done(outcome@),
        }
    }
}

/// What to do next.
#[derive(Debug, PartialEq, Eq)]
pub enum MacAction<T> {
    /// Find the process of the session in the session files.
    ResolveSession,
    /// Run `ps -axo pid=,ppid=,comm=`.
    ListProcesses,
    /// Run `ps -o tty= -p <pid>`.
    ReadTty(u32),
    /// Find the tool that is bundled with this executable.
    FindCli { host_comm: T },
    /// Run `<cli> -r <folder>`.
    RunCli { cli: T, folder: T },
    /// Run this AppleScript; the app has to come to the front.
    Activate(T),
    /// Run this AppleScript; that it fails, for want of a permission, is expected.
    FocusWindow(T),
    /// Nothing.
    Finish,
}

impl View for MacAction<String> {
    type V = MacAction<Seq<char>>;

    open spec fn view(&self) -> MacAction<Seq<char>> {
        match self {
            MacAction::ResolveSession => MacAction::ResolveSession,
            MacAction::ListProcesses => MacAction::ListProcesses,
            MacAction::ReadTty(pid) => MacAction::ReadTty(*pid),
            MacAction::FindCli { host_comm } => MacAction::FindCli { host_comm: host_comm@ },
            MacAction::RunCli { cli, folder } => MacAction::RunCli { cli: cli@, folder: folder@ },
            MacAction::Activate(script) => MacAction::Activate(script@),
            MacAction::FocusWindow(script) => MacAction::FocusWindow(script@),
            MacAction::Finish => MacAction::Finish,
        }
    }
}

/// What came of an action.
#[derive(Debug, PartialEq, Eq)]
pub enum MacEvent<T> {
    /// The process of the session, if a session file names it.
    Session(Option<u32>),
    /// What listing the processes printed, or why it could not be run.
    Processes(Result<T, T>),
    /// What asking for the tty printed, if it could be run.
    Tty(Option<T>),
    /// The tool, if there is one.
    Cli(Option<T>),
    /// Whether a command ran and succeeded.
    Ran(bool),
}

impl View for MacEvent<String> {
    type V = MacEvent<Seq<char>>;

    open spec fn view(&self) -> MacEvent<Seq<char>> {
        match self {
            MacEvent::Session(pid) => MacEvent::Session(*pid),
            MacEvent::Processes(Ok(output)) => MacEvent::Processes(Ok(output@)),
            MacEvent::Processes(Err(message)) => MacEvent::Processes(Err(message@)),
            MacEvent::Tty(output) => MacEvent::Tty(owned_view(*output)),
            MacEvent::Cli(cli) => MacEvent::Cli(owned_view(*cli)),
            MacEvent::Ran(success) => MacEvent::Ran(*success),
        }
    }
}

/// What a state asks for.
pub open spec fn mac_action(state: MacState<Seq<char>>) -> MacAction<Seq<char>> {
    match state {
        MacState::Session { .. } => MacAction::ResolveSession,
        MacState::Processes { .. } => MacAction::ListProcesses,
        MacState::Tty { claude_pid, .. } => MacAction::ReadTty(claude_pid),
        MacState::FindCli { host_comm, .. } => MacAction::FindCli { host_comm },
        MacState::RunCli { front, cli } => MacAction::RunCli { cli, folder: front.project },
        MacState::Activate { front } => MacAction::Activate(activate_script(front.app)),
        MacState::Window { script, .. } => MacAction::FocusWindow(script),
        MacState::Done(_) => MacAction::Finish,
    }
}

/// What the list of processes leads to: the nearest terminal above the session's process, or a
/// failure where there is none.
pub open spec fn processes_listed(
    claude_pid: u32,
    project: Seq<char>,
    output: Seq<char>,
) -> MacState<Seq<char>> {
    let rows = output_rows(output);
    match first_terminal(lineage(rows, claude_pid, MAX_ANCESTORS as nat)) {
        None => MacState::Done(Outcome::Failed(NO_HOST@)),
        Some(host) => MacState::Tty {
            claude_pid,
            project,
            host,
            host_comm: match row_of(rows, host.pid) {
                Some(row) => Some(row.comm),
                None => None,
            },
        },
    }
}

/// What the tty leads to: for VS Code the search for its tool, which focuses the very window,
/// and for other terminals activation.
pub open spec fn tty_answered(
    project: Seq<char>,
    host: HostTerminal,
    host_comm: Option<Seq<char>>,
    output: Option<Seq<char>>,
) -> MacState<Seq<char>> {
    match app_name_of(host.kind) {
        None => MacState::Done(Outcome::Failed(UNSUPPORTED@)),
        Some(app) => {
            let front = Front { app, kind: host.kind, tty: tty_in(output), project };
            match host_comm {
                Some(comm) => if host.kind == TerminalKind::VsCode {
                    MacState::FindCli { front, host_comm: comm }
                } else {
                    MacState::Activate { front }
                },
                None => MacState::Activate { front },
            }
        },
    }
}

/// What activation leads to: where it worked, the search for the window if there is a script
/// for that.
pub open spec fn activation_ran(front: Front<Seq<char>>, success: bool) -> MacState<Seq<char>> {
    let script = window_focus_script(front.kind, front.tty, basename_of(front.project));
    if !success {
        MacState::Done(Outcome::Failed(not_in_front(front.app)))
    } else if script.len() == 0 {
        MacState::Done(Outcome::Focused { app: front.app, window_focused: false })
    } else {
        MacState::Window { front, script }
    }
}

/// The state that an event leads to. An event that does not answer the state's action leaves
/// the state as it is.
pub open spec fn mac_next(
    state: MacState<Seq<char>>,
    event: MacEvent<Seq<char>>,
) -> MacState<Seq<char>> {
    match (state, event) {
        (MacState::Session { agent, project }, MacEvent::Session(pid)) => match pid {
            None => MacState::Done(Outcome::Failed(no_session(agent))),
            Some(claude_pid) => MacState::Processes { claude_pid, project },
        },
        (MacState::Processes { claude_pid, project }, MacEvent::Processes(result)) => match result {
            Err(message) => MacState::Done(Outcome::Failed(message)),
            Ok(output) => processes_listed(claude_pid, project, output),
        },
        (MacState::Tty { project, host, host_comm, .. }, MacEvent::Tty(output)) => tty_answered(
            project,
            host,
            host_comm,
            output,
        ),
        (MacState::FindCli { front, .. }, MacEvent::Cli(found)) => match found {
            Some(cli) => MacState::RunCli { front, cli },
            None => MacState::Activate { front },
        },
        (MacState::RunCli { front, .. }, MacEvent::Ran(success)) => if success {
            MacState::Done(Outcome::Focused { app: front.app, window_focused: true })
        } else {
            MacState::Activate { front }
        },
        (MacState::Activate { front }, MacEvent::Ran(success)) => activation_ran(front, success),
        (MacState::Window { front, .. }, MacEvent::Ran(success)) => MacState::Done(
            Outcome::Focused {
                app: front.app,
                window_focused: success && reliable(front.kind, front.tty is Some),
            },
        ),
        _ => state,
    }
}

/// The optional text, borrowed.
fn borrowed(text: &Option<String>) -> (view: Option<&str>)
    ensures
        text_view(view) == owned_view(*text),
{
    match text {
        Some(text) => Some(text.as_str()),
        None => None,
    }
}

impl MacState<String> {
    /// The flow for a session of `agent` in the folder `project`, before anything was done.
    pub fn start(agent: String, project: String) -> (state: MacState<String>)
        ensures
            state@ == (MacState::Session { agent: agent@, project: project@ }),
    {
        MacState::Session { agent, project }
    }

    /// What to do next.
    pub fn action(&self) -> (action: MacAction<String>)
        ensures
            action@ == mac_action(self@),
    {
        match self {
            MacState::Session { .. } => MacAction::ResolveSession,
            MacState::Processes { .. } => MacAction::ListProcesses,
            MacState::Tty { claude_pid, .. } => MacAction::ReadTty(*claude_pid),
            MacState::FindCli { host_comm, .. } => MacAction::FindCli {
                host_comm: host_comm.clone(),
            },
            MacState::RunCli { front, cli } => MacAction::RunCli {
                cli: cli.clone(),
                folder: front.project.clone(),
            },
            MacState::Activate { front } => MacAction::Activate(
                build_activate_script(front.app.as_str()),
            ),
            MacState::Window { script, .. } => MacAction::FocusWindow(script.clone()),
            MacState::Done(_) => MacAction::Finish,
        }
    }

    /// Goes on from what came of the action.
    pub fn advance(self, event: MacEvent<String>) -> (next: MacState<String>)
        ensures
            next@ == mac_next(self@, event@),
    {
        match (self, event) {
            (MacState::Session { agent, project }, MacEvent::Session(pid)) => match pid {
                None => MacState::Done(Outcome::Failed(session_error(agent.as_str()))),
                Some(claude_pid) => MacState::Processes { claude_pid, project },
            },
            (
                MacState::Processes { claude_pid, project },
                MacEvent::Processes(result),
            ) => match result {
                Err(message) => MacState::Done(Outcome::Failed(message)),
                Ok(output) => Self::after_processes(claude_pid, project, output.as_str()),
            },
            (
                MacState::Tty { project, host, host_comm, .. },
                MacEvent::Tty(output),
            ) => Self::after_tty(project, host, host_comm, borrowed(&output)),
            (MacState::FindCli { front, .. }, MacEvent::Cli(found)) => match found {
                Some(cli) => MacState::RunCli { front, cli },
                None => MacState::Activate { front },
            },
            (MacState::RunCli { front, .. }, MacEvent::Ran(success)) => {
                if success {
                    MacState::Done(Outcome::Focused { app: front.app, window_focused: true })
                } else {
                    MacState::Activate { front }
                }
            },
            (MacState::Activate { front }, MacEvent::Ran(success)) => Self::after_activation(
                front,
                success,
            ),
            (MacState::Window { front, .. }, MacEvent::Ran(success)) => {
                let sure = focus_is_reliable(&front.kind, borrowed(&front.tty));
                MacState::Done(
                    Outcome::Focused { app: front.app, window_focused: success && sure },
                )
            },
            (state, _) => state,
        }
    }

    /// Goes on from the list of processes.
    fn after_processes(claude_pid: u32, project: String, output: &str) -> (next: MacState<String>)
        ensures
            next@ == processes_listed(claude_pid, project@, output@),
    {
        let rows = parse_ps_rows(output);
        match find_host_terminal(claude_pid, rows.as_slice()) {
            None => MacState::Done(Outcome::Failed(NO_HOST.to_owned())),
            Some(host) => {
                let host_comm = match find_row(rows.as_slice(), host.pid) {
                    Some(i) => Some(rows[i].comm.clone()),
                    None => None,
                };
                MacState::Tty { claude_pid, project, host, host_comm }
            },
        }
    }

    /// Goes on from the tty.
    fn after_tty(
        project: String,
        host: HostTerminal,
        host_comm: Option<String>,
        output: Option<&str>,
    ) -> (next: MacState<String>)
        ensures
            next@ == tty_answered(project@, host, owned_view(host_comm), text_view(output)),
    {
        let tty = controlling_tty(output);
        match app_name(&host.kind) {
            None => MacState::Done(Outcome::Failed(UNSUPPORTED.to_owned())),
            Some(app) => {
                let front = Front { app: app.to_owned(), kind: host.kind, tty, project };
                match host_comm {
                    Some(comm) => {
                        if host.kind == TerminalKind::VsCode {
                            MacState::FindCli { front, host_comm: comm }
                        } else {
                            MacState::Activate { front }
                        }
                    },
                    None => MacState::Activate { front },
                }
            },
        }
    }

    /// Goes on from activation.
    fn after_activation(front: Front<String>, success: bool) -> (next: MacState<String>)
        ensures
            next@ == activation_ran(front@, success),
    {
        if !success {
            return MacState::Done(Outcome::Failed(front_error(front.app.as_str())));
        }
        let needle = basename(front.project.as_str());
        let script = build_window_focus_script(
            &front.kind,
            borrowed(&front.tty),
            needle.as_str(),
        );
        if script.as_str().is_empty() {
            MacState::Done(Outcome::Focused { app: front.app, window_focused: false })
        } else {
            MacState::Window { front, script }
        }
    }
}


/// How many answers a state is away from the end, at most.
pub open spec fn mac_distance(state: MacState<Seq<char>>) -> nat {
    match state {
        MacState::Session { .. } => 7,
        MacState::Processes { .. } => 6,
        MacState::Tty { .. } => 5,
        MacState::FindCli { .. } => 4,
        MacState::RunCli { .. } => 3,
        MacState::Activate { .. } => 2,
        MacState::Window { .. } => 1,
        MacState::Done(_) => 0,
    }
}

/// The event is an answer to what the state asks for.
pub open spec fn mac_answers(state: MacState<Seq<char>>, event: MacEvent<Seq<char>>) -> bool {
    match mac_action(state) {
        MacAction::ResolveSession => event is Session,
        MacAction::ListProcesses => event is Processes,
        MacAction::ReadTty(_) => event is Tty,
        MacAction::FindCli { .. } => event is Cli,
        MacAction::RunCli { .. } => event is Ran,
        MacAction::Activate(_) => event is Ran,
        MacAction::FocusWindow(_) => event is Ran,
        MacAction::Finish => false,
    }
}

/// Every answer brings the flow nearer to its end, and nothing else moves it.
pub proof fn law_macos_flow_ends(state: MacState<Seq<char>>, event: MacEvent<Seq<char>>)
    ensures
        mac_answers(state, event) ==> mac_distance(mac_next(state, event)) < mac_distance(state),
        !mac_answers(state, event) ==> mac_next(state, event) == state,
        mac_distance(state) == 0 <==> state is Done,
{
}

/// Once the app was activated, nothing that comes of looking for the window is a failure.
pub proof fn law_activation_is_enough(front: Front<Seq<char>>, event: MacEvent<Seq<char>>)
    ensures
        !(mac_next(MacState::Activate { front }, MacEvent::Ran(true)) matches MacState::Done(
            Outcome::Failed(_),
        )),
        forall|script: Seq<char>|
            !(#[trigger] mac_next(MacState::Window { front, script }, event) matches MacState::Done(
                Outcome::Failed(_),
            )),
{
}

/// A window is looked for only once the app is in front.
pub proof fn law_activation_comes_before_the_window(
    state: MacState<Seq<char>>,
    event: MacEvent<Seq<char>>,
)
    requires
        !(state is Window),
        mac_next(state, event) is Window,
    ensures
        state is Activate,
        event == MacEvent::<Seq<char>>::Ran(true),
{
}

/// That the very window is in front is claimed only where VS Code's own tool succeeded, or
/// where a window was selected by its tty.
pub proof fn law_only_a_sure_window_is_claimed(
    state: MacState<Seq<char>>,
    event: MacEvent<Seq<char>>,
)
    requires
        !(state is Done),
        mac_next(state, event) matches MacState::Done(
            Outcome::Focused { window_focused: true, .. },
        ),
    ensures
        event == MacEvent::<Seq<char>>::Ran(true),
        match state {
            MacState::RunCli { .. } => true,
            MacState::Window { front, .. } => reliable(front.kind, front.tty is Some),
            _ => false,
        },
{
}

/// What the system answers to each action of one run.
pub struct MacWorld {
    pub session: Option<u32>,
    pub processes: Result<Seq<char>, Seq<char>>,
    pub tty: Option<Seq<char>>,
    pub cli: Option<Seq<char>>,
    pub cli_ran: bool,
    pub activated: bool,
    pub window_ran: bool,
}

/// The answer to an action.
pub open spec fn mac_reply(world: MacWorld, action: MacAction<Seq<char>>) -> MacEvent<Seq<char>> {
    match action {
        MacAction::ResolveSession => MacEvent::Session(world.session),
        MacAction::ListProcesses => MacEvent::Processes(world.processes),
        MacAction::ReadTty(_) => MacEvent::Tty(world.tty),
        MacAction::FindCli { .. } => MacEvent::Cli(world.cli),
        MacAction::RunCli { .. } => MacEvent::Ran(world.cli_ran),
        MacAction::Activate(_) => MacEvent::Ran(world.activated),
        MacAction::FocusWindow(_) => MacEvent::Ran(world.window_ran),
        MacAction::Finish => MacEvent::Ran(true),
    }
}

/// The state after `steps` answers.
pub open spec fn mac_run(
    world: MacWorld,
    state: MacState<Seq<char>>,
    steps: nat,
) -> MacState<Seq<char>>
    decreases steps,
{
    if steps == 0 {
        state
    } else {
        mac_run(world, mac_next(state, mac_reply(world, mac_action(state))), (steps - 1) as nat)
    }
}

/// How a request ends, read off the answers. It fails where the session has no process, where
/// the processes cannot be listed, where none of them is the host, or where the app does not
/// come to the front, unless VS Code's own tool did the work.
pub open spec fn mac_outcome(world: MacWorld, agent: Seq<char>) -> Outcome<Seq<char>> {
    match world.session {
        None => Outcome::Failed(no_session(agent)),
        Some(claude_pid) => match world.processes {
            Err(message) => Outcome::Failed(message),
            Ok(output) => match first_terminal(
                lineage(output_rows(output), claude_pid, MAX_ANCESTORS as nat),
            ) {
                None => Outcome::Failed(NO_HOST@),
                Some(host) => {
                    let app = app_name_of(host.kind)->0;
                    if host.kind == TerminalKind::VsCode && world.cli is Some && world.cli_ran {
                        Outcome::Focused { app, window_focused: true }
                    } else if !world.activated {
                        Outcome::Failed(not_in_front(app))
                    } else {
                        Outcome::Focused {
                            app,
                            window_focused: world.window_ran && reliable(
                                host.kind,
                                tty_in(world.tty) is Some,
                            ),
                        }
                    }
                },
            },
        },
    }
}

/// From start to end the flow gives what the answers of the system call for.
pub proof fn law_macos_flow_gives_its_outcome(
    world: MacWorld,
    agent: Seq<char>,
    project: Seq<char>,
)
    ensures
        mac_run(world, MacState::Session { agent, project }, 7) == MacState::Done(
            mac_outcome(world, agent),
        ),
{
    reveal_with_fuel(mac_run, 8);
    if let Some(claude_pid) = world.session {
        if let Ok(output) = world.processes {
            let rows = output_rows(output);
            let chain = lineage(rows, claude_pid, MAX_ANCESTORS as nat);
            law_host_is_nearest_of_its_kind(chain);
            if let Some(host) = first_terminal(chain) {
                lemma_host_has_a_row(rows, claude_pid, host);
                law_only_macos_terminals_have_a_script(
                    host.kind,
                    tty_in(world.tty),
                    basename_of(project),
                );
            }
        }
    }
}

proof fn lemma_host_has_a_row(rows: Seq<RowView>, claude_pid: u32, host: HostTerminal)
    requires
        first_terminal(lineage(rows, claude_pid, MAX_ANCESTORS as nat)) == Some(host),
    ensures
        row_of(rows, host.pid) is Some,
{
    let chain = lineage(rows, claude_pid, MAX_ANCESTORS as nat);
    law_host_is_nearest_of_its_kind(chain);
    law_pids_of_kind_are_that_kind(chain, host.kind, host.pid);
    assert(pids_of_kind(chain, host.kind).contains(host.pid));
    let i = choose|i: int| 0 <= i < chain.len() && (#[trigger] chain[i]).pid == host.pid;
    law_lineage_follows_parents(rows, claude_pid, MAX_ANCESTORS as nat);
    assert(rows.contains(chain[i]));
    law_row_is_found(rows, host.pid);
}

/// A terminal, a state, an action and an event are seen as they are, with every text and number
/// they hold.
pub proof fn law_macos_values_are_seen_as_they_are(
    front: Front<String>,
    host: HostTerminal,
    pid: u32,
    a: String,
    b: String,
    maybe: Option<String>,
    yes: bool,
)
    ensures
        front@.app == front.app@,
        front@.kind == front.kind,
        front@.tty == owned_view(front.tty),
        front@.project == front.project@,
        (MacState::Session { agent: a, project: b })@ == (MacState::Session {
            agent: a@,
            project: b@,
        }),
        (MacState::Processes { claude_pid: pid, project: b })@ == (MacState::Processes {
            claude_pid: pid,
            project: b@,
        }),
        (MacState::Tty { claude_pid: pid, project: b, host, host_comm: maybe })@ == (
        MacState::Tty { claude_pid: pid, project: b@, host, host_comm: owned_view(maybe) }),
        (MacState::FindCli { front, host_comm: a })@ == (MacState::FindCli {
            front: front@,
            host_comm: a@,
        }),
        (MacState::RunCli { front, cli: a })@ == (MacState::RunCli { front: front@, cli: a@ }),
        (MacState::Activate { front })@ == (MacState::Activate { front: front@ }),
        (MacState::Window { front, script: a })@ == (MacState::Window {
            front: front@,
            script: a@,
        }),
        MacAction::<String>::ReadTty(pid)@ == MacAction::<Seq<char>>::ReadTty(pid),
        (MacAction::FindCli { host_comm: a })@ == (MacAction::FindCli { host_comm: a@ }),
        (MacAction::RunCli { cli: a, folder: b })@ == (MacAction::RunCli {
            cli: a@,
            folder: b@,
        }),
        MacAction::Activate(a)@ == MacAction::Activate(a@),
        MacAction::FocusWindow(a)@ == MacAction::FocusWindow(a@),
        MacEvent::<String>::Session(Some(pid))@ == MacEvent::<Seq<char>>::Session(Some(pid)),
        MacEvent::<String>::Session(None)@ == MacEvent::<Seq<char>>::Session(None),
        MacEvent::<String>::Processes(Ok(a))@ == MacEvent::<Seq<char>>::Processes(Ok(a@)),
        MacEvent::<String>::Processes(Err(a))@ == MacEvent::<Seq<char>>::Processes(Err(a@)),
        MacEvent::Tty(maybe)@ == MacEvent::<Seq<char>>::Tty(owned_view(maybe)),
        MacEvent::Cli(maybe)@ == MacEvent::<Seq<char>>::Cli(owned_view(maybe)),
        MacEvent::<String>::Ran(yes)@ == MacEvent::<Seq<char>>::Ran(yes),
{
}

/// The tty that is asked for is that of the session's own process: whichever terminal the list
/// of processes shows as the host, the pid is the one that the session was resolved to.
pub proof fn law_the_tty_is_asked_of_the_session(
    agent: Seq<char>,
    project: Seq<char>,
    pid: u32,
    output: Seq<char>,
)
    requires
        first_terminal(lineage(output_rows(output), pid, 64)) is Some,
    ensures
        mac_action(
            mac_next(
                mac_next(MacState::Session { agent, project }, MacEvent::Session(Some(pid))),
                MacEvent::Processes(Ok(output)),
            ),
        ) == MacAction::<Seq<char>>::ReadTty(pid),
{
}

/// The state after these events.
pub open spec fn mac_after(
    state: MacState<Seq<char>>,
    events: Seq<MacEvent<Seq<char>>>,
) -> MacState<Seq<char>>
    decreases events.len(),
{
    if events.len() == 0 {
        state
    } else {
        mac_next(mac_after(state, events.drop_last()), events.last())
    }
}

/// The state is one of a run for the process `pid` in the folder `project`.
spec fn runs_for(state: MacState<Seq<char>>, pid: u32, project: Seq<char>) -> bool {
    match state {
        MacState::Session { .. } => false,
        MacState::Processes { claude_pid, project: folder } => claude_pid == pid && folder
            == project,
        MacState::Tty { claude_pid, project: folder, .. } => claude_pid == pid && folder
            == project,
        MacState::FindCli { front, .. } => front.project == project,
        MacState::RunCli { front, .. } => front.project == project,
        MacState::Activate { front } => front.project == project,
        MacState::Window { front, .. } => front.project == project,
        MacState::Done(_) => true,
    }
}

proof fn lemma_run_stays(
    state: MacState<Seq<char>>,
    events: Seq<MacEvent<Seq<char>>>,
    pid: u32,
    project: Seq<char>,
)
    requires
        runs_for(state, pid, project),
    ensures
        runs_for(mac_after(state, events), pid, project),
    decreases events.len(),
{
    if events.len() > 0 {
        lemma_run_stays(state, events.drop_last(), pid, project);
    }
}

/// Whatever comes of its actions, a run stays with its session: any tty it asks for is that of
/// the session's process, and any folder it hands to a tool is the session's own, character for
/// character.
pub proof fn law_a_macos_run_stays_with_its_session(
    agent: Seq<char>,
    project: Seq<char>,
    pid: u32,
    events: Seq<MacEvent<Seq<char>>>,
)
    ensures
        ({
            let start = mac_next(
                MacState::Session { agent, project },
                MacEvent::Session(Some(pid)),
            );
            match mac_action(mac_after(start, events)) {
                MacAction::ReadTty(asked) => asked == pid,
                MacAction::RunCli { folder, .. } => folder == project,
                _ => true,
            }
        }),
{
    let start = mac_next(MacState::Session { agent, project }, MacEvent::Session(Some(pid)));
    lemma_run_stays(start, events, pid, project);
}

/// A run asks for one thing after the other, each with what it was told before: the session,
/// the processes, the tty of the session's process, for VS Code its tool by the executable of
/// the host and a run of that tool on the session's folder, and where that does not do, the
/// activation of the host by its name and the window by the host's kind, the tty and the last
/// component of the folder.
pub proof fn law_a_macos_run_asks_in_turn(
    world: MacWorld,
    agent: Seq<char>,
    project: Seq<char>,
    pid: u32,
    output: Seq<char>,
    host: HostTerminal,
)
    requires
        world.session == Some(pid),
        world.processes == Ok::<Seq<char>, Seq<char>>(output),
        first_terminal(lineage(output_rows(output), pid, 64)) == Some(host),
    ensures
        ({
            let start = MacState::Session { agent, project };
            let step = |n: nat| mac_action(mac_run(world, start, n));
            let activate = MacAction::Activate(activate_script(app_name_of(host.kind)->0));
            let script = window_focus_script(
                host.kind,
                tty_in(world.tty),
                basename_of(project),
            );
            let focus = MacAction::FocusWindow(script);
            &&& step(0) == MacAction::<Seq<char>>::ResolveSession
            &&& step(1) == MacAction::<Seq<char>>::ListProcesses
            &&& step(2) == MacAction::<Seq<char>>::ReadTty(pid)
            &&& host.kind != TerminalKind::VsCode ==> {
                &&& step(3) == activate
                &&& world.activated && script.len() > 0 ==> step(4) == focus
            }
            &&& host.kind == TerminalKind::VsCode ==> {
                &&& step(3) == (MacAction::FindCli {
                    host_comm: row_of(output_rows(output), host.pid)->0.comm,
                })
                &&& world.cli matches Some(cli) ==> {
                    &&& step(4) == (MacAction::RunCli { cli, folder: project })
                    &&& !world.cli_ran ==> step(5) == activate
                    &&& !world.cli_ran && world.activated ==> step(6) == focus
                }
                &&& world.cli is None ==> {
                    &&& step(4) == activate
                    &&& world.activated ==> step(5) == focus
                }
            }
        }),
{
    reveal_with_fuel(mac_run, 8);
    let rows = output_rows(output);
    let chain = lineage(rows, pid, MAX_ANCESTORS as nat);
    law_host_is_nearest_of_its_kind(chain);
    lemma_host_has_a_row(rows, pid, host);
    law_only_macos_terminals_have_a_script(host.kind, tty_in(world.tty), basename_of(project));
}

/// How a run ends. It fails with a message of its own where the session has no process, the
/// processes cannot be listed, none of them is a host, or the host does not come to the front;
/// else the host is in front, and the very window is only where the tool of VS Code succeeded,
/// or the script for a window that a tty identifies.
pub proof fn law_a_macos_run_ends_with_its_answer(
    world: MacWorld,
    agent: Seq<char>,
    project: Seq<char>,
)
    ensures
        ({
            let end = mac_run(world, MacState::Session { agent, project }, 7);
            let failed = |message: Seq<char>| end == MacState::Done(Outcome::Failed(message));
            &&& world.session is None ==> failed(no_session(agent))
            &&& world.session is Some && world.processes is Err ==> failed(
                world.processes->Err_0,
            )
            &&& world.session is Some && world.processes is Ok ==> match first_terminal(
                lineage(output_rows(world.processes->Ok_0), world.session->0, 64),
            ) {
                None => failed("could not identify the host terminal"@),
                Some(host) => {
                    let app = app_name_of(host.kind)->0;
                    let by_tool = host.kind == TerminalKind::VsCode && world.cli is Some
                        && world.cli_ran;
                    &&& by_tool ==> end == MacState::Done(
                        Outcome::Focused { app, window_focused: true },
                    )
                    &&& !by_tool && !world.activated ==> failed(not_in_front(app))
                    &&& !by_tool && world.activated ==> end == MacState::Done(
                        Outcome::Focused {
                            app,
                            window_focused: world.window_ran && tty_in(world.tty) is Some && (
                            host.kind == TerminalKind::TerminalApp || host.kind
                                == TerminalKind::ITerm2),
                        },
                    )
                },
            }
        }),
{
    law_macos_flow_gives_its_outcome(world, agent, project);
}

/// The terminal that the flow is about, once it is known.
pub open spec fn front_of(state: MacState<Seq<char>>) -> Option<Front<Seq<char>>> {
    match state {
        MacState::FindCli { front, .. } => Some(front),
        MacState::RunCli { front, .. } => Some(front),
        MacState::Activate { front } => Some(front),
        MacState::Window { front, .. } => Some(front),
        _ => None,
    }
}

/// Once the terminal is known it stays the same, and every end is about it: the app that is
/// reported, or that could not be brought to the front, is that terminal's.
pub proof fn law_the_terminal_stays_the_same(
    state: MacState<Seq<char>>,
    event: MacEvent<Seq<char>>,
    front: Front<Seq<char>>,
)
    requires
        front_of(state) == Some(front),
    ensures
        match mac_next(state, event) {
            MacState::FindCli { front: later, .. } => later == front,
            MacState::RunCli { front: later, .. } => later == front,
            MacState::Activate { front: later } => later == front,
            MacState::Window { front: later, .. } => later == front,
            MacState::Done(Outcome::Focused { app, .. }) => app == front.app,
            MacState::Done(Outcome::Failed(message)) => message == not_in_front(front.app),
            _ => false,
        },
        mac_next(state, event) matches MacState::RunCli { cli, .. } ==> state is RunCli || event
            == MacEvent::<Seq<char>>::Cli(Some(cli)),
        mac_next(state, event) matches MacState::Window { script, .. } ==> state is Window
            || script == window_focus_script(front.kind, front.tty, basename_of(front.project)),
{
}

/// Each state asks for what it holds, as it is.
pub proof fn law_macos_states_ask_for_what_they_hold(
    front: Front<Seq<char>>,
    host: HostTerminal,
    pid: u32,
    project: Seq<char>,
    host_comm: Option<Seq<char>>,
    text: Seq<char>,
)
    ensures
        mac_action(MacState::Tty { claude_pid: pid, project, host, host_comm }) == MacAction::<
            Seq<char>,
        >::ReadTty(pid),
        mac_action(MacState::FindCli { front, host_comm: text }) == (MacAction::FindCli {
            host_comm: text,
        }),
        mac_action(MacState::RunCli { front, cli: text }) == (MacAction::RunCli {
            cli: text,
            folder: front.project,
        }),
        mac_action(MacState::Activate { front }) == MacAction::Activate(
            "tell application \""@ + front.app + "\" to activate"@,
        ),
        mac_action(MacState::Window { front, script: text }) == MacAction::FocusWindow(text),
{
}

/// The tty and the terminal come together: the tool of VS Code is looked for by the executable
/// of the host, any other terminal is activated, and each is known by its name, its kind, the
/// tty that was printed and the session's folder.
pub proof fn law_the_terminal_is_what_was_found(
    pid: u32,
    project: Seq<char>,
    host: HostTerminal,
    comm: Seq<char>,
    printed: Option<Seq<char>>,
)
    ensures
        ({
            let tty = MacState::Tty { claude_pid: pid, project, host, host_comm: Some(comm) };
            let front = Front {
                app: app_name_of(host.kind)->0,
                kind: host.kind,
                tty: tty_in(printed),
                project,
            };
            let next = mac_next(tty, MacEvent::Tty(printed));
            &&& host.kind == TerminalKind::VsCode ==> next == (MacState::FindCli {
                front,
                host_comm: comm,
            })
            &&& host.kind != TerminalKind::VsCode && host.kind != TerminalKind::Unknown ==> next
                == (MacState::Activate { front })
            &&& host.kind == TerminalKind::Unknown ==> next == MacState::Done(
                Outcome::Failed("unsupported terminal"@),
            )
            &&& host.kind != TerminalKind::Unknown ==> mac_next(
                MacState::Tty { claude_pid: pid, project, host, host_comm: None },
                MacEvent::Tty(printed),
            ) == (MacState::Activate { front })
        }),
{
}

/// The host that the list of processes shows is kept with the path of its executable, the
/// session's process and its folder.
pub proof fn law_the_host_is_kept(pid: u32, project: Seq<char>, output: Seq<char>)
    ensures
        ({
            let rows = output_rows(output);
            let next = mac_next(
                MacState::Processes { claude_pid: pid, project },
                MacEvent::Processes(Ok(output)),
            );
            match first_terminal(lineage(rows, pid, 64)) {
                None => next == MacState::Done(
                    Outcome::Failed("could not identify the host terminal"@),
                ),
                Some(host) => exists|row: RowView| #[trigger]
                    rows.contains(row) && row.pid == host.pid && row_of(rows, host.pid) == Some(row)
                        && next == (MacState::Tty {
                        claude_pid: pid,
                        project,
                        host,
                        host_comm: Some(row.comm),
                    }),
            }
        }),
{
    let rows = output_rows(output);
    if let Some(host) = first_terminal(lineage(rows, pid, MAX_ANCESTORS as nat)) {
        lemma_host_has_a_row(rows, pid, host);
        law_row_is_found(rows, host.pid);
        assert(rows.contains(row_of(rows, host.pid)->0));
    }
}

/// From a known terminal on, each answer leads to one thing. A tool that is found is run, and
/// where none is, or it fails, the app is activated. An app that comes to the front has its
/// window looked for where there is a script for that, and a window counts as the very one only
/// where the script ran and a tty told it apart.
pub proof fn law_each_macos_answer_leads_on(
    front: Front<Seq<char>>,
    text: Seq<char>,
    found: Option<Seq<char>>,
    success: bool,
)
    ensures
        ({
            let activate = MacState::Activate { front };
            let focused = |window_focused: bool|
                MacState::Done(Outcome::Focused { app: front.app, window_focused });
            let by_tty = front.kind == TerminalKind::TerminalApp || front.kind
                == TerminalKind::ITerm2;
            let by_title = front.kind == TerminalKind::VsCode || front.kind
                == TerminalKind::Ghostty;
            let script = window_focus_script(
                front.kind,
                front.tty,
                basename_of(front.project),
            );
            &&& mac_next(
                MacState::FindCli { front, host_comm: text },
                MacEvent::Cli(found),
            ) == match found {
                Some(cli) => MacState::RunCli { front, cli },
                None => activate,
            }
            &&& mac_next(MacState::RunCli { front, cli: text }, MacEvent::Ran(true)) == focused(
                true,
            )
            &&& mac_next(MacState::RunCli { front, cli: text }, MacEvent::Ran(false)) == activate
            &&& mac_next(activate, MacEvent::Ran(false)) == MacState::Done(
                Outcome::Failed("could not bring "@ + front.app + " to the front"@),
            )
            &&& mac_next(activate, MacEvent::Ran(true)) == if by_tty || by_title {
                MacState::Window { front, script }
            } else {
                focused(false)
            }
            &&& mac_next(
                MacState::Window { front, script: text },
                MacEvent::Ran(success),
            ) == focused(success && by_tty && front.tty is Some)
        }),
{
    law_only_macos_terminals_have_a_script(front.kind, front.tty, basename_of(front.project));
}

/// What does not answer the question of a state leaves it as it is, and nothing moves an end.
pub proof fn law_macos_other_events_change_nothing(
    state: MacState<Seq<char>>,
    event: MacEvent<Seq<char>>,
)
    ensures
        state is Session && !(event is Session) ==> mac_next(state, event) == state,
        state is Processes && !(event is Processes) ==> mac_next(state, event) == state,
        state is Tty && !(event is Tty) ==> mac_next(state, event) == state,
        state is FindCli && !(event is Cli) ==> mac_next(state, event) == state,
        (state is RunCli || state is Activate || state is Window) && !(event is Ran) ==> mac_next(
            state,
            event,
        ) == state,
        state is Done ==> mac_next(state, event) == state,
        state is Done <==> mac_action(state) is Finish,
{
}

} // verus!
