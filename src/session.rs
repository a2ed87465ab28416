use vstd::prelude::*;

use crate::app::{
    command_positions, next_selection, previous_selection, selected_command_of, App,
};

verus! {

/// The two mutually exclusive modes of the terminal: raw input on the
/// alternate screen while the menu is drawn, or the ordinary line-buffered
/// screen while a command prints its own output.
#[derive(PartialEq, Eq, Structural, Clone, Copy, Debug)]
pub enum TerminalMode {
    Ui,
    PassThrough,
}

/// The keys the menu reacts to; every other key is `Other`.
#[derive(PartialEq, Eq, Structural, Clone, Copy, Debug)]
pub enum Key {
    Quit,
    Down,
    Up,
    Enter,
    Other,
}

/// What came of the last action handed out.
#[derive(PartialEq, Eq, Structural, Clone, Copy, Debug)]
pub enum Event {
    /// A key was read while waiting on the menu.
    Key(Key),
    /// The action was carried out.
    Done,
    /// The command could not be started at all.
    SpawnFailed,
    /// A terminal or input operation failed; there is no recovery.
    Failed,
}

/// Where the session stands, each phase waiting on the outcome of the
/// action that led into it.
#[derive(PartialEq, Eq, Structural, Clone, Copy, Debug)]
pub enum Phase {
    /// Entering the menu's terminal mode.
    Resuming,
    /// The menu is drawn and a key is awaited.
    Menu,
    /// Leaving the menu's terminal mode to run the selected command.
    Suspending,
    /// The selected command runs.
    Running,
    /// Waiting for the user to confirm they have read the output.
    Confirming,
    /// The terminal was handed back; the flag tells whether it ended in failure.
    Finished(bool),
}

/// The next thing to do, carried out by the caller before it reports the
/// outcome back.
#[derive(PartialEq, Eq, Debug)]
pub enum Action {
    /// Enable raw input, enter the alternate screen and clear it.
    EnterUi,
    /// Draw the menu and read one key.
    AwaitKey,
    /// Disable raw input and leave the alternate screen.
    EnterPassThrough,
    /// Run this command line in a shell and wait for it to exit.
    Execute(String),
    /// Tell whether the command could be started, then read one line.
    AwaitConfirmation(bool),
    /// Give the terminal back in its ordinary mode and end; the flag tells
    /// whether the session ended in failure.
    Shutdown(bool),
}

/// The terminal mode that holds once the action leading into `p` is done.
pub open spec fn mode_of(p: Phase) -> TerminalMode {
    match p {
        Phase::Resuming | Phase::Menu => TerminalMode::Ui,
        _ => TerminalMode::PassThrough,
    }
}

/// The phase after `e` is reported in phase `p`; `has_command` tells whether
/// the menu has a selected command.
pub open spec fn next_phase(p: Phase, e: Event, has_command: bool) -> Phase {
    match p {
        Phase::Finished(failed) => Phase::Finished(failed),
        _ => if e == Event::Failed {
            Phase::Finished(true)
        } else {
            match p {
                Phase::Resuming => Phase::Menu,
                Phase::Menu => match e {
                    Event::Key(Key::Quit) => Phase::Finished(false),
                    Event::Key(Key::Enter) => if has_command {
                        Phase::Suspending
                    } else {
                        Phase::Menu
                    },
                    _ => Phase::Menu,
                },
                Phase::Suspending => Phase::Running,
                Phase::Running => Phase::Confirming,
                _ => Phase::Resuming,
            }
        },
    }
}

/// The action handed out when `e` is reported in phase `p`; `command` is the
/// selected command line, if any.
pub open spec fn action_for(p: Phase, e: Event, command: Option<String>) -> Action {
    match next_phase(p, e, command is Some) {
        Phase::Finished(failed) => Action::Shutdown(failed),
        Phase::Menu => Action::AwaitKey,
        Phase::Suspending => Action::EnterPassThrough,
        Phase::Running => Action::Execute(command->0),
        Phase::Confirming => Action::AwaitConfirmation(e != Event::SpawnFailed),
        Phase::Resuming => Action::EnterUi,
    }
}

/// The selection after `e` is reported in phase `p`: the arrow keys move it
/// while the menu waits on a key, and nothing else does.
pub open spec fn navigated(p: Phase, e: Event, app: App) -> Option<usize> {
    if p == Phase::Menu && e == Event::Key(Key::Down) {
        next_selection(app.entries(), app.selection())
    } else if p == Phase::Menu && e == Event::Key(Key::Up) {
        previous_selection(app.entries(), app.selection())
    } else {
        app.selection()
    }
}

/// The menu together with the sequence of terminal modes and commands that
/// drive it: it decides, the caller performs.
pub struct Session {
    app: App,
    phase: Phase,
}

impl Session {
    #[verifier::type_invariant]
    spec fn well_formed(self) -> bool {
        self.phase == Phase::Suspending ==> command_positions(self.app.entries()).len() > 0
    }

    /// The menu the session drives.
    pub closed spec fn app_spec(self) -> App {
        self.app
    }

    /// Where the session stands.
    pub closed spec fn phase_spec(self) -> Phase {
        self.phase
    }

    /// Starts a session on `app`: the first thing to do is to enter the
    /// menu's terminal mode.
    pub fn start(app: App) -> (r: (Session, Action))
        ensures
            r.0.app_spec() == app,
            r.0.phase_spec() == Phase::Resuming,
            r.1 == Action::EnterUi,
    {
        (Session { app, phase: Phase::Resuming }, Action::EnterUi)
    }

    /// Takes the outcome of the last action and returns the next one.
    pub fn step(&mut self, event: Event) -> (action: Action)
        ensures
            final(self).app_spec().entries() == old(self).app_spec().entries(),
            final(self).app_spec().title_spec() == old(self).app_spec().title_spec(),
            final(self).app_spec().selection() == navigated(
                old(self).phase_spec(),
                event,
                old(self).app_spec(),
            ),
            final(self).phase_spec() == next_phase(
                old(self).phase_spec(),
                event,
                selected_command_of(
                    old(self).app_spec().entries(),
                    old(self).app_spec().selection(),
                ) is Some,
            ),
            action == action_for(
                old(self).phase_spec(),
                event,
                selected_command_of(
                    old(self).app_spec().entries(),
                    old(self).app_spec().selection(),
                ),
            ),
            action is Execute ==> mode_of(final(self).phase_spec()) == TerminalMode::PassThrough,
            action is EnterPassThrough ==> mode_of(old(self).phase_spec()) == TerminalMode::Ui,
            action is EnterUi ==> mode_of(old(self).phase_spec()) == TerminalMode::PassThrough,
            event == Event::Failed ==> action is Shutdown && mode_of(final(self).phase_spec())
                == TerminalMode::PassThrough,
    {
        proof {
            use_type_invariant(&*self);
        }
        if let Phase::Finished(failed) = self.phase {
            return Action::Shutdown(failed);
        }
        if let Event::Failed = event {
            self.phase = Phase::Finished(true);
            return Action::Shutdown(true);
        }
        match self.phase {
            Phase::Resuming => {
                self.phase = Phase::Menu;
                Action::AwaitKey
            },
            Phase::Menu => match event {
                Event::Key(Key::Quit) => {
                    self.phase = Phase::Finished(false);
                    Action::Shutdown(false)
                },
                Event::Key(Key::Down) => {
                    self.app.next();
                    Action::AwaitKey
                },
                Event::Key(Key::Up) => {
                    self.app.previous();
                    Action::AwaitKey
                },
                Event::Key(Key::Enter) => {
                    if self.app.get_selected_command().is_some() {
                        self.phase = Phase::Suspending;
                        Action::EnterPassThrough
                    } else {
                        Action::AwaitKey
                    }
                },
                _ => Action::AwaitKey,
            },
            Phase::Suspending => {
                let command = match self.app.get_selected_command() {
                    Some(c) => c.clone(),
                    None => {
                        proof {
                            assert(false);
                        }
                        String::new()
                    },
                };
                self.phase = Phase::Running;
                Action::Execute(command)
            },
            Phase::Running => {
                self.phase = Phase::Confirming;
                match event {
                    Event::SpawnFailed => Action::AwaitConfirmation(false),
                    _ => Action::AwaitConfirmation(true),
                }
            },
            _ => {
                self.phase = Phase::Resuming;
                Action::EnterUi
            },
        }
    }

    /// The menu the session drives.
    pub fn app(&self) -> (r: &App)
        ensures
            *r == self.app_spec(),
    {
        &self.app
    }

    /// Where the session stands.
    pub fn phase(&self) -> (r: Phase)
        ensures
            r == self.phase_spec(),
    {
        self.phase
    }

    /// The terminal mode that holds in the current phase.
    pub fn mode(&self) -> (r: TerminalMode)
        ensures
            r == mode_of(self.phase_spec()),
    {
        match self.phase {
            Phase::Resuming | Phase::Menu => TerminalMode::Ui,
            _ => TerminalMode::PassThrough,
        }
    }
}

} // verus!
