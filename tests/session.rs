use hypr_hub::app::App;
use hypr_hub::config::{Category, CommandItem};
use hypr_hub::session::{Action, Event, Key, Phase, Session, TerminalMode};

fn cmd(name: &str, command: &str) -> CommandItem {
    CommandItem { name: name.to_string(), command: command.to_string() }
}

fn sample_app() -> App {
    App::new(
        vec![
            Category {
                name: "System".to_string(),
                commands: vec![cmd("Update", "upd.sh"), cmd("Clean", "cln.sh")],
            },
            Category { name: "Theme".to_string(), commands: vec![cmd("Change", "thm.sh")] },
        ],
        "Hub".to_string(),
    )
}

fn running_menu() -> Session {
    let (mut session, first) = Session::start(sample_app());
    assert_eq!(first, Action::EnterUi);
    assert_eq!(session.mode(), TerminalMode::Ui);
    assert_eq!(session.step(Event::Done), Action::AwaitKey);
    assert_eq!(session.phase(), Phase::Menu);
    session
}

#[test]
fn confirming_update_runs_it_in_pass_through() {
    let mut session = running_menu();
    assert_eq!(session.step(Event::Key(Key::Enter)), Action::EnterPassThrough);
    assert_eq!(session.mode(), TerminalMode::PassThrough);
    assert_eq!(session.step(Event::Done), Action::Execute("upd.sh".to_string()));
    assert_eq!(session.mode(), TerminalMode::PassThrough);
    assert_eq!(session.step(Event::Done), Action::AwaitConfirmation(true));
    assert_eq!(session.mode(), TerminalMode::PassThrough);
    assert_eq!(session.step(Event::Done), Action::EnterUi);
    assert_eq!(session.mode(), TerminalMode::Ui);
    assert_eq!(session.step(Event::Done), Action::AwaitKey);
    assert_eq!(session.phase(), Phase::Menu);
}

#[test]
fn arrows_move_the_menu_selection() {
    let mut session = running_menu();
    assert_eq!(session.step(Event::Key(Key::Down)), Action::AwaitKey);
    assert_eq!(session.app().selected(), Some(2));
    assert_eq!(session.step(Event::Key(Key::Down)), Action::AwaitKey);
    assert_eq!(session.app().selected(), Some(4));
    assert_eq!(session.step(Event::Key(Key::Up)), Action::AwaitKey);
    assert_eq!(session.app().selected(), Some(2));
    assert_eq!(session.step(Event::Key(Key::Other)), Action::AwaitKey);
    assert_eq!(session.app().selected(), Some(2));
    assert_eq!(session.step(Event::Key(Key::Enter)), Action::EnterPassThrough);
    assert_eq!(session.step(Event::Done), Action::Execute("cln.sh".to_string()));
}

#[test]
fn spawn_failure_is_reported_and_menu_resumes() {
    let mut session = running_menu();
    session.step(Event::Key(Key::Enter));
    session.step(Event::Done);
    assert_eq!(session.step(Event::SpawnFailed), Action::AwaitConfirmation(false));
    assert_eq!(session.step(Event::Done), Action::EnterUi);
    assert_eq!(session.step(Event::Done), Action::AwaitKey);
}

#[test]
fn quit_hands_the_terminal_back() {
    let mut session = running_menu();
    assert_eq!(session.step(Event::Key(Key::Quit)), Action::Shutdown(false));
    assert_eq!(session.phase(), Phase::Finished(false));
    assert_eq!(session.mode(), TerminalMode::PassThrough);
    assert_eq!(session.step(Event::Done), Action::Shutdown(false));
}

#[test]
fn failure_in_any_phase_shuts_down() {
    let (mut session, _) = Session::start(sample_app());
    assert_eq!(session.step(Event::Failed), Action::Shutdown(true));
    assert_eq!(session.phase(), Phase::Finished(true));

    let mut session = running_menu();
    session.step(Event::Key(Key::Enter));
    assert_eq!(session.step(Event::Failed), Action::Shutdown(true));

    let mut session = running_menu();
    session.step(Event::Key(Key::Enter));
    session.step(Event::Done);
    session.step(Event::Done);
    assert_eq!(session.step(Event::Failed), Action::Shutdown(true));
    assert_eq!(session.mode(), TerminalMode::PassThrough);
}

#[test]
fn enter_without_commands_does_nothing() {
    let app = App::new(
        vec![Category { name: "Empty".to_string(), commands: Vec::new() }],
        "Hub".to_string(),
    );
    let (mut session, _) = Session::start(app);
    session.step(Event::Done);
    assert_eq!(session.step(Event::Key(Key::Enter)), Action::AwaitKey);
    assert_eq!(session.mode(), TerminalMode::Ui);
    assert_eq!(session.step(Event::Key(Key::Down)), Action::AwaitKey);
    assert_eq!(session.app().selected(), None);
}
