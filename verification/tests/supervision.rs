use really_notify::error::FileWatcherError;
use really_notify::supervisor::{Action, Event, Phase, Supervisor};

type Ev = Event<String, String>;
type Act = Action<String, String>;

fn io_error() -> FileWatcherError<String> {
    FileWatcherError::Io(std::io::Error::new(std::io::ErrorKind::NotFound, "missing"))
}

fn drive(supervisor: &mut Supervisor, events: Vec<Ev>) -> Vec<Act> {
    events.into_iter().map(|e| supervisor.step(e)).collect()
}

fn sent(actions: &[Act]) -> Vec<String> {
    actions
        .iter()
        .filter_map(|a| match a {
            Action::Send(v) => Some(v.clone()),
            _ => None,
        })
        .collect()
}

#[test]
fn first_item_is_the_initial_contents() {
    let (mut supervisor, first) = Supervisor::start::<String, String>();
    assert!(matches!(first, Action::Read));
    let action = supervisor.step(Ev::ReadDone(Ok("a".to_string())));
    assert!(matches!(action, Action::Send(ref v) if v == "a"));
    assert_eq!(supervisor.phase(), Phase::InitialSend);
    assert!(matches!(supervisor.step(Ev::Sent), Action::Watch));
    assert_eq!(supervisor.phase(), Phase::Idle);
}

#[test]
fn in_place_edit_delivers_old_then_new() {
    let (mut supervisor, _) = Supervisor::start::<String, String>();
    let actions = drive(
        &mut supervisor,
        vec![
            Ev::ReadDone(Ok("a".to_string())),
            Ev::Sent,
            Ev::Notified,
            Ev::ReadDone(Ok("ab".to_string())),
            Ev::Sent,
        ],
    );
    assert_eq!(sent(&actions), vec!["a".to_string(), "ab".to_string()]);
    assert!(matches!(actions[2], Action::Read));
    assert!(matches!(actions[4], Action::Wait));
    assert_eq!(supervisor.phase(), Phase::Idle);
}

#[test]
fn initially_missing_file_is_retried_until_it_appears() {
    let (mut supervisor, _) = Supervisor::start::<String, String>();
    let actions = drive(
        &mut supervisor,
        vec![
            Ev::ReadDone(Err(io_error())),
            Ev::Woke,
            Ev::ReadDone(Err(io_error())),
            Ev::Woke,
            Ev::ReadDone(Ok("hello".to_string())),
        ],
    );
    assert!(matches!(actions[0], Action::Pause { initial: true, error: FileWatcherError::Io(_) }));
    assert!(matches!(actions[1], Action::Read));
    assert!(matches!(actions[2], Action::Pause { initial: true, .. }));
    assert!(matches!(actions[3], Action::Read));
    assert_eq!(sent(&actions), vec!["hello".to_string()]);
    assert!(matches!(actions[4], Action::Send(_)));
}

#[test]
fn parser_failure_is_never_delivered() {
    let (mut supervisor, _) = Supervisor::start::<String, String>();
    drive(&mut supervisor, vec![Ev::ReadDone(Ok("v0".to_string())), Ev::Sent]);
    let actions = drive(
        &mut supervisor,
        vec![
            Ev::Notified,
            Ev::ReadDone(Err(FileWatcherError::Parse("starts with !".to_string()))),
            Ev::Woke,
            Ev::ReadDone(Ok("good".to_string())),
            Ev::Sent,
        ],
    );
    assert!(matches!(actions[0], Action::Read));
    assert!(matches!(
        actions[1],
        Action::Pause { initial: false, error: FileWatcherError::Parse(ref e) } if e == "starts with !"
    ));
    assert!(matches!(actions[2], Action::DiscardAndRead));
    assert_eq!(sent(&actions), vec!["good".to_string()]);
    assert_eq!(supervisor.phase(), Phase::Idle);
}

#[test]
fn many_failures_then_one_value() {
    let (mut supervisor, _) = Supervisor::start::<String, String>();
    drive(&mut supervisor, vec![Ev::ReadDone(Ok("v0".to_string())), Ev::Sent, Ev::Notified]);
    let mut actions = Vec::new();
    for n in 0..25 {
        actions.push(supervisor.step(Ev::ReadDone(Err(FileWatcherError::Parse(format!("bad {n}"))))));
        actions.push(supervisor.step(Ev::Woke));
    }
    actions.push(supervisor.step(Ev::ReadDone(Ok("fine".to_string()))));
    assert_eq!(actions.len(), 51);
    assert_eq!(sent(&actions), vec!["fine".to_string()]);
    assert!(matches!(actions[50], Action::Send(_)));
}

#[test]
fn receiver_drop_stops_the_supervisor() {
    let (mut supervisor, _) = Supervisor::start::<String, String>();
    drive(&mut supervisor, vec![Ev::ReadDone(Ok("v".to_string())), Ev::Sent]);
    assert_eq!(supervisor.phase(), Phase::Idle);
    assert!(matches!(supervisor.step(Ev::Closed), Action::Stop));
    assert_eq!(supervisor.phase(), Phase::Stopped);
    assert!(matches!(supervisor.step(Ev::Notified), Action::Stop));
    assert_eq!(supervisor.phase(), Phase::Stopped);
}

#[test]
fn failed_send_stops_the_supervisor() {
    let (mut supervisor, _) = Supervisor::start::<String, String>();
    supervisor.step(Ev::ReadDone(Ok("v".to_string())));
    assert!(matches!(supervisor.step(Ev::Closed), Action::Stop));
    let (mut later, _) = Supervisor::start::<String, String>();
    drive(
        &mut later,
        vec![Ev::ReadDone(Ok("v".to_string())), Ev::Sent, Ev::Notified, Ev::ReadDone(Ok("w".to_string()))],
    );
    assert_eq!(later.phase(), Phase::Sending);
    assert!(matches!(later.step(Ev::Closed), Action::Stop));
}

#[test]
fn event_out_of_turn_stops_the_supervisor() {
    let (mut supervisor, _) = Supervisor::start::<String, String>();
    assert!(matches!(supervisor.step(Ev::Sent), Action::Stop));
    assert_eq!(supervisor.phase(), Phase::Stopped);
}
