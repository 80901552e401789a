use really_notify::backend::{Backend, BackendAction, BackendEvent, BackendState};
use really_notify::builder::{PlanBuilder, PlanReply, PlanRequest, PlanStep, Stage, DIR_EVENTS, LINK_EVENTS};
use really_notify::error::WatchError;
use really_notify::event::{INotifyEvent, WatchHandle};
use really_notify::mask::INotifyMask;
use really_notify::path::NormalPath;
use really_notify::plan::{EventClass, WatchPlan, WatchRole};
use std::collections::HashMap;

enum Node {
    File,
    Dir,
    Symlink(&'static str),
}

struct FakeFs {
    nodes: HashMap<String, Node>,
    handles: Vec<String>,
    log: Vec<(String, u32)>,
}

impl FakeFs {
    fn new(nodes: Vec<(&str, Node)>) -> FakeFs {
        let mut map = HashMap::new();
        map.insert("/".to_string(), Node::Dir);
        for (path, node) in nodes {
            map.insert(path.to_string(), node);
        }
        FakeFs { nodes: map, handles: Vec::new(), log: Vec::new() }
    }

    fn handle_of(&self, path: &str) -> WatchHandle {
        WatchHandle::new(self.handles.iter().position(|p| p == path).unwrap() as i32 + 1)
    }

    fn answer(&mut self, request: PlanRequest) -> PlanReply {
        let missing = || PlanReply::Failed(std::io::Error::new(std::io::ErrorKind::NotFound, "missing"));
        match request {
            PlanRequest::AddWatch { path, mask } => {
                let path = String::from_utf8(path).unwrap();
                if !self.nodes.contains_key(&path) {
                    return missing();
                }
                self.log.push((path.clone(), mask.bits()));
                if !self.handles.contains(&path) {
                    self.handles.push(path.clone());
                }
                PlanReply::Watched(self.handle_of(&path))
            }
            PlanRequest::Inspect { path } => match self.nodes.get(&String::from_utf8(path).unwrap()) {
                None => missing(),
                Some(Node::Symlink(_)) => PlanReply::Inspected { is_symlink: true },
                Some(_) => PlanReply::Inspected { is_symlink: false },
            },
            PlanRequest::ReadLink { path } => match self.nodes.get(&String::from_utf8(path).unwrap()) {
                Some(Node::Symlink(target)) => PlanReply::Link(target.as_bytes().to_vec()),
                _ => missing(),
            },
        }
    }

    fn build(&mut self, target: &str) -> Result<WatchPlan, WatchError> {
        let (mut builder, mut request) = PlanBuilder::start(NormalPath::parse(&target.as_bytes().to_vec()));
        loop {
            let reply = self.answer(request);
            match builder.advance(reply) {
                PlanStep::Request(next) => request = next,
                PlanStep::Ready => {
                    assert_eq!(builder.stage(), Stage::Ready);
                    return Ok(builder.into_plan());
                }
                PlanStep::Failed(error) => {
                    assert_eq!(builder.stage(), Stage::Failed);
                    return Err(error);
                }
            }
        }
    }
}

fn event(handle: WatchHandle, mask: INotifyMask, name: &str) -> INotifyEvent {
    INotifyEvent { watch_descriptor: handle, mask, cookie: 0, name: name.as_bytes().to_vec() }
}

fn record(wd: i32, mask: u32, name: &[u8]) -> Vec<u8> {
    let mut out = Vec::new();
    out.extend_from_slice(&wd.to_le_bytes());
    out.extend_from_slice(&mask.to_le_bytes());
    out.extend_from_slice(&0u32.to_le_bytes());
    out.extend_from_slice(&((name.len() + 1) as u32).to_le_bytes());
    out.extend_from_slice(name);
    out.push(0);
    out
}

fn logged(fs: &FakeFs) -> Vec<(&str, u32)> {
    fs.log.iter().map(|(p, m)| (p.as_str(), *m)).collect()
}

#[test]
fn plain_file_watches_the_file_and_every_directory_above() {
    let mut fs = FakeFs::new(vec![("/etc", Node::Dir), ("/etc/app", Node::Dir), ("/etc/app/cfg", Node::File)]);
    let plan = fs.build("/etc/app/cfg").unwrap();
    assert_eq!(
        logged(&fs),
        vec![
            ("/etc/app/cfg", LINK_EVENTS),
            ("/etc/app", DIR_EVENTS),
            ("/etc", DIR_EVENTS),
            ("/", DIR_EVENTS),
        ]
    );
    assert_eq!(plan.watches().len(), 4);
    assert_eq!(plan.watches()[0].path.to_bytes(), b"/etc/app/cfg".to_vec());
    assert_eq!(plan.expected_child(fs.handle_of("/etc/app")), Some(&b"cfg".to_vec()));
    assert_eq!(plan.expected_child(fs.handle_of("/etc")), Some(&b"app".to_vec()));
    assert_eq!(plan.expected_child(fs.handle_of("/")), Some(&b"etc".to_vec()));
    assert_eq!(plan.expected_child(fs.handle_of("/etc/app/cfg")), None);
    assert!(!plan.is_symlink_hop(fs.handle_of("/etc/app/cfg")));
    assert!(matches!(plan.role(fs.handle_of("/etc/app/cfg")), WatchRole::MainFile));
    assert!(matches!(plan.role(fs.handle_of("/etc")), WatchRole::AncestorDir(ref c) if c == b"app"));
}

#[test]
fn in_place_edit_notifies_and_keeps_the_plan() {
    let mut fs = FakeFs::new(vec![("/cfg", Node::File)]);
    let plan = fs.build("/cfg").unwrap();
    let leaf = fs.handle_of("/cfg");
    assert_eq!(plan.classify(&event(leaf, INotifyMask::modify(), "")), EventClass::NotifyAndContinue);
    assert_eq!(plan.classify(&event(leaf, INotifyMask::close_write(), "")), EventClass::NotifyAndContinue);
}

#[test]
fn rename_over_the_target_refreshes_and_siblings_are_ignored() {
    let mut fs = FakeFs::new(vec![("/cfg", Node::File)]);
    let plan = fs.build("/cfg").unwrap();
    let root = fs.handle_of("/");
    assert_eq!(plan.classify(&event(root, INotifyMask::moved_to(), "cfg")), EventClass::NotifyAndRefresh);
    assert_eq!(plan.classify(&event(root, INotifyMask::moved_from(), "cfg.new")), EventClass::Ignore);
    assert_eq!(plan.classify(&event(root, INotifyMask::modify(), "")), EventClass::Ignore);
    assert_eq!(plan.classify(&event(root, INotifyMask::delete(), "cfg")), EventClass::NotifyAndRefresh);
}

#[test]
fn kernel_loss_reports_always_refresh() {
    let mut fs = FakeFs::new(vec![("/cfg", Node::File)]);
    let plan = fs.build("/cfg").unwrap();
    let overflow = event(WatchHandle::new(-1), INotifyMask::queue_overflow(), "");
    assert_eq!(plan.classify(&overflow), EventClass::NotifyAndRefresh);
    let unmount = event(fs.handle_of("/"), INotifyMask::unmount(), "other");
    assert_eq!(plan.classify(&unmount), EventClass::NotifyAndRefresh);
    let ignored = event(fs.handle_of("/cfg"), INotifyMask::ignored(), "");
    assert_eq!(plan.classify(&ignored), EventClass::NotifyAndContinue);
}

#[test]
fn symlink_chain_watches_every_hop() {
    let mut fs = FakeFs::new(vec![
        ("/w", Node::Dir),
        ("/w/cfg", Node::Symlink("a/cfg")),
        ("/w/a", Node::Dir),
        ("/w/a/cfg", Node::File),
        ("/w/b", Node::Dir),
        ("/w/b/cfg", Node::File),
    ]);
    let plan = fs.build("/w/cfg").unwrap();
    assert_eq!(
        logged(&fs),
        vec![
            ("/w/cfg", LINK_EVENTS),
            ("/w/a/cfg", LINK_EVENTS),
            ("/w/a", DIR_EVENTS),
            ("/w", DIR_EVENTS),
            ("/", DIR_EVENTS),
        ]
    );
    assert!(plan.is_symlink_hop(fs.handle_of("/w/cfg")));
    assert!(!plan.is_symlink_hop(fs.handle_of("/w/a/cfg")));
    assert!(matches!(plan.role(fs.handle_of("/w/cfg")), WatchRole::SymlinkHop));
    let retarget = event(fs.handle_of("/w/cfg"), INotifyMask::delete_self(), "");
    assert_eq!(plan.classify(&retarget), EventClass::NotifyAndRefresh);
    assert_eq!(plan.expected_child(fs.handle_of("/w/a")), Some(&b"cfg".to_vec()));
    assert_eq!(plan.expected_child(fs.handle_of("/w")), Some(&b"a".to_vec()));
}

#[test]
fn absolute_link_and_unnormalized_target() {
    let mut fs = FakeFs::new(vec![
        ("/cfg", Node::Symlink("/srv//./real/")),
        ("/srv", Node::Dir),
        ("/srv/real", Node::File),
    ]);
    fs.build("/cfg").unwrap();
    assert_eq!(
        logged(&fs),
        vec![("/cfg", LINK_EVENTS), ("/srv/real", LINK_EVENTS), ("/srv", DIR_EVENTS), ("/", DIR_EVENTS)]
    );
}

#[test]
fn symlinked_directory_is_watched_as_a_link_and_followed_in_the_next_round() {
    let mut fs = FakeFs::new(vec![
        ("/data", Node::Symlink("mnt/real")),
        ("/data/cfg", Node::File),
        ("/mnt", Node::Dir),
        ("/mnt/real", Node::Dir),
    ]);
    let plan = fs.build("/data/cfg").unwrap();
    assert_eq!(
        logged(&fs),
        vec![
            ("/data/cfg", LINK_EVENTS),
            ("/data", LINK_EVENTS),
            ("/", DIR_EVENTS),
            ("/mnt/real", DIR_EVENTS),
            ("/mnt", DIR_EVENTS),
        ]
    );
    assert_eq!(plan.expected_child(fs.handle_of("/mnt/real")), Some(&b"cfg".to_vec()));
    assert_eq!(plan.expected_child(fs.handle_of("/mnt")), Some(&b"real".to_vec()));
    assert_eq!(plan.expected_child(fs.handle_of("/")), Some(&b"data".to_vec()));
    assert_eq!(plan.expected_child(fs.handle_of("/data")), None);
    assert!(plan.is_symlink_hop(fs.handle_of("/data")));
    assert!(matches!(plan.role(fs.handle_of("/data")), WatchRole::SymlinkHop));
    let retarget = event(fs.handle_of("/data"), INotifyMask::delete_self(), "");
    assert_eq!(plan.classify(&retarget), EventClass::NotifyAndRefresh);
    let touched = event(fs.handle_of("/data"), INotifyMask::modify(), "");
    assert_eq!(plan.classify(&touched), EventClass::NotifyAndRefresh);
    assert!(matches!(plan.role(fs.handle_of("/data/cfg")), WatchRole::MainFile));
    let link = &plan.watches()[1];
    assert_eq!(link.path.to_bytes(), b"/data".to_vec());
    assert_eq!(link.child, Some(b"cfg".to_vec()));
    assert_eq!(link.target.as_ref().map(|t| t.to_bytes()), Some(b"/mnt/real".to_vec()));
    let dir = &plan.watches()[3];
    assert_eq!(dir.path.to_bytes(), b"/mnt/real".to_vec());
    assert_eq!(dir.child, Some(b"cfg".to_vec()));
    assert!(dir.target.is_none());
    let leaf = &plan.watches()[0];
    assert!(leaf.child.is_none() && leaf.target.is_none());
}

#[test]
fn only_the_file_has_neither_role() {
    let mut fs = FakeFs::new(vec![
        ("/x", Node::Dir),
        ("/x/l", Node::Symlink("t")),
        ("/x/t", Node::Dir),
        ("/x/l/s", Node::Dir),
        ("/x/l/s/cfg", Node::File),
    ]);
    let plan = fs.build("/x/l/s/cfg").unwrap();
    let mut without_role = Vec::new();
    for watch in plan.watches().iter() {
        if matches!(plan.role(watch.handle), WatchRole::MainFile) {
            without_role.push(watch.path.to_bytes());
        }
    }
    assert_eq!(without_role, vec![b"/x/l/s/cfg".to_vec()]);
    let on_link = event(fs.handle_of("/x/l"), INotifyMask::move_self(), "");
    assert_eq!(plan.classify(&on_link), EventClass::NotifyAndRefresh);
    for watch in plan.watches().iter() {
        if watch.mask.bits() == DIR_EVENTS {
            assert_eq!(plan.expected_child(watch.handle), watch.child.as_ref());
        }
    }
}

fn chain(len: usize) -> Vec<(&'static str, Node)> {
    const NAMES: [&str; 18] = [
        "/d00", "/d01", "/d02", "/d03", "/d04", "/d05", "/d06", "/d07", "/d08", "/d09", "/d10", "/d11", "/d12",
        "/d13", "/d14", "/d15", "/d16", "/d17",
    ];
    let mut nodes = vec![("/d00/cfg", Node::File)];
    for i in 0..len {
        nodes.push((NAMES[i], Node::Symlink(NAMES[i + 1])));
    }
    nodes.push((NAMES[len], Node::Dir));
    nodes
}

#[test]
fn sixteen_rounds_are_allowed() {
    let mut fs = FakeFs::new(chain(15));
    assert!(fs.build("/d00/cfg").is_ok());
    assert!(fs.log.iter().any(|(p, m)| p == "/d15" && *m == DIR_EVENTS));
}

#[test]
fn seventeenth_round_is_refused() {
    let mut fs = FakeFs::new(chain(16));
    assert!(matches!(fs.build("/d00/cfg"), Err(WatchError::MaxIterationExceeded)));
    assert!(!fs.log.iter().any(|(p, _)| p == "/d16"));
}

#[test]
fn symlink_cycle_among_directories_ends() {
    let mut fs = FakeFs::new(vec![("/a", Node::Symlink("/b")), ("/b", Node::Symlink("/a")), ("/a/cfg", Node::File)]);
    assert!(fs.build("/a/cfg").is_ok());
    assert_eq!(logged(&fs), vec![("/a/cfg", LINK_EVENTS), ("/a", LINK_EVENTS), ("/", DIR_EVENTS), ("/b", LINK_EVENTS)]);
}

#[test]
fn failed_call_aborts_the_plan() {
    let mut fs = FakeFs::new(vec![("/etc", Node::Dir)]);
    assert!(matches!(fs.build("/etc/missing"), Err(WatchError::Io(ref e)) if e.kind() == std::io::ErrorKind::NotFound));
}

#[test]
fn path_ending_in_parent_component_is_refused() {
    let mut fs = FakeFs::new(vec![("/a", Node::Dir), ("/a/..", Node::Dir)]);
    assert!(matches!(fs.build("/a/.."), Err(WatchError::NoFileName)));
}

#[test]
fn root_is_watched_alone() {
    let mut fs = FakeFs::new(vec![]);
    let plan = fs.build("/").unwrap();
    assert_eq!(logged(&fs), vec![("/", LINK_EVENTS)]);
    assert_eq!(plan.watches().len(), 1);
}

#[test]
fn relative_link_at_the_root_is_refused() {
    let (mut builder, _) = PlanBuilder::start(NormalPath::root());
    assert!(matches!(builder.advance(PlanReply::Watched(WatchHandle::new(1))), PlanStep::Request(_)));
    assert!(matches!(builder.advance(PlanReply::Inspected { is_symlink: true }), PlanStep::Request(_)));
    assert!(matches!(builder.advance(PlanReply::Link(b"x".to_vec())), PlanStep::Failed(WatchError::NoParent)));
}

#[test]
fn reply_out_of_turn_is_refused() {
    let (mut builder, request) = PlanBuilder::start(NormalPath::parse(&b"/cfg".to_vec()));
    assert!(matches!(request, PlanRequest::AddWatch { ref path, mask } if path == b"/cfg" && mask.bits() == LINK_EVENTS));
    assert!(matches!(
        builder.advance(PlanReply::Inspected { is_symlink: false }),
        PlanStep::Failed(WatchError::UnexpectedReply)
    ));
    assert!(matches!(
        builder.advance(PlanReply::Watched(WatchHandle::new(1))),
        PlanStep::Failed(WatchError::UnexpectedReply)
    ));
}

fn watching_backend(fs: &mut FakeFs, target: &str) -> Backend {
    let (mut backend, first) = Backend::start(NormalPath::parse(&target.as_bytes().to_vec()), false);
    assert!(matches!(first, BackendAction::Open { notify: false }));
    let mut event = BackendEvent::Opened;
    loop {
        let (next, action) = backend.step(event);
        backend = next;
        match action {
            BackendAction::Request(request) => event = BackendEvent::Reply(fs.answer(request)),
            BackendAction::Read { notify: false } => return backend,
            other => panic!("unexpected action {other:?}"),
        }
    }
}

#[test]
fn backend_notifies_on_edit_and_reopens_on_rename() {
    let mut fs = FakeFs::new(vec![("/cfg", Node::File)]);
    let backend = watching_backend(&mut fs, "/cfg");
    assert!(matches!(backend.state(), BackendState::Watching(_)));
    assert_eq!(backend.target().to_bytes(), b"/cfg".to_vec());
    let leaf = fs.handle_of("/cfg").descriptor();
    let root = fs.handle_of("/").descriptor();

    let (backend, action) = backend.step(BackendEvent::Read(record(leaf, libc::IN_MODIFY, b"")));
    assert!(matches!(action, BackendAction::Read { notify: true }));

    let mut siblings = record(root, libc::IN_MOVED_FROM, b"other");
    siblings.extend(record(root, libc::IN_DELETE, b"tmp"));
    let (backend, action) = backend.step(BackendEvent::Read(siblings));
    assert!(matches!(action, BackendAction::Read { notify: false }));

    let mut rename = record(root, libc::IN_MOVED_FROM, b"cfg.new");
    rename.extend(record(root, libc::IN_MOVED_TO, b"cfg"));
    rename.extend(record(leaf, libc::IN_MODIFY, b""));
    let (backend, action) = backend.step(BackendEvent::Read(rename));
    assert!(matches!(action, BackendAction::Open { notify: true }));
    assert!(matches!(backend.state(), BackendState::Opening));
}

#[test]
fn backend_pauses_on_failures_and_starts_over() {
    let (backend, _) = Backend::start(NormalPath::parse(&b"/cfg".to_vec()), false);
    let (backend, action) =
        backend.step(BackendEvent::OpenFailed(std::io::Error::new(std::io::ErrorKind::Other, "emfile")));
    assert!(matches!(action, BackendAction::Pause { error: WatchError::Io(_), notify: false }));
    let (backend, action) = backend.step(BackendEvent::Woke);
    assert!(matches!(action, BackendAction::Open { notify: false }));
    let (backend, action) = backend.step(BackendEvent::Opened);
    assert!(matches!(action, BackendAction::Request(PlanRequest::AddWatch { .. })));
    let (backend, action) = backend.step(BackendEvent::Reply(PlanReply::Failed(std::io::Error::new(
        std::io::ErrorKind::PermissionDenied,
        "eacces",
    ))));
    assert!(matches!(
        action,
        BackendAction::Pause { error: WatchError::Io(ref e), notify: false } if e.kind() == std::io::ErrorKind::PermissionDenied
    ));
    assert!(matches!(backend.state(), BackendState::Pausing));
    let (_, action) = backend.step(BackendEvent::Opened);
    assert!(matches!(action, BackendAction::Pause { error: WatchError::UnexpectedReply, notify: false }));
}

#[test]
fn backend_gives_up_the_instance_on_a_truncated_record() {
    let mut fs = FakeFs::new(vec![("/cfg", Node::File)]);
    let backend = watching_backend(&mut fs, "/cfg");
    let leaf = fs.handle_of("/cfg").descriptor();
    let mut bytes = record(leaf, libc::IN_MODIFY, b"");
    bytes.extend_from_slice(&[1, 2, 3]);
    let (backend, action) = backend.step(BackendEvent::Read(bytes));
    assert!(matches!(action, BackendAction::Pause { error: WatchError::Truncated, notify: true }));
    assert!(matches!(backend.state(), BackendState::Pausing));

    let backend = watching_backend(&mut fs, "/cfg");
    let (_, action) =
        backend.step(BackendEvent::ReadFailed(std::io::Error::new(std::io::ErrorKind::Other, "eio")));
    assert!(matches!(action, BackendAction::Pause { error: WatchError::Io(_), notify: false }));
}

#[test]
fn backend_ends_when_the_supervisor_has_ended() {
    let mut fs = FakeFs::new(vec![("/cfg", Node::File)]);
    let backend = watching_backend(&mut fs, "/cfg");
    let (backend, action) = backend.step(BackendEvent::Stopped);
    assert!(matches!(action, BackendAction::Close));
    assert!(matches!(backend.state(), BackendState::Ended));
    let (backend, action) = backend.step(BackendEvent::Woke);
    assert!(matches!(action, BackendAction::Close));
    let (backend, action) = backend.step(BackendEvent::Opened);
    assert!(matches!(action, BackendAction::Close));
    assert!(matches!(backend.state(), BackendState::Ended));

    let (fresh, _) = Backend::start(NormalPath::parse(&b"/cfg".to_vec()), false);
    let (fresh, action) = fresh.step(BackendEvent::Stopped);
    assert!(matches!(action, BackendAction::Close));
    assert!(matches!(fresh.state(), BackendState::Ended));
}

#[test]
fn failed_watch_on_a_symlinked_directory_aborts_the_plan() {
    let (mut builder, _) = PlanBuilder::start(NormalPath::parse(&b"/d/cfg".to_vec()));
    assert!(matches!(builder.advance(PlanReply::Watched(WatchHandle::new(1))), PlanStep::Request(_)));
    assert!(matches!(
        builder.advance(PlanReply::Inspected { is_symlink: false }),
        PlanStep::Request(PlanRequest::Inspect { ref path }) if path == b"/d"
    ));
    assert!(matches!(
        builder.advance(PlanReply::Inspected { is_symlink: true }),
        PlanStep::Request(PlanRequest::ReadLink { ref path }) if path == b"/d"
    ));
    assert!(matches!(
        builder.advance(PlanReply::Link(b"/real".to_vec())),
        PlanStep::Request(PlanRequest::AddWatch { ref path, mask }) if path == b"/d" && mask.bits() == LINK_EVENTS
    ));
    let denied = std::io::Error::new(std::io::ErrorKind::PermissionDenied, "eacces");
    assert!(matches!(builder.advance(PlanReply::Failed(denied)), PlanStep::Failed(WatchError::Io(_))));
    assert_eq!(builder.plan().watches().len(), 1);
}
