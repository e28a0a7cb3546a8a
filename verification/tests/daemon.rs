use busy_term::daemon::{
    choose_daemon_bin, classify, executable_mode, process_group_target, ChildPoll, DaemonManager,
    Launch,
};

#[test]
fn classify_covers_the_four_states() {
    assert_eq!(classify(true, true), "running");
    assert_eq!(classify(true, false), "starting");
    assert_eq!(classify(false, true), "external");
    assert_eq!(classify(false, false), "stopped");
}

#[test]
fn start_owns_the_child_and_refuses_a_second_start() {
    let mut m = DaemonManager::new();
    assert_eq!(m.owned(), (false, None, None));
    assert!(m.can_start().is_ok());
    assert_eq!(m.start(Launch::Spawned(4242)), Ok(()));
    assert_eq!(m.owned(), (true, Some(4242), None));
    assert_eq!(m.can_start(), Err("daemon 已经在运行了".to_string()));
    assert_eq!(m.start(Launch::Spawned(1)), Err("daemon 已经在运行了".to_string()));
    assert_eq!(m.owned(), (true, Some(4242), None));
    let status = m.status(true);
    assert_eq!((status.state, status.pid, status.last_error), ("running", Some(4242), None));
}

#[test]
fn failed_starts_keep_the_reason() {
    let mut m = DaemonManager::new();
    let missing = "找不到 daemon 可执行文件（打包资源和 dist/ 里都没有，先跑 build.sh 冻一个）".to_string();
    assert_eq!(m.start(Launch::MissingBinary), Err(missing.clone()));
    assert_eq!(m.owned(), (false, None, Some(missing)));
    assert_eq!(
        m.start(Launch::SpawnFailed("Permission denied".into())),
        Err("启动 daemon 失败：Permission denied".to_string())
    );
    let status = m.status(false);
    assert_eq!(status.state, "stopped");
    assert_eq!(status.last_error, Some("启动 daemon 失败：Permission denied".to_string()));
    assert_eq!(m.start(Launch::Spawned(7)), Ok(()));
    assert_eq!(m.owned(), (true, Some(7), None));
}

#[test]
fn reap_forgets_an_exited_child() {
    let mut m = DaemonManager::new();
    m.start(Launch::Spawned(10)).unwrap();
    m.reap(ChildPoll::Running);
    assert_eq!(m.owned(), (true, Some(10), None));
    m.reap(ChildPoll::Exited("exit status: 1".into()));
    assert_eq!(m.owned(), (false, None, Some("daemon 已退出（exit status: 1）".to_string())));
    m.start(Launch::Spawned(11)).unwrap();
    m.reap(ChildPoll::Failed("No child processes".into()));
    assert_eq!(m.owned(), (false, None, Some("无法查询 daemon 状态：No child processes".to_string())));
    // Without a child a poll changes nothing.
    m.reap(ChildPoll::Exited("signal: 9".into()));
    assert_eq!(m.owned().2, Some("无法查询 daemon 状态：No child processes".to_string()));
}

#[test]
fn stop_then_start_is_a_restart() {
    let mut m = DaemonManager::new();
    m.start(Launch::Spawned(5)).unwrap();
    assert_eq!(m.stop(), Ok(()));
    assert_eq!(m.owned(), (false, None, None));
    assert_eq!(m.start(Launch::Spawned(6)), Ok(()));
    assert_eq!(m.status(false).state, "starting");
    assert_eq!(m.status(true).state, "running");
}

#[test]
fn an_unowned_serving_daemon_is_external() {
    let m = DaemonManager::new();
    assert_eq!(m.status(true).state, "external");
}

#[test]
fn daemon_bin_prefers_override_then_bundle_then_build() {
    let s = |x: &str| Some(x.to_string());
    assert_eq!(choose_daemon_bin(s("/o"), s("/b"), s("/d")), s("/o"));
    assert_eq!(choose_daemon_bin(None, s("/b"), s("/d")), s("/b"));
    assert_eq!(choose_daemon_bin(None, None, s("/d")), s("/d"));
    assert_eq!(choose_daemon_bin(None, None, None), None);
}

#[test]
fn executable_mode_restores_execute_bits() {
    assert_eq!(executable_mode(0o644), Some(0o755));
    assert_eq!(executable_mode(0o600), Some(0o755));
    assert_eq!(executable_mode(0o100644), Some(0o100755));
    assert_eq!(executable_mode(0o4620), Some(0o4775));
    assert_eq!(executable_mode(0o700), None);
    assert_eq!(executable_mode(0o001), None);
}

#[test]
fn process_group_target_negates_the_pid() {
    assert_eq!(process_group_target(1234), -1234);
    assert_eq!(process_group_target(1), -1);
    assert_eq!(process_group_target(0x8000_0001), 0x7fff_ffff);
}
