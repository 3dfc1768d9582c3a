use rusty_js_runtime::caps::{
    AmbientCaps, CapDispatcher, CapMode, Clock, ClockOp, Duration, Env, EnvOp, EnvVarPolicy, Fs,
    FsOp, ModuleId, ModuleProvenance, Net, NetConnectPolicy, NetEndpoint, NetListenPolicy, NetOp,
    PathPolicy, Process, ProcessOp, Scheduler, SchedulerOp, Stdio, StdioOp,
};

fn app_caller() -> ModuleId {
    ModuleId::application("file:///proj/app.mjs")
}

fn dep_caller() -> ModuleId {
    ModuleId::dependency("file:///proj/node_modules/lodash/index.js")
}

#[test]
fn mode_default_is_compat() {
    assert_eq!(CapMode::default(), CapMode::Compat);
}

#[test]
fn cap_mode_parse() {
    assert_eq!(CapMode::from_str("compat"), Some(CapMode::Compat));
    assert_eq!(CapMode::from_str("audit"), Some(CapMode::Audit));
    assert_eq!(CapMode::from_str("sealed-deps"), Some(CapMode::SealedDeps));
    assert_eq!(CapMode::from_str("sealed"), Some(CapMode::Sealed));
    assert_eq!(CapMode::from_str("nope"), None);
}

#[test]
fn compat_mode_allows_everything_no_cap() {
    let mut d = CapDispatcher::compat();
    // Even an empty Fs capability is ignored under Mode 0.
    let cap = Fs::none();
    let result = d.require_fs(&cap, FsOp::Read("/etc/passwd".into()), &dep_caller());
    assert!(result.is_ok());
}

#[test]
fn audit_mode_allows_and_records() {
    let mut d = CapDispatcher::audit_mode();
    let cap = Fs::none();
    let r = d.require_fs(&cap, FsOp::Read("/etc/passwd".into()), &dep_caller());
    assert!(r.is_ok());
    let records = d.drain_audit();
    assert_eq!(records.len(), 1);
    assert_eq!(records[0].capability, "fs");
    assert!(records[0].operation.contains("/etc/passwd"));
}

#[test]
fn sealed_deps_dep_blocked() {
    let mut d = CapDispatcher::new(CapMode::SealedDeps);
    let cap = Fs::none();
    let r = d.require_fs(&cap, FsOp::Read("/etc/passwd".into()), &dep_caller());
    assert!(r.is_err());
    let e = r.unwrap_err();
    assert_eq!(e.capability, "fs");
    assert!(e.hint.is_some());
}

#[test]
fn sealed_deps_app_passes() {
    let mut d = CapDispatcher::new(CapMode::SealedDeps);
    let cap = Fs::none();
    // Application caller: Mode 2 returns ambient regardless of cap.
    let r = d.require_fs(&cap, FsOp::Read("/etc/passwd".into()), &app_caller());
    assert!(r.is_ok());
}

#[test]
fn sealed_blocks_app_too() {
    let mut d = CapDispatcher::new(CapMode::Sealed);
    let cap = Fs::none();
    // Mode 3: even the application must hold the capability.
    let r = d.require_fs(&cap, FsOp::Read("/etc/passwd".into()), &app_caller());
    assert!(r.is_err());
}

#[test]
fn fs_prefix_policy() {
    let cap = Fs { read: PathPolicy::Prefix("/proj/data".into()), ..Fs::none() };
    let mut d = CapDispatcher::new(CapMode::Sealed);
    let ok = d.require_fs(&cap, FsOp::Read("/proj/data/x.txt".into()), &dep_caller());
    assert!(ok.is_ok());
    let denied = d.require_fs(&cap, FsOp::Read("/etc/passwd".into()), &dep_caller());
    assert!(denied.is_err());
}

#[test]
fn fs_sub_dir_narrows() {
    let cap = Fs::full().sub_dir("/proj/data");
    let mut d = CapDispatcher::new(CapMode::Sealed);
    assert!(d.require_fs(&cap, FsOp::Read("/proj/data/x".into()), &dep_caller()).is_ok());
    assert!(d.require_fs(&cap, FsOp::Read("/proj/secrets".into()), &dep_caller()).is_err());
}

#[test]
fn fs_read_only_strips_writes() {
    let cap = Fs::full().read_only();
    let mut d = CapDispatcher::new(CapMode::Sealed);
    assert!(d.require_fs(&cap, FsOp::Read("/x".into()), &dep_caller()).is_ok());
    assert!(d.require_fs(&cap, FsOp::Write("/x".into()), &dep_caller()).is_err());
}

#[test]
fn stdio_sealed_blocks_unless_granted() {
    let mut d = CapDispatcher::new(CapMode::Sealed);
    let none = Stdio::none();
    assert!(d.require_stdio(&none, StdioOp::Stdout(b"x".to_vec()), &dep_caller()).is_err());
    let stdout_only = Stdio { stdout: true, stderr: false };
    assert!(d.require_stdio(&stdout_only, StdioOp::Stdout(b"x".to_vec()), &dep_caller()).is_ok());
    assert!(d.require_stdio(&stdout_only, StdioOp::Stderr(b"x".to_vec()), &dep_caller()).is_err());
}

#[test]
fn clock_disabled_blocks() {
    let mut d = CapDispatcher::new(CapMode::Sealed);
    let cap = Clock::disabled();
    assert!(d.require_clock(&cap, ClockOp::Now, &dep_caller()).is_err());
    let cap2 = Clock::fine();
    assert!(d.require_clock(&cap2, ClockOp::Now, &dep_caller()).is_ok());
}

#[test]
fn process_exit_gated() {
    let mut d = CapDispatcher::new(CapMode::Sealed);
    let none = Process::none();
    assert!(d.require_process(&none, ProcessOp::Exit(1), &dep_caller()).is_err());
    let full = Process::full();
    assert!(d.require_process(&full, ProcessOp::Exit(1), &dep_caller()).is_ok());
}

#[test]
fn env_whitelist() {
    let cap = Env {
        vars: EnvVarPolicy::Whitelist(vec!["LANG".into(), "TZ".into()]),
        system_info: false,
    };
    let mut d = CapDispatcher::new(CapMode::Sealed);
    assert!(d.require_env(&cap, EnvOp::ReadVar("LANG".into()), &dep_caller()).is_ok());
    assert!(d.require_env(&cap, EnvOp::ReadVar("AWS_KEY".into()), &dep_caller()).is_err());
    assert!(d.require_env(&cap, EnvOp::SystemInfo("cpus"), &dep_caller()).is_err());
}

#[test]
fn net_loopback_listen_policy() {
    let mut d = CapDispatcher::new(CapMode::Sealed);
    let cap = Net::loopback_server();
    assert!(d
        .require_net(&cap, NetOp::Listen { host: "127.0.0.1".into(), port: 0 }, &dep_caller())
        .is_ok());
    assert!(d
        .require_net(&cap, NetOp::Listen { host: "localhost".into(), port: 3000 }, &dep_caller())
        .is_ok());
    assert!(d
        .require_net(&cap, NetOp::Listen { host: "0.0.0.0".into(), port: 0 }, &dep_caller())
        .is_err());
}

#[test]
fn net_exact_listen_policy() {
    let mut d = CapDispatcher::new(CapMode::Sealed);
    let cap = Net::listen_exact("127.0.0.1", 8080);
    assert!(d
        .require_net(&cap, NetOp::Listen { host: "127.0.0.1".into(), port: 8080 }, &dep_caller())
        .is_ok());
    assert!(d
        .require_net(&cap, NetOp::Listen { host: "127.0.0.1".into(), port: 8081 }, &dep_caller())
        .is_err());
}

#[test]
fn net_audit_records_listen() {
    let mut d = CapDispatcher::audit_mode();
    let cap = Net::none();
    let r = d.require_net(&cap, NetOp::Listen { host: "127.0.0.1".into(), port: 0 }, &dep_caller());
    assert!(r.is_ok());
    let records = d.drain_audit();
    assert_eq!(records.len(), 1);
    assert_eq!(records[0].capability, "net");
    assert_eq!(records[0].operation, "listen(127.0.0.1:0)");
}

#[test]
fn net_sealed_deps_app_passes() {
    let mut d = CapDispatcher::new(CapMode::SealedDeps);
    let cap = Net::none();
    assert!(d
        .require_net(&cap, NetOp::Listen { host: "0.0.0.0".into(), port: 0 }, &app_caller())
        .is_ok());
    assert!(d
        .require_net(&cap, NetOp::Listen { host: "0.0.0.0".into(), port: 0 }, &dep_caller())
        .is_err());
}

#[test]
fn capability_error_display() {
    let mut d = CapDispatcher::new(CapMode::Sealed);
    let cap = Fs::none();
    let e = d.require_fs(&cap, FsOp::Read("/etc/passwd".into()), &dep_caller()).unwrap_err();
    let s = e.to_string();
    assert!(s.contains("fs"));
    assert!(s.contains("/etc/passwd"));
    assert!(s.contains("sealed"));
    assert!(s.contains("hint"));
}

// ------------------------------------------------------------------ more cases

#[test]
fn capability_error_text_is_exact() {
    let mut d = CapDispatcher::new(CapMode::Sealed);
    let e = d.require_fs(&Fs::none(), FsOp::Read("/etc/passwd".into()), &dep_caller()).unwrap_err();
    assert_eq!(e.operation, "read(/etc/passwd)");
    assert_eq!(e.calling_module, "file:///proj/node_modules/lodash/index.js");
    assert_eq!(e.mode, CapMode::Sealed);
    assert_eq!(
        e.to_string(),
        "fs.read(/etc/passwd): no fs capability granted to module 'file:///proj/node_modules/lodash/index.js' (mode: sealed) \u{2014} hint: add to caps in package.json: { fs: { read: ['/etc/passwd'] } }"
    );
}

#[test]
fn mode_names_round_trip() {
    for m in [CapMode::Compat, CapMode::Audit, CapMode::SealedDeps, CapMode::Sealed] {
        assert_eq!(CapMode::from_str(m.as_str()), Some(m));
    }
    assert_eq!(CapMode::Compat.as_str(), "compat");
    assert_eq!(CapMode::SealedDeps.as_str(), "sealed-deps");
    assert_eq!(CapMode::from_str("0"), None);
    assert_eq!(CapMode::from_str("1"), None);
    assert_eq!(CapMode::from_str("2"), None);
    assert_eq!(CapMode::from_str("3"), None);
    assert_eq!(CapMode::from_str("4"), None);
    assert_eq!(CapMode::from_str(""), None);
}

#[test]
fn provenance_and_module_ids() {
    assert!(app_caller().provenance.is_application());
    assert!(!dep_caller().provenance.is_application());
    let b = ModuleId::builtin("fs");
    assert_eq!(b.url, "fs");
    assert_eq!(b.provenance, ModuleProvenance::Builtin);
    assert!(!ModuleProvenance::External.is_application());
}

#[test]
fn path_policies() {
    assert!(!PathPolicy::NoAccess.allows("/a"));
    assert!(PathPolicy::Any.allows("/a"));
    let p = PathPolicy::Prefixes(vec!["/a".into(), "/b/c".into()]);
    assert!(p.allows("/a/x"));
    assert!(p.allows("/b/c"));
    assert!(!p.allows("/b"));
    // Prefixes match whole path components.
    assert!(!PathPolicy::Prefix("/proj/data".into()).allows("/proj/database"));
    let e = PathPolicy::Exact(vec!["/x/y".into()]);
    assert!(e.allows("/x/y"));
    assert!(!e.allows("/x/y/z"));
}

#[test]
fn fs_every_operation_checks_its_own_policy() {
    let mut d = CapDispatcher::new(CapMode::Sealed);
    let cap = Fs { stat: PathPolicy::Any, ..Fs::none() };
    assert!(d.require_fs(&cap, FsOp::Stat("/q".into()), &dep_caller()).is_ok());
    assert!(d.require_fs(&cap, FsOp::List("/q".into()), &dep_caller()).is_err());
    assert!(d.require_fs(&cap, FsOp::Mkdir("/q".into()), &dep_caller()).is_err());
    assert!(d.require_fs(&cap, FsOp::Remove("/q".into()), &dep_caller()).is_err());
    let e = d.require_fs(&cap, FsOp::Remove("/q".into()), &dep_caller()).unwrap_err();
    assert_eq!(e.operation, "remove(/q)");
}

#[test]
fn sub_dir_of_none_stays_none() {
    let cap = Fs::none().sub_dir("/proj");
    assert!(!cap.read.allows("/proj/a"));
    let full = Fs::full().sub_dir("/proj");
    assert!(full.write.allows("/proj/a"));
    assert!(!full.write.allows("/etc"));
}

#[test]
fn scheduler_and_clock_coarse() {
    let mut d = CapDispatcher::new(CapMode::Sealed);
    let cap = Scheduler { timers: true, microtasks: false, min_delay: Duration::from_millis(10) };
    assert!(d.require_scheduler(&cap, SchedulerOp::Timer(Duration::from_millis(10)), &dep_caller()).is_ok());
    // Only the timers flag is consulted, not the minimum delay.
    assert!(d.require_scheduler(&cap, SchedulerOp::Timer(Duration::from_millis(9)), &dep_caller()).is_ok());
    assert!(d.require_scheduler(&cap, SchedulerOp::Microtask, &dep_caller()).is_err());
    let coarse = Clock::coarse(Duration::from_millis(100));
    assert!(d.require_clock(&coarse, ClockOp::Now, &dep_caller()).is_ok());
    assert!(d.require_clock(&coarse, ClockOp::HighResolution, &dep_caller()).is_ok());
    let e = d.require_scheduler(&Scheduler::none(), SchedulerOp::Timer(Duration::from_millis(25)), &dep_caller()).unwrap_err();
    assert_eq!(e.operation, "timer(25ms)");
    assert_eq!(e.hint.as_deref(), Some("add to caps in package.json: { scheduler: { timers: true } }"));
}

#[test]
fn durations() {
    assert_eq!(Duration::from_millis(1500).as_millis(), 1500);
    assert_eq!(Duration::new(2, 5_000_000).as_millis(), 2005);
    assert_eq!(Duration::new(0, 1_999_999_999).as_millis(), 1999);
    assert_eq!(Duration::zero().as_millis(), 0);
}

#[test]
fn process_and_env_system_info() {
    let mut d = CapDispatcher::new(CapMode::Sealed);
    let cwd_only = Process { may_exit: false, may_read_cwd: true, may_read_pid: false };
    assert!(d.require_process(&cwd_only, ProcessOp::ReadCwd, &dep_caller()).is_ok());
    assert!(d.require_process(&cwd_only, ProcessOp::ReadPid, &dep_caller()).is_err());
    let info = Env { vars: EnvVarPolicy::NoAccess, system_info: true };
    assert!(d.require_env(&info, EnvOp::SystemInfo("cpus"), &dep_caller()).is_ok());
    assert!(d.require_env(&Env::full(), EnvOp::ReadVar("ANY".into()), &dep_caller()).is_ok());
    assert!(d.require_env(&Env::none(), EnvOp::ReadVar("ANY".into()), &dep_caller()).is_err());
}

#[test]
fn net_connect_policies() {
    let mut d = CapDispatcher::new(CapMode::Sealed);
    let hosts = Net { listen: NetListenPolicy::NoAccess, connect: NetConnectPolicy::Hosts(vec!["example.com".into()]) };
    assert!(d.require_net(&hosts, NetOp::Connect { host: "example.com".into(), port: 443 }, &dep_caller()).is_ok());
    assert!(d.require_net(&hosts, NetOp::Connect { host: "evil.com".into(), port: 443 }, &dep_caller()).is_err());
    let exact = Net {
        listen: NetListenPolicy::NoAccess,
        connect: NetConnectPolicy::Exact(vec![NetEndpoint::new("db", 5432)]),
    };
    assert!(d.require_net(&exact, NetOp::Connect { host: "db".into(), port: 5432 }, &dep_caller()).is_ok());
    assert!(d.require_net(&exact, NetOp::Connect { host: "db".into(), port: 5433 }, &dep_caller()).is_err());
    assert!(d.require_net(&Net::full(), NetOp::Listen { host: "0.0.0.0".into(), port: 1 }, &dep_caller()).is_ok());
}

#[test]
fn audit_log_keeps_order_and_drains() {
    let mut d = CapDispatcher::audit_mode();
    assert!(d.require_clock(&Clock::disabled(), ClockOp::Now, &dep_caller()).is_ok());
    assert!(d.require_process(&Process::none(), ProcessOp::Exit(3), &app_caller()).is_ok());
    let records = d.drain_audit();
    assert_eq!(records.len(), 2);
    assert_eq!(records[0].capability, "clock");
    assert_eq!(records[0].caller, "file:///proj/node_modules/lodash/index.js");
    assert_eq!(records[1].capability, "process");
    assert_eq!(records[1].operation, "exit(3)");
    assert_eq!(records[1].caller, "file:///proj/app.mjs");
    assert!(d.drain_audit().is_empty());
}

#[test]
fn non_audit_modes_record_nothing() {
    for mode in [CapMode::Compat, CapMode::SealedDeps, CapMode::Sealed] {
        let mut d = CapDispatcher::new(mode);
        let _ = d.require_fs(&Fs::none(), FsOp::Read("/a".into()), &dep_caller());
        assert!(d.drain_audit().is_empty());
    }
}

#[test]
fn ambient_is_full() {
    let a = AmbientCaps::full();
    assert!(a.fs.read.allows("/anything"));
    assert!(a.stdio.stdout && a.stdio.stderr);
    assert!(a.process.may_exit);
    let d = AmbientCaps::default();
    assert!(d.env.system_info);
}

#[test]
fn narrowing_never_grants_more() {
    let cap = Fs { read: PathPolicy::Exact(vec!["/a".into()]), write: PathPolicy::Prefix("/proj".into()), ..Fs::full() };
    let n = cap.sub_dir("/b");
    assert!(!n.read.allows("/b/x"));
    assert!(!n.read.allows("/a"));
    assert!(!n.write.allows("/b/x"));
    assert!(n.list.allows("/b/x"));
    assert!(!n.list.allows("/c"));
    let m = cap.sub_dir("/proj/data");
    assert!(m.write.allows("/proj/data/x"));
    assert!(!m.write.allows("/proj/secrets"));
    let twice = m.sub_dir("/proj/data/sub");
    assert!(twice.write.allows("/proj/data/sub/f"));
    assert!(!twice.write.allows("/proj/data/other"));
    assert!(matches!(Fs::none().sub_dir("/x").read, PathPolicy::NoAccess));
}
