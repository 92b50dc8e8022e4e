use devtools_link::browser::{Browser, ChildProcess, ProcessState};
use devtools_link::connection::Connection;
use devtools_link::handle::Handle;
use devtools_link::launcher::{has, LaunchError, LaunchOptions, Launcher};
use devtools_link::ws::{Phase, WebSocketTransport};

fn count_with_prefix(args: &[String], prefix: &str) -> usize {
    args.iter().filter(|a| a.starts_with(prefix)).count()
}

#[test]
fn test_construct_no_throw() {
    Handle::new();
}

#[test]
fn handle_from_root_builds_a_launcher() {
    let handle = Handle::from_root("/srv/project".to_string());
    let options = LaunchOptions::new();
    assert_eq!(
        handle.launcher.resolve_executable_path(&options, Some("/opt/chrome".to_string())),
        Ok("/opt/chrome".to_string())
    );
}

#[test]
fn default_options() {
    let options = LaunchOptions::new();
    assert!(!options.ignore_https_errors);
    assert!(options.headless);
    assert!(options.executable_path.is_none());
    assert_eq!(options.slow_mo, 0);
    assert!(options.default_viewport.is_none());
    assert!(options.args.is_empty());
    assert!(!options.ignore_default_args);
    assert_eq!(options.timeout, 30000);
    assert!(!options.dumpio);
    assert!(options.user_data_dir.is_none());
    assert!(options.env.is_empty());
    assert!(!options.devtools);
    assert!(!options.pipe);
}

#[test]
fn baseline_has_twenty_two_flags() {
    let args = Launcher::initial_arguments();
    assert_eq!(args.len(), 22);
    assert_eq!(args[0], "--disable-background-networking");
    assert_eq!(args[8], "--disable-features=site-per-process");
    assert_eq!(args[21], "--use-mock-keychain");
    assert_eq!(count_with_prefix(&args, "--remote-debugging"), 0);
    assert_eq!(count_with_prefix(&args, "--user-data-dir"), 0);
}

#[test]
fn has_matches_by_prefix() {
    let args = vec!["--a=1".to_string(), "--remote-debugging-port=9222".to_string()];
    assert!(has("--remote-debugging", &args));
    assert!(has("--a", &args));
    assert!(!has("--user-data-dir", &args));
    assert!(!has("--a", &Vec::new()));
}

#[test]
fn no_extra_args_adds_one_debugging_flag() {
    let options = LaunchOptions::new();
    let args = Launcher::arguments(&options, "/tmp/profile");
    assert_eq!(args.len(), 24);
    assert_eq!(count_with_prefix(&args, "--remote-debugging"), 1);
    assert_eq!(args[22], "--remote-debugging-port=0");
    assert_eq!(args[23], "--user-data-dir=/tmp/profile");
}

#[test]
fn pipe_mode_uses_the_pipe_flag() {
    let mut options = LaunchOptions::new();
    options.pipe = true;
    let args = Launcher::arguments(&options, "/tmp/profile");
    assert_eq!(args[22], "--remote-debugging-pipe");
    assert_eq!(count_with_prefix(&args, "--remote-debugging"), 1);
}

#[test]
fn given_debugging_port_suppresses_the_flag() {
    let mut options = LaunchOptions::new();
    options.args = vec!["--remote-debugging-port=9222".to_string()];
    let args = Launcher::arguments(&options, "/tmp/profile");
    assert_eq!(args.len(), 24);
    assert_eq!(count_with_prefix(&args, "--remote-debugging"), 1);
    assert_eq!(args[22], "--remote-debugging-port=9222");
    assert_eq!(args[23], "--user-data-dir=/tmp/profile");
}

#[test]
fn given_user_data_dir_suppresses_the_flag() {
    let mut options = LaunchOptions::new();
    options.args = vec!["--window-size=1,1".to_string(), "--user-data-dir=/home/me".to_string()];
    let args = Launcher::arguments(&options, "/tmp/profile");
    assert_eq!(args.len(), 25);
    assert_eq!(args[22], "--window-size=1,1");
    assert_eq!(args[23], "--user-data-dir=/home/me");
    assert_eq!(args[24], "--remote-debugging-port=0");
    assert_eq!(count_with_prefix(&args, "--user-data-dir"), 1);
}

#[test]
fn temporary_profile_is_needed_only_without_a_directory() {
    let mut options = LaunchOptions::new();
    assert!(Launcher::needs_temporary_profile(&options));
    options.args = vec!["--user-data-dir=/home/me".to_string()];
    assert!(!Launcher::needs_temporary_profile(&options));
    options.args = Vec::new();
    options.user_data_dir = Some("/home/me".to_string());
    assert!(!Launcher::needs_temporary_profile(&options));
}

#[test]
fn temporary_profile_name_has_a_random_suffix() {
    let name = Launcher::temporary_profile_name();
    assert!(name.starts_with("puppeteer_dev_profile-"));
    let suffix = &name["puppeteer_dev_profile-".len()..];
    assert_eq!(suffix.chars().count(), 6);
    assert!(suffix.chars().all(|c| c.is_ascii_alphanumeric()));
}

#[test]
fn executable_override_wins() {
    let launcher = Launcher::new();
    let mut options = LaunchOptions::new();
    options.executable_path = Some("/usr/bin/chromium".to_string());
    assert_eq!(
        launcher.resolve_executable_path(&options, Some("/opt/chrome".to_string())),
        Ok("/usr/bin/chromium".to_string())
    );
    assert_eq!(
        launcher.resolve_executable_path(&options, None),
        Ok("/usr/bin/chromium".to_string())
    );
}

#[test]
fn executable_not_found() {
    let launcher = Launcher::new();
    let options = LaunchOptions::new();
    assert_eq!(
        launcher.resolve_executable_path(&options, None),
        Err(LaunchError::ExecutableNotFound)
    );
}

#[test]
fn endpoint_line_is_recognised() {
    assert_eq!(
        Launcher::endpoint_in_line(
            "DevTools listening on ws://127.0.0.1:9222/devtools/browser/abc"
        ),
        Some("ws://127.0.0.1:9222/devtools/browser/abc".to_string())
    );
    assert_eq!(Launcher::endpoint_in_line("DevTools listening on ws://"), Some("ws://".to_string()));
    assert_eq!(Launcher::endpoint_in_line("DevTools listening on http://x"), None);
    assert_eq!(Launcher::endpoint_in_line(" DevTools listening on ws://x"), None);
    assert_eq!(Launcher::endpoint_in_line(""), None);
}

#[test]
fn endpoint_is_discovered_from_output() {
    let lines = vec![
        "[1:1:ERROR] something".to_string(),
        "DevTools listening on ws://127.0.0.1:9222/devtools/browser/abc".to_string(),
        "DevTools listening on ws://127.0.0.1:1/devtools/browser/later".to_string(),
    ];
    assert_eq!(
        Launcher::wait_for_ws_endpoint(&lines),
        Ok("ws://127.0.0.1:9222/devtools/browser/abc".to_string())
    );
}

#[test]
fn silent_exit_fails_the_discovery() {
    assert_eq!(
        Launcher::wait_for_ws_endpoint(&Vec::new()),
        Err(LaunchError::EndpointDiscovery)
    );
    let lines = vec!["starting".to_string(), "bye".to_string()];
    assert_eq!(
        Launcher::wait_for_ws_endpoint(&lines),
        Err(LaunchError::EndpointDiscovery)
    );
}

#[test]
fn first_endpoint_takes_the_first() {
    let found = vec![None, Some("ws://a".to_string()), Some("ws://b".to_string())];
    assert_eq!(Launcher::first_endpoint(&found), Ok("ws://a".to_string()));
    assert_eq!(
        Launcher::first_endpoint(&vec![None, None]),
        Err(LaunchError::EndpointDiscovery)
    );
}

#[test]
fn child_process_states() {
    let mut child = ChildProcess::new(42);
    assert_eq!(child.state, ProcessState::Starting);
    child.endpoint_discovered();
    assert_eq!(child.state, ProcessState::Running);
    assert!(child.close());
    assert_eq!(child.state, ProcessState::Terminated);
    assert!(!child.close());
    child.endpoint_discovered();
    assert_eq!(child.state, ProcessState::Terminated);
    assert_eq!(child.id, 42);

    let mut gone = ChildProcess::new(7);
    gone.exited();
    assert!(!gone.close());
}

#[test]
fn browser_close_is_idempotent() {
    let mut transport = WebSocketTransport::new();
    assert!(transport.connected(true).is_ok());
    let mut connection = Connection::new("ws://x".to_string(), transport, 0);
    let message = devtools_link::message::Message::new(devtools_link::message::Method::Browser_getVersion);
    assert_eq!(connection.send(&message), Ok(1));
    assert_eq!(connection.send(&message), Ok(2));
    let mut child = ChildProcess::new(1);
    child.endpoint_discovered();
    let mut browser = Browser::new(connection, child);
    let first = browser.close();
    assert_eq!(first.failed, vec![1, 2]);
    assert!(first.kill);
    assert_eq!(browser.connection.phase(), Phase::Closed);
    assert_eq!(browser.child_process.state, ProcessState::Terminated);
    let second = browser.close();
    assert!(second.failed.is_empty());
    assert!(!second.kill);
}

#[test]
fn named_profile_directory_is_used() {
    let mut options = LaunchOptions::new();
    options.user_data_dir = Some("/home/me/profile".to_string());
    let args = Launcher::arguments(&options, "/tmp/generated");
    assert_eq!(args.len(), 24);
    assert_eq!(args[23], "--user-data-dir=/home/me/profile");
}

#[test]
fn launch_plan_has_executable_and_arguments() {
    let launcher = Launcher::new();
    let mut options = LaunchOptions::new();
    options.args = vec!["--window-size=800,600".to_string()];
    options.pipe = true;
    let plan = launcher
        .launch(&options, Some("/opt/chrome/chrome".to_string()), "/tmp/p")
        .unwrap();
    assert_eq!(plan.executable, "/opt/chrome/chrome");
    assert_eq!(plan.arguments.len(), 25);
    assert_eq!(plan.arguments[22], "--window-size=800,600");
    assert_eq!(plan.arguments[23], "--remote-debugging-pipe");
    assert_eq!(plan.arguments[24], "--user-data-dir=/tmp/p");
    assert!(matches!(
        launcher.launch(&options, None, "/tmp/p"),
        Err(LaunchError::ExecutableNotFound)
    ));
}

#[test]
fn handle_plans_with_defaults_and_with_options() {
    let handle = Handle::new();
    let plan = handle.launch(Some("/opt/chrome/chrome".to_string()), "/tmp/p").unwrap();
    assert_eq!(plan.executable, "/opt/chrome/chrome");
    assert_eq!(plan.arguments.len(), 24);
    assert_eq!(plan.arguments[22], "--remote-debugging-port=0");
    assert!(matches!(handle.launch(None, "/tmp/p"), Err(LaunchError::ExecutableNotFound)));
    let mut options = LaunchOptions::new();
    options.executable_path = Some("/usr/bin/chromium".to_string());
    let plan = handle.launch_with_opts(&options, None, "/tmp/p").unwrap();
    assert_eq!(plan.executable, "/usr/bin/chromium");
}

#[test]
fn test_launch() {
    let handle = Handle::new();
    let plan = handle.launch(Some("/opt/chrome/chrome".to_string()), "/tmp/p").unwrap();
    assert_eq!(plan.arguments.len(), 24);
    let endpoint = Launcher::wait_for_ws_endpoint(&vec![
        "DevTools listening on ws://127.0.0.1:9222/devtools/browser/abc".to_string(),
    ])
    .unwrap();
    let mut browser = Launcher::attach(endpoint, ChildProcess::new(4242), 0);
    assert_eq!(browser.child_process.state, ProcessState::Running);
    assert_eq!(browser.connection.endpoint(), "ws://127.0.0.1:9222/devtools/browser/abc");
    assert_eq!(browser.connection.phase(), Phase::Connecting);
    assert_eq!(browser.connection.issued(), 0);
    let teardown = browser.close();
    assert!(teardown.kill);
    assert!(teardown.failed.is_empty());
}
