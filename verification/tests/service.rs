use std::cell::Cell;

use kiwi_keymapper::config::{BindingSpec, Config, HyperSpec, UiConfig};
use kiwi_keymapper::service::{
    LaunchAgentState, ServiceManager, combined_codesign_output, format_elapsed_time,
    is_stable_requirement, launch_agent_state, select_signing_identity, service_domain,
    service_target, shortcuts_table, start_service, status_line, stop_service, unload_if_loaded,
    unloaded_launch_agent_state,
};

struct FakeServiceManager {
    loaded: bool,
    bootstrap_calls: Cell<usize>,
    bootout_calls: Cell<usize>,
    kickstart_calls: Cell<usize>,
}

impl FakeServiceManager {
    fn new(loaded: bool) -> Self {
        FakeServiceManager {
            loaded,
            bootstrap_calls: Cell::new(0),
            bootout_calls: Cell::new(0),
            kickstart_calls: Cell::new(0),
        }
    }
}

impl ServiceManager for FakeServiceManager {
    fn is_loaded(&self, _target: &str) -> Result<bool, String> {
        Ok(self.loaded)
    }

    fn bootstrap(&self, _domain: &str, _plist: &str) -> Result<(), String> {
        self.bootstrap_calls.set(self.bootstrap_calls.get() + 1);
        Ok(())
    }

    fn bootout(&self, _target: &str) -> Result<(), String> {
        self.bootout_calls.set(self.bootout_calls.get() + 1);
        Ok(())
    }

    fn kickstart(&self, _target: &str) -> Result<(), String> {
        self.kickstart_calls.set(self.kickstart_calls.get() + 1);
        Ok(())
    }
}

#[test]
fn first_install_does_not_bootout_a_missing_service() {
    let manager = FakeServiceManager::new(false);

    unload_if_loaded(&manager, "gui/501/example").unwrap();

    assert_eq!(manager.bootout_calls.get(), 0);
}

#[test]
fn reinstall_boots_out_the_loaded_service_once() {
    let manager = FakeServiceManager::new(true);

    unload_if_loaded(&manager, "gui/501/example").unwrap();

    assert_eq!(manager.bootout_calls.get(), 1);
}

#[test]
fn start_bootstraps_an_installed_unloaded_service() {
    let manager = FakeServiceManager::new(false);

    start_service(&manager, "gui/501/example", "gui/501", "/tmp/example.plist", true).unwrap();

    assert_eq!(manager.bootstrap_calls.get(), 1);
    assert_eq!(manager.kickstart_calls.get(), 0);
}

#[test]
fn start_kickstarts_an_already_loaded_service() {
    let manager = FakeServiceManager::new(true);

    start_service(&manager, "gui/501/example", "gui/501", "/tmp/example.plist", true).unwrap();

    assert_eq!(manager.bootstrap_calls.get(), 0);
    assert_eq!(manager.kickstart_calls.get(), 1);
}

#[test]
fn start_refuses_a_service_that_is_not_installed() {
    let manager = FakeServiceManager::new(true);

    assert_eq!(
        start_service(&manager, "gui/501/example", "gui/501", "/tmp/example.plist", false),
        Err("Kiwi is not installed; run `kiwi install`".to_string())
    );
    assert_eq!(manager.kickstart_calls.get(), 0);
}

#[test]
fn stop_unloads_the_service_and_restores_caps_lock() {
    let manager = FakeServiceManager::new(true);
    let caps_restored = Cell::new(false);

    stop_service(&manager, "gui/501/example", || {
        caps_restored.set(true);
        Ok(())
    })
    .unwrap();

    assert_eq!(manager.bootout_calls.get(), 1);
    assert!(caps_restored.get());
}

#[test]
fn an_unloaded_service_is_stopped_when_its_plist_remains() {
    assert_eq!(unloaded_launch_agent_state(true), LaunchAgentState::NotRunning);
    assert_eq!(unloaded_launch_agent_state(false), LaunchAgentState::Missing);
}

#[test]
fn selects_a_stable_apple_code_signing_identity() {
    let identities = r#"
          1) ABCDEF "Apple Development: person@example.com (TEAMID)"
          2) FEDCBA "Developer ID Application: Example Person (TEAMID)"
             2 valid identities found
        "#;

    assert_eq!(
        select_signing_identity(identities).as_deref(),
        Some("Developer ID Application: Example Person (TEAMID)")
    );
}

#[test]
fn falls_back_to_an_apple_development_identity() {
    let identities = "  1) ABCDEF \"Apple Development: person@example.com (TEAMID)\"\n  0 other\n";

    assert_eq!(
        select_signing_identity(identities).as_deref(),
        Some("Apple Development: person@example.com (TEAMID)")
    );
    assert_eq!(select_signing_identity("0 valid identities found\n"), None);
}

#[test]
fn rejects_an_adhoc_designated_requirement_as_unstable() {
    assert!(!is_stable_requirement(
        r#"# designated => cdhash H"04c3928ca06f59fba04ebde63db1318ccc11e45c""#
    ));
    assert!(is_stable_requirement(
        r#"designated => identifier "io.github.cesarferreira.kiwi" and anchor apple generic"#
    ));
}

#[test]
fn summarizes_a_running_daemon_with_its_pid() {
    let state = launch_agent_state("state = running\npid = 85265");

    assert_eq!(state, LaunchAgentState::Running { pid: Some(85265) });
    assert_eq!(status_line(state, Some("5m 57s"), false), "running for 5m 57s");
    assert_eq!(
        status_line(state, Some("5m 57s"), true),
        "\u{1b}[32mrunning\u{1b}[0m for 5m 57s"
    );
}

#[test]
fn summarizes_an_installed_but_stopped_daemon() {
    let state = launch_agent_state("state = spawn scheduled\nlast exit code = 1");

    assert_eq!(
        status_line(state, None, false),
        "stopped — check ~/Library/Logs/kiwi.log"
    );
}

#[test]
fn summarizes_a_missing_installation() {
    assert_eq!(
        status_line(LaunchAgentState::Missing, None, false),
        "not installed — run `kiwi install`"
    );
}

#[test]
fn running_state_without_a_pid_line_has_no_pid() {
    assert_eq!(
        launch_agent_state("  state = running\n  pid = not-a-number\n"),
        LaunchAgentState::Running { pid: None }
    );
    assert_eq!(status_line(LaunchAgentState::Running { pid: None }, None, false), "running");
}

#[test]
fn formats_process_elapsed_time_compactly() {
    assert_eq!(format_elapsed_time("05:57").as_deref(), Some("5m 57s"));
    assert_eq!(format_elapsed_time("02:05:07").as_deref(), Some("2h 5m"));
    assert_eq!(format_elapsed_time("3-06:02:01").as_deref(), Some("3d 6h"));
}

#[test]
fn elapsed_time_edge_cases() {
    assert_eq!(format_elapsed_time("  00:09\n").as_deref(), Some("9s"));
    assert_eq!(format_elapsed_time("02:00:30").as_deref(), Some("2h"));
    assert_eq!(format_elapsed_time("1-00:10:00").as_deref(), Some("1d"));
    assert_eq!(format_elapsed_time("57"), None);
    assert_eq!(format_elapsed_time("1:2:3:4"), None);
    assert_eq!(format_elapsed_time("x-01:02"), None);
}

#[test]
fn reads_designated_requirement_from_codesign_stdout() {
    let output = combined_codesign_output(
        b"designated => identifier \"io.github.cesarferreira.kiwi\" and anchor apple generic",
        b"Executable=/tmp/kiwi",
    );

    assert!(is_stable_requirement(&output));
}

#[test]
fn codesign_output_joins_both_streams_on_two_lines() {
    assert_eq!(combined_codesign_output(b"out", b"err"), "out\nerr");
}

#[test]
fn service_names_use_the_user_domain_and_label() {
    assert_eq!(service_domain(501), "gui/501");
    assert_eq!(service_target(501), "gui/501/io.github.cesarferreira.kiwi");
}

#[test]
fn shortcut_table_colors_each_part_for_a_terminal() {
    let config = Config {
        hyper: HyperSpec::default(),
        bindings: vec![(
            "hyper+a".to_string(),
            BindingSpec {
                app: Some("Arc".into()),
                behavior: None,
                url: None,
                command: None,
                keys: None,
                enabled: true,
            },
        )],
        ui: UiConfig::default(),
        dual_role: Vec::new(),
    }
    .compile()
    .unwrap();

    let output = shortcuts_table(&config.bindings, true);

    assert!(output.contains("\u{1b}[1;32m1 shortcut\u{1b}[0m"));
    assert!(output.contains("\u{1b}[36mhyper+a \u{1b}[0m"));
    assert!(output.contains("\u{1b}[33mapp \u{1b}[0m"));
    assert!(output.contains("\u{1b}[32mArc\u{1b}[0m"));
}

#[test]
fn shortcut_table_aligns_plain_columns() {
    let binding = |field: &str, value: &str| {
        let mut spec = BindingSpec {
            app: None,
            behavior: None,
            url: None,
            command: None,
            keys: None,
            enabled: true,
        };
        match field {
            "app" => spec.app = Some(value.into()),
            "url" => spec.url = Some(value.into()),
            "command" => spec.command = Some(value.into()),
            _ => spec.keys = Some(value.into()),
        }
        spec
    };
    let config = Config {
        hyper: HyperSpec::default(),
        bindings: vec![
            ("hyper+a".to_string(), binding("app", "Arc")),
            ("hyper+p".to_string(), binding("command", "bluepods connect AirPods")),
            ("hyper+t".to_string(), binding("keys", "control+a")),
            ("hyper+u".to_string(), binding("url", "https://example.com")),
        ],
        ui: UiConfig::default(),
        dual_role: Vec::new(),
    }
    .compile()
    .unwrap();

    assert_eq!(
        shortcuts_table(&config.bindings, false),
        "4 shortcuts\n\nSHORTCUT  TYPE     ACTION\nhyper+a   app      Arc\nhyper+p   command  bluepods connect AirPods\nhyper+t   keys     control+a\nhyper+u   url      https://example.com\n"
    );
}

#[test]
fn doctor_report_is_healthy_only_when_every_check_passes() {
    let (lines, healthy) = kiwi_keymapper::service::doctor_report(
        "/tmp/kiwi.toml",
        Ok(3),
        true,
        LaunchAgentState::Running { pid: Some(7) },
        None,
    );
    assert!(healthy);
    assert_eq!(
        lines,
        vec![
            "[ok] config: /tmp/kiwi.toml (3 enabled bindings)".to_string(),
            "[ok] stable code-signing identity".to_string(),
            "[ok] LaunchAgent is running".to_string(),
        ]
    );

    let (lines, healthy) = kiwi_keymapper::service::doctor_report(
        "/tmp/kiwi.toml",
        Err("bad chord".to_string()),
        false,
        LaunchAgentState::Missing,
        Some(false),
    );
    assert!(!healthy);
    assert_eq!(
        lines,
        vec![
            "[fail] config: bad chord".to_string(),
            "[fail] binary is ad-hoc signed; run `kiwi install`".to_string(),
            "[info] LaunchAgent is not installed (foreground mode is available)".to_string(),
            "[fail] foreground Accessibility permission is not granted".to_string(),
        ]
    );

    let (_, healthy) = kiwi_keymapper::service::doctor_report(
        "/tmp/kiwi.toml",
        Ok(0),
        true,
        LaunchAgentState::Missing,
        Some(true),
    );
    assert!(healthy);
    let (_, healthy) = kiwi_keymapper::service::doctor_report(
        "/tmp/kiwi.toml",
        Ok(0),
        true,
        LaunchAgentState::NotRunning,
        None,
    );
    assert!(!healthy);
}
