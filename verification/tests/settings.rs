//! Settings, policy, the daemon and the budgets.

use majestic::bench::{breached, quantile, Scenario};
use majestic::config::{
    keymap_manifest, AgentConfig, Candidate, Config, ConfigError, ExtensionSpec, Extensions,
};
use majestic::daemon::{
    body_length, empty_session, read_frame, saved, socket_path, status_of, write_frame, Daemon,
    DaemonStatus, FrameError, Handled, Request, Response, MAX_FRAME_BYTES,
};
use majestic::agent::Decision;
use majestic::policy::{AgentAction, Policy};
use majestic::session::{LayoutNode, PaneState, Session};
use majestic::workspace::Split;

#[test]
fn empty_manifest_yields_defaults() {
    let config = Config::default();
    assert_eq!(config.theme, "steelbore");
    assert_eq!(config.keymap, "cua");
    assert_eq!(config.tab_width(), 4);
}

#[test]
fn tab_width_is_clamped_to_a_sane_range() {
    let mut config = Config::default();
    config.tab_width = 9000;
    assert_eq!(config.tab_width, 9000);
    assert_eq!(config.tab_width(), 16);
    config.tab_width = 0;
    assert_eq!(config.tab_width(), 1);
}

#[test]
fn no_extensions_by_default() {
    let config = Config::default();
    assert!(config.extensions.is_empty());
    assert_eq!(config.enabled_extensions().len(), 0);
}

fn pin(version: &str) -> ExtensionSpec {
    ExtensionSpec {
        version: version.to_owned(),
        ..ExtensionSpec::default()
    }
}

#[test]
fn extensions_parse_with_pinned_versions_and_defaults() {
    let mut config = Config::default();
    config.extensions = Extensions::new()
        .with("surround", pin("1.2.0"))
        .with(
            "legacy",
            ExtensionSpec {
                enabled: false,
                ..pin("0.1.0")
            },
        )
        .with(
            "custom",
            ExtensionSpec {
                source: Some("ext/custom.scm".to_owned()),
                ..pin("2.0.0")
            },
        );
    assert_eq!(config.extensions.len(), 3);
    let surround = config.extensions.get("surround").unwrap();
    assert_eq!(surround.version, "1.2.0");
    assert!(surround.enabled);
    assert_eq!(surround.source, None);
    assert_eq!(
        config.extensions.get("custom").unwrap().source.as_deref(),
        Some("ext/custom.scm")
    );
    assert!(config.extensions.get("absent").is_none());

    let enabled: Vec<String> = config
        .enabled_extensions()
        .into_iter()
        .map(|(name, _)| name)
        .collect();
    assert_eq!(enabled, vec!["custom", "surround"]);
}

#[test]
fn pinning_again_replaces() {
    let extensions = Extensions::new().with("a", pin("1")).with("a", pin("2"));
    assert_eq!(extensions.len(), 1);
    assert_eq!(extensions.get("a").unwrap().version, "2");
}

#[test]
fn extension_resolves_to_default_location_or_explicit_source() {
    let base = "/cfg";
    let default_spec = ExtensionSpec {
        version: "1".to_owned(),
        enabled: true,
        source: None,
    };
    assert_eq!(
        default_spec.resolve("surround", base),
        "/cfg/extensions/surround.scm"
    );
    let relative = ExtensionSpec {
        source: Some("ext/custom.scm".to_owned()),
        ..default_spec.clone()
    };
    assert_eq!(relative.resolve("custom", base), "/cfg/ext/custom.scm");
    let absolute = ExtensionSpec {
        source: Some("/opt/x.scm".to_owned()),
        ..default_spec
    };
    assert_eq!(absolute.resolve("x", base), "/opt/x.scm");
}

#[test]
fn first_run_manifest_holds_the_chosen_keymap() {
    assert_eq!(
        keymap_manifest("vim"),
        "# Majestic manifest — created by the first-run profile selector.\n{\n  keymap = \"vim\",\n}\n"
    );
    assert_eq!(Config::program("S", "{}"), "(S)\n& (\n{}\n)");
}

#[test]
fn the_manifest_is_looked_for_in_order() {
    let at = |path: &str, is_file: bool| {
        Some(Candidate {
            path: path.to_owned(),
            is_file,
        })
    };
    let user = at("/home/u/.config/majestic/majestic.ncl", true);
    assert_eq!(
        Config::discover(&at("/x.ncl", true), &at("majestic.ncl", true), &user).as_deref(),
        Some("/x.ncl")
    );
    assert_eq!(
        Config::discover(&at("/x.ncl", false), &at("majestic.ncl", true), &user).as_deref(),
        Some("majestic.ncl")
    );
    assert_eq!(
        Config::discover(&None, &at("majestic.ncl", false), &user).as_deref(),
        Some("/home/u/.config/majestic/majestic.ncl")
    );
    assert_eq!(Config::discover(&None, &None, &None), None);
    assert_eq!(
        Config::default_path(Some("/c"), Some("/h")).as_deref(),
        Some("/c/majestic/majestic.ncl")
    );
    assert_eq!(
        Config::default_path(None, Some("/h")).as_deref(),
        Some("/h/.config/majestic/majestic.ncl")
    );
    assert_eq!(Config::default_path(None, None), None);
}

#[test]
fn settings_errors_are_told() {
    assert_eq!(
        ConfigError::Read("gone".to_owned()).message(),
        "cannot read configuration: gone"
    );
    assert_eq!(
        ConfigError::Evaluate("bad".to_owned()).message(),
        "invalid configuration:\nbad"
    );
}

#[test]
fn seraph_policy_defaults_to_fail_closed() {
    let config = Config::default();
    assert_eq!(config.seraph, Policy::default());
    assert_eq!(
        config.seraph.decide(&AgentAction::Edit),
        Decision::NeedsApproval
    );
    assert!(config
        .seraph
        .decide(&AgentAction::Shell {
            command: "cargo test".to_owned()
        })
        .is_denied());
}

#[test]
fn seraph_section_drives_the_policy() {
    let policy = Policy {
        shell_allowlist: vec!["cargo".to_owned(), "git".to_owned()],
        network_allowlist: vec!["api.github.com".to_owned()],
        edits_need_approval: false,
    };
    assert_eq!(policy.decide(&AgentAction::Edit), Decision::Allow);
    assert_eq!(
        policy.decide(&AgentAction::Shell {
            command: "cargo build".to_owned()
        }),
        Decision::NeedsApproval
    );
    assert_eq!(
        policy.decide(&AgentAction::Network {
            host: "api.github.com".to_owned()
        }),
        Decision::Allow
    );
    assert!(policy
        .decide(&AgentAction::Network {
            host: "example.com".to_owned()
        })
        .is_denied());
    assert!(policy
        .decide(&AgentAction::Shell {
            command: "  ".to_owned()
        })
        .is_denied());
}

#[test]
fn agent_section_defaults_to_local_ollama_when_omitted() {
    let config = Config::default();
    assert_eq!(config.agent, AgentConfig::default());
    assert_eq!(config.agent.model, "qwen2.5-coder");
    assert_eq!(config.agent.base_url, "http://localhost:11434/v1");
}

fn pane(path: Option<&str>) -> PaneState {
    PaneState {
        path: path.map(Into::into),
        cursor: 0,
        viewport_top: 0,
        viewport_left: 0,
    }
}

fn two_pane_session() -> Session {
    Session {
        panes: vec![pane(Some("/tmp/a.rs")), pane(None)],
        layout: LayoutNode::Split {
            dir: Split::Columns,
            ratio: 50,
            first: Box::new(LayoutNode::Leaf(0)),
            second: Box::new(LayoutNode::Leaf(1)),
        },
        focused: 1,
    }
}

#[test]
fn fresh_daemon_owns_an_empty_single_pane_session() {
    let mut daemon = Daemon::new(empty_session(), "/nonexistent/x.json".into());
    match daemon.handle(Request::Status) {
        Handled::Respond(Response::Status(status)) => {
            assert_eq!(status.panes, 1);
            assert_eq!(status.focused, 0);
        }
        other => panic!("expected Status, got {other:?}"),
    }
}

#[test]
fn shutdown_request_latches_the_flag() {
    let mut daemon = Daemon::new(empty_session(), "/nonexistent/x.json".into());
    assert!(!daemon.wants_shutdown());
    assert_eq!(
        daemon.handle(Request::Shutdown),
        Handled::Respond(Response::Done)
    );
    assert!(daemon.wants_shutdown());
    daemon.handle(Request::Status);
    assert!(daemon.wants_shutdown());
}

#[test]
fn session_survives_a_daemon_restart() {
    let mut daemon = Daemon::new(two_pane_session(), "/run/session.json".to_owned());
    assert_eq!(daemon.handle(Request::Save), Handled::Save);
    assert_eq!(daemon.session_path(), "/run/session.json");
    assert_eq!(saved(Ok(())), Response::Done);
    assert_eq!(
        saved(Err("disk full".to_owned())),
        Response::Error("disk full".to_owned())
    );

    let mut restarted =
        Daemon::bootstrap_at("/run/session.json".to_owned(), Some(two_pane_session()));
    assert_eq!(restarted.session(), &two_pane_session());
    match restarted.handle(Request::Status) {
        Handled::Respond(Response::Status(status)) => {
            assert_eq!(status.panes, 2);
            assert_eq!(status.focused, 1);
            assert_eq!(status.session_path.as_deref(), Some("/run/session.json"));
        }
        other => panic!("expected Status, got {other:?}"),
    }
    restarted.set_session(empty_session());
    assert_eq!(restarted.session().panes.len(), 1);
}

#[test]
fn a_daemon_without_a_saved_session_starts_empty() {
    let daemon = Daemon::bootstrap_at("x".to_owned(), None);
    assert_eq!(daemon.session(), &empty_session());
    assert_eq!(Daemon::bootstrap_path(None), "majestic-session.json");
    assert_eq!(Daemon::bootstrap_path(Some("/s".to_owned())), "/s");
}

#[test]
fn an_attach_request_goes_to_the_host() {
    let mut daemon = Daemon::new(empty_session(), String::new());
    assert_eq!(
        daemon.handle(Request::Attach { cols: 80, rows: 24 }),
        Handled::Attach { cols: 80, rows: 24 }
    );
}

#[test]
fn a_status_answer_is_read() {
    let status = DaemonStatus {
        panes: 3,
        focused: 1,
        session_path: None,
    };
    assert_eq!(
        status_of(Response::Status(status.clone())),
        Ok(Some(status))
    );
    assert_eq!(status_of(Response::Done), Ok(None));
    assert_eq!(
        status_of(Response::Error("no".to_owned())),
        Err("no".to_owned())
    );
}

#[test]
fn socket_path_lives_under_a_majestic_directory() {
    assert_eq!(
        socket_path("/run/user/1000"),
        "/run/user/1000/majestic/daemon.sock"
    );
}

#[test]
fn request_round_trips_through_a_frame() {
    let buffer = write_frame(b"\"Save\"").unwrap();
    assert_eq!(buffer[..4], [0, 0, 0, 6]);
    assert_eq!(read_frame(&buffer).unwrap(), b"\"Save\"");
}

#[test]
fn response_round_trips_through_a_frame() {
    let body: Vec<u8> = (0..70_000u32).map(|n| (n % 251) as u8).collect();
    let buffer = write_frame(&body).unwrap();
    assert_eq!(buffer[..4], [0, 1, 17, 112]);
    assert_eq!(read_frame(&buffer).unwrap(), body);
}

#[test]
fn two_frames_decode_in_order_from_one_stream() {
    let mut buffer = write_frame(b"\"Status\"").unwrap();
    buffer.extend(write_frame(b"\"Shutdown\"").unwrap());
    let first = read_frame(&buffer).unwrap();
    assert_eq!(first, b"\"Status\"");
    let second = read_frame(&buffer[4 + first.len()..]).unwrap();
    assert_eq!(second, b"\"Shutdown\"");
}

#[test]
fn an_oversized_length_is_rejected_without_allocating() {
    let bytes = [0xFF, 0xFF, 0xFF, 0xFF];
    let error = read_frame(&bytes).unwrap_err();
    assert_eq!(error, FrameError::TooLarge);
    assert_eq!(error.message(), "frame exceeds maximum size");
    assert_eq!(body_length(&bytes), Err(FrameError::TooLarge));
}

#[test]
fn a_short_frame_is_rejected() {
    assert_eq!(read_frame(&[0, 0]), Err(FrameError::UnexpectedEof));
    assert_eq!(read_frame(&[0, 0, 0, 2, 7]), Err(FrameError::UnexpectedEof));
    assert_eq!(read_frame(&[0, 0, 0, 0]), Ok(Vec::new()));
    assert_eq!(
        write_frame(&vec![0; MAX_FRAME_BYTES + 1]),
        Err(FrameError::TooLarge)
    );
}

#[test]
fn quantiles_take_the_nearest_rank() {
    let samples: Vec<u64> = (1..=100).collect();
    assert_eq!(quantile(&samples, 1000), 100);
    assert_eq!(quantile(&samples, 990), 99);
    assert_eq!(quantile(&samples, 500), 51);
    assert_eq!(quantile(&samples, 0), 1);
    assert_eq!(quantile(&[], 500), 0);
}

#[test]
fn only_gated_scenarios_breach_their_budget() {
    let scenario = |headline: u64, gated: bool| Scenario {
        name: "s".to_owned(),
        headline,
        budget: 16,
        gated,
    };
    let all = [
        scenario(16, true),
        scenario(17, true),
        scenario(17, false),
        scenario(1, false),
    ];
    assert_eq!(breached(&all), vec![1]);
    let labels: Vec<&str> = all.iter().map(Scenario::status).collect();
    assert_eq!(labels, vec!["OK", "OVER", "KNOWN", "info"]);
}

#[test]
fn an_invalid_manifest_starts_with_the_defaults() {
    let error = ConfigError::Evaluate("no such field".to_owned());
    let (config, told) = Config::or_default(Some(Err(error)));
    assert_eq!(config, Config::default());
    assert_eq!(told.as_deref(), Some("invalid configuration:\nno such field"));

    let mut own = Config::default();
    own.tab_width = 7;
    let (config, told) = Config::or_default(Some(Ok(own)));
    assert_eq!(config.tab_width, 7);
    assert_eq!(told, None);

    let (config, told) = Config::or_default(None);
    assert_eq!(config, Config::default());
    assert_eq!(told, None);
}
