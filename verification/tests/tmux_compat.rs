use flowmux::tmux_compat::{expand_format, parse, session_workspace_name, Target, TmuxCommand};

fn args(s: &[&str]) -> Vec<String> {
    s.iter().map(|w| w.to_string()).collect()
}

// ---- invocations a teammate backend issues ------

#[test]
fn version_probe_parses() {
    let inv = parse(&args(&["-V"])).unwrap();
    assert_eq!(inv.command, TmuxCommand::Version);
    assert_eq!(inv.socket_name, None);
}

#[test]
fn has_session_with_swarm_socket() {
    let inv = parse(&args(&[
        "-L",
        "agent-swarm-12345",
        "has-session",
        "-t",
        "agent-swarm",
    ]))
    .unwrap();
    assert_eq!(inv.socket_name.as_deref(), Some("agent-swarm-12345"));
    assert_eq!(
        inv.command,
        TmuxCommand::HasSession {
            target: Target::Session {
                session: "agent-swarm".into(),
                window: None
            }
        }
    );
}

#[test]
fn new_session_external_swarm_shape() {
    //   -n swarm-view -P -F '#{pane_id}' -- cat
    let inv = parse(&args(&[
        "-L",
        "agent-swarm-777",
        "new-session",
        "-d",
        "-s",
        "agent-swarm",
        "-n",
        "swarm-view",
        "-P",
        "-F",
        "#{pane_id}",
        "--",
        "cat",
    ]))
    .unwrap();
    assert_eq!(
        inv.command,
        TmuxCommand::NewSession {
            name: "agent-swarm".into(),
            window_name: Some("swarm-view".into()),
            print: true,
            format: Some("#{pane_id}".into()),
        }
    );
}

#[test]
fn new_session_plain_with_start_dir() {
    // Worktree helper: new-session -d -s <name> -c <dir>
    let inv = parse(&args(&[
        "new-session",
        "-d",
        "-s",
        "mywork",
        "-c",
        "/tmp/x",
    ]))
    .unwrap();
    assert_eq!(
        inv.command,
        TmuxCommand::NewSession {
            name: "mywork".into(),
            window_name: None,
            print: false,
            format: None,
        }
    );
}

#[test]
fn list_windows_shape() {
    let inv = parse(&args(&[
        "-L",
        "agent-swarm-1",
        "list-windows",
        "-t",
        "agent-swarm",
        "-F",
        "#{window_name}",
    ]))
    .unwrap();
    assert_eq!(
        inv.command,
        TmuxCommand::ListWindows {
            target: Target::Session {
                session: "agent-swarm".into(),
                window: None
            },
            format: Some("#{window_name}".into()),
        }
    );
}

#[test]
fn new_window_swarm_view_and_legacy_teammate() {
    let inv = parse(&args(&[
        "-L",
        "agent-swarm-1",
        "new-window",
        "-t",
        "agent-swarm",
        "-n",
        "swarm-view",
        "-P",
        "-F",
        "#{pane_id}",
        "--",
        "cat",
    ]))
    .unwrap();
    assert_eq!(
        inv.command,
        TmuxCommand::NewWindow {
            target: Target::Session {
                session: "agent-swarm".into(),
                window: None
            },
            window_name: Some("swarm-view".into()),
            print: true,
            format: Some("#{pane_id}".into()),
        }
    );

    // Legacy path: default socket, one window per teammate.
    let inv = parse(&args(&[
        "new-window",
        "-t",
        "agent-swarm",
        "-n",
        "teammate-researcher",
        "-P",
        "-F",
        "#{pane_id}",
        "--",
        "cat",
    ]))
    .unwrap();
    assert_eq!(inv.socket_name, None);
    match inv.command {
        TmuxCommand::NewWindow { window_name, .. } => {
            assert_eq!(window_name.as_deref(), Some("teammate-researcher"));
        }
        other => panic!("wrong command: {other:?}"),
    }
}

#[test]
fn list_panes_by_session_window_and_by_pane() {
    let inv = parse(&args(&[
        "-L",
        "agent-swarm-1",
        "list-panes",
        "-t",
        "agent-swarm:swarm-view",
        "-F",
        "#{pane_id}",
    ]))
    .unwrap();
    assert_eq!(
        inv.command,
        TmuxCommand::ListPanes {
            target: Target::Session {
                session: "agent-swarm".into(),
                window: Some("swarm-view".into())
            },
            format: Some("#{pane_id}".into()),
        }
    );

    // Leader path targets a pane id directly.
    let uuid = "0b8e7f66-90bc-4f74-9e2e-7f3f4be2a111";
    let inv = parse(&args(&["list-panes", "-t", uuid, "-F", "#{pane_id}"])).unwrap();
    assert_eq!(
        inv.command,
        TmuxCommand::ListPanes {
            target: Target::Pane(uuid.into()),
            format: Some("#{pane_id}".into()),
        }
    );
}

#[test]
fn split_window_directions_and_size() {
    let uuid = "0b8e7f66-90bc-4f74-9e2e-7f3f4be2a111";
    // First teammate split in leader mode: -h -l 70%
    let inv = parse(&args(&[
        "split-window",
        "-d",
        "-t",
        uuid,
        "-h",
        "-l",
        "70%",
        "-P",
        "-F",
        "#{pane_id}",
        "--",
        "cat",
    ]))
    .unwrap();
    assert_eq!(
        inv.command,
        TmuxCommand::SplitWindow {
            target: Target::Pane(uuid.into()),
            horizontal: true,
            print: true,
            format: Some("#{pane_id}".into()),
        }
    );

    // External swarm split: alternating -v / -h without size.
    let inv = parse(&args(&[
        "-L",
        "agent-swarm-9",
        "split-window",
        "-d",
        "-t",
        uuid,
        "-v",
        "-P",
        "-F",
        "#{pane_id}",
        "--",
        "cat",
    ]))
    .unwrap();
    match inv.command {
        TmuxCommand::SplitWindow { horizontal, .. } => assert!(!horizontal),
        other => panic!("wrong command: {other:?}"),
    }
}

#[test]
fn set_option_remain_on_exit_and_styles() {
    let uuid = "0b8e7f66-90bc-4f74-9e2e-7f3f4be2a111";
    let inv = parse(&args(&[
        "-L",
        "agent-swarm-9",
        "set-option",
        "-p",
        "-t",
        uuid,
        "remain-on-exit",
        "failed",
    ]))
    .unwrap();
    assert_eq!(
        inv.command,
        TmuxCommand::SetOption {
            target: Some(Target::Pane(uuid.into())),
            name: "remain-on-exit".into(),
        }
    );

    let inv = parse(&args(&[
        "set-option",
        "-w",
        "-t",
        "agent-swarm:swarm-view",
        "pane-border-status",
        "top",
    ]))
    .unwrap();
    match inv.command {
        TmuxCommand::SetOption { name, .. } => assert_eq!(name, "pane-border-status"),
        other => panic!("wrong command: {other:?}"),
    }
}

#[test]
fn select_pane_title() {
    let uuid = "0b8e7f66-90bc-4f74-9e2e-7f3f4be2a111";
    let inv = parse(&args(&["select-pane", "-t", uuid, "-T", "researcher"])).unwrap();
    assert_eq!(
        inv.command,
        TmuxCommand::SelectPane {
            target: Target::Pane(uuid.into()),
            title: Some("researcher".into()),
        }
    );
}

#[test]
fn respawn_pane_with_and_without_double_dash() {
    let uuid = "0b8e7f66-90bc-4f74-9e2e-7f3f4be2a111";
    let teammate_cmd =
        "cd /home/u/proj && env AGENTCODE=1 AGENT_TEAMS=1 \
         '/usr/bin/agent' --agent-id 'r-1' --agent-name 'researcher' --team-name 'sess-1'";
    let inv = parse(&args(&[
        "respawn-pane",
        "-k",
        "-t",
        uuid,
        "--",
        teammate_cmd,
    ]))
    .unwrap();
    assert_eq!(
        inv.command,
        TmuxCommand::RespawnPane {
            target: Target::Pane(uuid.into()),
            command: teammate_cmd.into(),
        }
    );

    let inv = parse(&args(&["respawn-pane", "-k", "-t", uuid, teammate_cmd])).unwrap();
    match inv.command {
        TmuxCommand::RespawnPane { command, .. } => assert_eq!(command, teammate_cmd),
        other => panic!("wrong command: {other:?}"),
    }
}

#[test]
fn kill_pane_and_select_layout_and_attach() {
    let uuid = "0b8e7f66-90bc-4f74-9e2e-7f3f4be2a111";
    let inv = parse(&args(&["kill-pane", "-t", uuid])).unwrap();
    assert_eq!(
        inv.command,
        TmuxCommand::KillPane {
            target: Target::Pane(uuid.into())
        }
    );

    let inv = parse(&args(&[
        "select-layout",
        "-t",
        "agent-swarm:swarm-view",
        "tiled",
    ]))
    .unwrap();
    match inv.command {
        TmuxCommand::SelectLayout { target } => assert_eq!(
            target,
            Target::Session {
                session: "agent-swarm".into(),
                window: Some("swarm-view".into())
            }
        ),
        other => panic!("wrong command: {other:?}"),
    }

    // The status-line hint: `tmux -L agent-swarm-<pid> a`
    let inv = parse(&args(&["-L", "agent-swarm-4242", "a"])).unwrap();
    assert_eq!(inv.command, TmuxCommand::Attach { target: None });
}

// ---- vocabulary helpers -----------------------------------------

#[test]
fn workspace_name_prefers_socket_name() {
    assert_eq!(
        session_workspace_name(Some("agent-swarm-99"), "agent-swarm"),
        "agent-swarm-99"
    );
    assert_eq!(session_workspace_name(None, "agent-swarm"), "agent-swarm");
}

#[test]
fn format_expansion_covers_used_tokens() {
    assert_eq!(
        expand_format("#{pane_id}", "abc-123", "swarm-view", "agent-swarm"),
        "abc-123"
    );
    assert_eq!(
        expand_format("#{window_name}", "x", "swarm-view", "agent-swarm"),
        "swarm-view"
    );
    assert_eq!(
        expand_format("#{session_name}", "x", "w", "agent-swarm"),
        "agent-swarm"
    );
}

#[test]
fn socket_path_derives_stable_name() {
    let inv = parse(&args(&[
        "-S",
        "/tmp/tmux-1000/agent-swarm-5.sock",
        "has-session",
        "-t",
        "agent-swarm",
    ]))
    .unwrap();
    assert_eq!(inv.socket_name.as_deref(), Some("agent-swarm-5"));
}

#[test]
fn unsupported_subcommand_errors() {
    let err = parse(&args(&["pipe-pane", "-t", "%1", "cat"])).unwrap_err();
    assert!(err.0.contains("unsupported tmux subcommand"));
}

#[test]
fn output_constructors_set_code_and_streams() {
    let ok = flowmux::tmux_compat::TmuxCompatOutput::ok();
    assert_eq!((ok.code, ok.stdout.as_str(), ok.stderr.as_str()), (0, "", ""));
    let out = flowmux::tmux_compat::TmuxCompatOutput::out("uuid-1\n");
    assert_eq!((out.code, out.stdout.as_str(), out.stderr.as_str()), (0, "uuid-1\n", ""));
    let fail = flowmux::tmux_compat::TmuxCompatOutput::fail(1, "no session");
    assert_eq!((fail.code, fail.stdout.as_str(), fail.stderr.as_str()), (1, "", "no session"));
}

#[test]
fn unknown_format_tokens_expand_to_empty_and_plain_text_is_kept() {
    assert_eq!(expand_format("id=#{pane_id} x=#{unknown}!", "p1", "w", "s"), "id=p1 x=!");
    assert_eq!(expand_format("no tokens here", "p", "w", "s"), "no tokens here");
    assert_eq!(expand_format("#{pane_id", "p", "w", "s"), "#{pane_id");
}

#[test]
fn missing_flag_values_are_reported() {
    let err = parse(&args(&["-L"])).unwrap_err();
    assert_eq!(err.0, "tmux-compat: tmux: missing value for -L");
    let err = parse(&args(&["new", "-s"])).unwrap_err();
    assert_eq!(err.0, "tmux-compat: new: missing value for -s");
    let err = parse(&args(&[])).unwrap_err();
    assert_eq!(err.0, "tmux-compat: no subcommand (interactive tmux is not emulated)");
    let err = parse(&args(&["-x", "ls"])).unwrap_err();
    assert_eq!(err.0, "tmux-compat: unsupported global flag -x");
    let err = parse(&args(&["kill-pane"])).unwrap_err();
    assert_eq!(err.0, "tmux-compat: kill-pane requires -t");
    let err = parse(&args(&["respawn-pane", "-t", "x"])).unwrap_err();
    assert_eq!(err.0, "tmux-compat: respawn-pane requires a command");
}

#[test]
fn targets_parse_panes_and_sessions() {
    assert_eq!(Target::parse("%%3"), Target::Pane("3".into()));
    assert_eq!(
        Target::parse("sess:"),
        Target::Session { session: "sess".into(), window: None }
    );
    assert_eq!(
        Target::parse("a:b:c"),
        Target::Session { session: "a".into(), window: Some("b:c".into()) }
    );
    let inv = parse(&args(&["display-message", "-p", "-t", "x", "#{pane_id}"])).unwrap();
    assert_eq!(inv.command, TmuxCommand::DisplayMessage { format: Some("#{pane_id}".into()) });
    let inv = parse(&args(&["-f", "/dev/null", "kill-server", "extra"])).unwrap();
    assert_eq!(inv.command, TmuxCommand::KillServer);
}

#[test]
fn socket_names_follow_the_file_stem_rule() {
    let name = |path: &str| {
        parse(&args(&["-S", path, "has-session", "-t", "s"])).unwrap().socket_name
    };
    assert_eq!(name("/tmp/a.b.sock").as_deref(), Some("a.b"));
    assert_eq!(name("/tmp/.hidden").as_deref(), Some(".hidden"));
    assert_eq!(name("/tmp/plain/").as_deref(), Some("plain"));
    assert_eq!(name("/tmp/dir/.").as_deref(), Some("dir"));
    assert_eq!(name("/").as_deref(), Some("/"));
    assert_eq!(name("/tmp/..").as_deref(), Some("/tmp/.."));
}
