use hyprsession::conf::{directive_for, parse_conf_exec, render_conf_exec};
use hyprsession::json::{emit_records_exec, parse_records_exec};
use hyprsession::model::{FullscreenState, WindowRecord};
use hyprsession::session::{capture_session, session_dir, session_file_path};

fn record(pid: i32, workspace: i32) -> WindowRecord {
    WindowRecord {
        address: format!("0x{}", pid),
        pid,
        monitor: 0,
        workspace,
        floating: false,
        pinned: false,
        fullscreen: FullscreenState::Windowed,
        x: 100,
        y: 200,
        w: 800,
        h: 600,
        class: "test-app".to_string(),
        title: "Test Window".to_string(),
    }
}

#[test]
fn test_session_properties_formatting() {
    let client = WindowRecord {
        address: "0x1".to_string(),
        pid: 5678,
        monitor: 1,
        workspace: 3,
        floating: true,
        pinned: true,
        fullscreen: FullscreenState::Maximized,
        x: 50,
        y: 75,
        w: 400,
        h: 300,
        class: "test-app".to_string(),
        title: "Test Window".to_string(),
    };
    let d = directive_for(&client, "test-app".to_string());
    assert!(d.tokens.contains(&"monitor 1".to_string()));
    assert!(d.tokens.contains(&"workspace 3 silent".to_string()));
    assert!(d.tokens.contains(&"move 50 75".to_string()));
    assert!(d.tokens.contains(&"size 400 300".to_string()));
    assert!(d.tokens.contains(&"fullscreenstate 1".to_string()));
}

#[test]
fn test_run_if_helper() {
    let mut floating = record(1, 1);
    floating.floating = true;
    floating.pinned = true;
    let with_flags = directive_for(&floating, "app".to_string());
    assert!(with_flags.tokens.contains(&"float".to_string()));
    assert!(with_flags.tokens.contains(&"pin".to_string()));

    let plain = directive_for(&record(1, 1), "app".to_string());
    assert!(!plain.tokens.contains(&"float".to_string()));
    assert!(!plain.tokens.contains(&"pin".to_string()));
}

#[test]
fn test_duplicate_pid_handling() {
    let pids = vec![1234, 5678, 1234, 9012, 5678];
    let mut unique_pids = Vec::new();

    for pid in pids {
        if !unique_pids.contains(&pid) {
            unique_pids.push(pid);
        }
    }

    assert_eq!(unique_pids.len(), 3);
    assert!(unique_pids.contains(&1234));
    assert!(unique_pids.contains(&5678));
    assert!(unique_pids.contains(&9012));
}

#[test]
fn test_empty_properties_filtering() {
    let properties = vec![
        "monitor 0",
        "",
        "workspace 1 silent",
        "",
        "move 100 200",
        "",
    ];
    let filtered: Vec<&str> = properties
        .iter()
        .filter(|prop| !prop.is_empty())
        .copied()
        .collect();

    assert_eq!(filtered.len(), 3);
    assert!(filtered.contains(&"monitor 0"));
    assert!(filtered.contains(&"workspace 1 silent"));
    assert!(filtered.contains(&"move 100 200"));
}

#[test]
fn test_session_directory_path_handling() {
    let base_paths = vec!["/tmp/test", "/tmp/test/", "relative/path", "relative/path/"];

    for base_path in base_paths {
        let exec_path = session_file_path(base_path, "exec.conf");
        assert!(exec_path.ends_with("/exec.conf"));
        assert!(!exec_path.contains("//"));
    }
}

#[test]
fn test_session_dir_naming() {
    assert_eq!(session_dir("/data/sessions", ""), "/data/sessions");
    assert_eq!(session_dir("/data/sessions", "work"), "/data/sessions/work");
}

#[test]
fn test_duplicate_pid_collapsing() {
    // Three windows of one process: collapsing off keeps one directive,
    // keeping duplicates yields one per window; records stay complete.
    let windows = vec![record(100, 1), record(100, 2), record(100, 3)];
    let commands = vec!["app".to_string(), "app".to_string(), "app".to_string()];
    let collapsed = capture_session(windows.clone(), commands.clone(), false);
    assert_eq!(collapsed.directives.len(), 1);
    assert_eq!(collapsed.records.len(), 3);
    let kept = capture_session(windows, commands, true);
    assert_eq!(kept.directives.len(), 3);
    assert_eq!(kept.records.len(), 3);
}

#[test]
fn test_capture_reverses_enumeration_order() {
    let windows = vec![record(1, 1), record(2, 2)];
    let commands = vec!["first".to_string(), "second".to_string()];
    let m = capture_session(windows, commands, false);
    // Reverse enumeration order: the last-enumerated window comes first.
    assert_eq!(m.records[0].pid, 2);
    assert_eq!(m.records[1].pid, 1);
    assert_eq!(m.directives[0].command, "second");
    assert_eq!(m.directives[1].command, "first");
}

#[test]
fn test_capture_two_windows() {
    // Window A: pid 100, workspace 1, monitor 0, not floating, at (0,0), 800x600.
    let mut a = record(100, 1);
    a.x = 0;
    a.y = 0;
    // Window B: pid 200, workspace 2, floating, at (50,50), 400x300.
    let mut b = record(200, 2);
    b.floating = true;
    b.x = 50;
    b.y = 50;
    b.w = 400;
    b.h = 300;
    let m = capture_session(
        vec![a, b],
        vec!["app-a".to_string(), "app-b".to_string()],
        false,
    );
    let conf = render_conf_exec(&m.directives);
    let lines: Vec<&str> = conf.lines().collect();
    assert_eq!(lines.len(), 2);
    for line in &lines {
        let open = line.find('[').unwrap();
        let close = line.find(']').unwrap();
        assert!(close > open + 1);
        assert!(line.len() > close + 2);
    }
    assert!(lines[0].contains("workspace 2 silent"));
    assert!(lines[0].contains("float"));
    assert!(lines[0].contains("move 50 50"));
    assert!(lines[0].contains("size 400 300"));
    assert!(lines[0].ends_with("app-b"));
    assert!(lines[1].contains("workspace 1 silent"));
    assert!(lines[1].contains("move 0 0"));
    assert!(lines[1].contains("size 800 600"));
    assert!(lines[1].ends_with("app-a"));

    let records = parse_records_exec(&emit_records_exec(&m.records)).unwrap();
    assert_eq!(records.len(), 2);
    assert_eq!(records[0].pid, 200);
    assert_eq!(records[1].pid, 100);
    assert_eq!(records, m.records);
}

#[test]
fn test_manifest_round_trip() {
    // Writing a manifest and reading it back yields identical lists.
    let mut quirky = record(42, -99);
    quirky.title = "quote \" slash \\ tab \t done".to_string();
    quirky.class = "multi\nline".to_string();
    quirky.x = -5;
    quirky.y = -7;
    quirky.fullscreen = FullscreenState::Real;
    let windows = vec![record(1, 1), quirky, record(7, 3)];
    let commands = vec![
        "kitty".to_string(),
        "weird ] cmd ; with [ brackets".to_string(),
        "code --wait".to_string(),
    ];
    let m = capture_session(windows, commands, true);

    let rendered = render_conf_exec(&m.directives);
    let directives_back = parse_conf_exec(&rendered);
    assert_eq!(directives_back.len(), m.directives.len());
    assert_eq!(directives_back, m.directives);

    let emitted = emit_records_exec(&m.records);
    let records_back = parse_records_exec(&emitted).unwrap();
    assert_eq!(records_back.len(), m.records.len());
    assert_eq!(records_back, m.records);
}

#[test]
fn test_special_workspace_token() {
    let d = directive_for(&record(5, -99), "scratch".to_string());
    assert!(d.tokens.contains(&"workspace special silent".to_string()));
}

#[test]
fn test_parse_malformed_conf_lines() {
    let content = "malformed line without brackets\n[incomplete bracket entry\nmissing command]\n[monitor 0;workspace 1 silent] valid-command\n   \n";
    let ds = parse_conf_exec(content);
    assert_eq!(ds.len(), 1);
    assert_eq!(ds[0].command, "valid-command");
    assert_eq!(
        ds[0].tokens,
        vec!["monitor 0".to_string(), "workspace 1 silent".to_string()]
    );
}

#[test]
fn test_parse_malformed_records() {
    assert!(parse_records_exec("").is_none());
    assert!(parse_records_exec("not json").is_none());
    assert!(parse_records_exec("[").is_none());
    assert!(parse_records_exec("[]trailing").is_none());
    assert!(parse_records_exec("[]").unwrap().is_empty());
    // A fullscreen code outside the known states is rejected.
    let good = emit_records_exec(&vec![record(3, 1)]);
    let bad = good.replace("\"fullscreen\":0", "\"fullscreen\":7");
    assert!(parse_records_exec(&bad).is_none());
}

#[test]
fn test_session_file_parsing() {
    let content = "[monitor 0;workspace 1 silent;move 100 200;size 800 600] firefox\n[monitor 1;workspace 2 silent;float;move 50 50;size 400 300;pin] kitty\n[monitor 0;workspace 3 silent;fullscreenstate 1] code\n";
    let ds = parse_conf_exec(content);
    assert_eq!(ds.len(), 3);

    assert!(ds[0].tokens.contains(&"monitor 0".to_string()));
    assert!(ds[0].tokens.contains(&"workspace 1 silent".to_string()));
    assert!(ds[0].tokens.contains(&"move 100 200".to_string()));
    assert!(ds[0].tokens.contains(&"size 800 600".to_string()));
    assert_eq!(ds[0].command, "firefox");

    assert!(ds[1].tokens.contains(&"monitor 1".to_string()));
    assert!(ds[1].tokens.contains(&"float".to_string()));
    assert!(ds[1].tokens.contains(&"pin".to_string()));
    assert_eq!(ds[1].command, "kitty");

    assert!(ds[2].tokens.contains(&"fullscreenstate 1".to_string()));
    assert_eq!(ds[2].command, "code");
}
