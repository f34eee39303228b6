use hyprsession::adjust::{handle_event, plan_adjustments};
use hyprsession::model::{DispatchAction, FullscreenState, WindowRecord};

fn record(address: &str, pid: i32, workspace: i32) -> WindowRecord {
    WindowRecord {
        address: address.to_string(),
        pid,
        monitor: 0,
        workspace,
        floating: false,
        pinned: false,
        fullscreen: FullscreenState::Windowed,
        x: 10,
        y: 20,
        w: 640,
        h: 480,
        class: "app".to_string(),
        title: "App".to_string(),
    }
}

#[test]
fn test_plan_matching_pair_is_empty() {
    let saved = record("0xa", 1, 1);
    let live = record("0xlive", 1, 1);
    assert!(plan_adjustments(&live, &saved).is_empty());
}

#[test]
fn test_plan_emits_one_dispatch_per_differing_property() {
    let saved = record("0xsaved", 1, 2);
    let mut live = record("0xlive", 1, 1);
    live.monitor = 1;
    live.floating = true;
    live.x = 0;
    live.y = 0;
    let plan = plan_adjustments(&live, &saved);
    assert_eq!(
        plan,
        vec![
            DispatchAction::MoveToWorkspaceSilent { address: "0xlive".to_string(), workspace: 2 },
            DispatchAction::MoveWorkspaceToMonitor { workspace: 2, monitor: 0 },
            DispatchAction::ToggleFloating { address: "0xlive".to_string() },
            DispatchAction::MoveWindowPixel { address: "0xlive".to_string(), x: 10, y: 20 },
        ]
    );
}

#[test]
fn test_plan_fullscreen_gates_position() {
    // A window saved fullscreen gets the toggle but no pixel placement.
    let mut saved = record("0xs", 1, 1);
    saved.fullscreen = FullscreenState::Real;
    let mut live = record("0xl", 1, 1);
    live.x = 0;
    live.w = 100;
    let plan = plan_adjustments(&live, &saved);
    assert_eq!(
        plan,
        vec![
            DispatchAction::FocusWindow { address: "0xl".to_string() },
            DispatchAction::ToggleFullscreen { maximize: false },
        ]
    );
}

#[test]
fn test_adjust_idempotent() {
    // After the first run's adjustments settle, the second run issues zero
    // corrective dispatches.
    let saved = record("0xsaved", 1, 5);
    let mut live = record("0xlive", 1, 1);
    live.monitor = 2;
    live.pinned = true;
    let first = plan_adjustments(&live, &saved);
    assert!(!first.is_empty());
    let mut settled = live.clone();
    settled.workspace = saved.workspace;
    settled.monitor = saved.monitor;
    settled.floating = saved.floating;
    settled.pinned = saved.pinned;
    settled.fullscreen = saved.fullscreen;
    settled.x = saved.x;
    settled.y = saved.y;
    settled.w = saved.w;
    settled.h = saved.h;
    let second = plan_adjustments(&settled, &saved);
    assert!(second.is_empty());
}

#[test]
fn test_event_deadline() {
    // An event 2 seconds into a 30-second budget is acted on; the same
    // event at second 35 decides nothing.
    let saved = vec![record("0xold", 1, 4)];
    let mut live = record("0xnew", 9, 1);
    live.monitor = 1;
    let wins = vec![live];
    let early = handle_event(&saved, &wins, "0xnew", 2, 30);
    assert!(!early.is_empty());
    let late = handle_event(&saved, &wins, "0xnew", 35, 30);
    assert!(late.is_empty());
}

#[test]
fn test_event_unknown_address_ignored() {
    let saved = vec![record("0xold", 1, 4)];
    let wins = vec![record("0xnew", 9, 1)];
    assert!(handle_event(&saved, &wins, "0xmissing", 2, 30).is_empty());
}

#[test]
fn test_event_diffs_every_saved_record() {
    // One live window is diffed against the whole manifest, in order.
    let saved = vec![record("0xa", 1, 2), record("0xb", 2, 3)];
    let wins = vec![record("0xlive", 9, 1)];
    let plan = handle_event(&saved, &wins, "0xlive", 0, 30);
    assert_eq!(
        plan,
        vec![
            DispatchAction::MoveToWorkspaceSilent { address: "0xlive".to_string(), workspace: 2 },
            DispatchAction::MoveToWorkspaceSilent { address: "0xlive".to_string(), workspace: 3 },
        ]
    );
}
