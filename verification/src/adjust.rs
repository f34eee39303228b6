//! Property-diff-and-adjust: given a live window and a saved record, decide
//! the corrective dispatch calls that bring the live window's tracked
//! properties to the saved ones, and the event handler that applies this
//! against the whole manifest within the load-time budget.
use crate::model::{
    ActionV, DispatchAction, FullscreenState, WindowRecord, WindowRecordV, actions_view,
};
use crate::strutil::str_eq;
use vstd::prelude::*;

verus! {

/// The views of a list of window records.
pub open spec fn windows_view(v: Seq<WindowRecord>) -> Seq<WindowRecordV> {
    v.map_values(|r: WindowRecord| r@)
}

/// The corrective dispatches for one live/saved pair: for each tracked
/// property, in fixed order — workspace, monitor, floating, pinned,
/// fullscreen, then position and size — exactly one dispatch when live and
/// saved differ, and none when they agree. Position and size are only
/// forced when the saved state is windowed.
pub open spec fn plan_workspace(live: WindowRecordV, saved: WindowRecordV) -> Seq<ActionV> {
    if live.workspace != saved.workspace {
        seq![ActionV::MoveToWorkspaceSilent { address: live.address, workspace: saved.workspace }]
    } else {
        Seq::empty()
    }
}

pub open spec fn plan_monitor(live: WindowRecordV, saved: WindowRecordV) -> Seq<ActionV> {
    if live.monitor != saved.monitor {
        seq![ActionV::MoveWorkspaceToMonitor { workspace: saved.workspace, monitor: saved.monitor }]
    } else {
        Seq::empty()
    }
}

pub open spec fn plan_floating(live: WindowRecordV, saved: WindowRecordV) -> Seq<ActionV> {
    if live.floating != saved.floating {
        seq![ActionV::ToggleFloating { address: live.address }]
    } else {
        Seq::empty()
    }
}

pub open spec fn plan_pinned(live: WindowRecordV, saved: WindowRecordV) -> Seq<ActionV> {
    if live.pinned != saved.pinned {
        seq![
            ActionV::FocusWindow { address: live.address },
            ActionV::TogglePin,
        ]
    } else {
        Seq::empty()
    }
}

pub open spec fn plan_fullscreen(live: WindowRecordV, saved: WindowRecordV) -> Seq<ActionV> {
    if live.fullscreen != saved.fullscreen {
        seq![
            ActionV::FocusWindow { address: live.address },
            ActionV::ToggleFullscreen {
                maximize: saved.fullscreen == FullscreenState::Maximized,
            },
        ]
    } else {
        Seq::empty()
    }
}

pub open spec fn plan_position(live: WindowRecordV, saved: WindowRecordV) -> Seq<ActionV> {
    if saved.fullscreen == FullscreenState::Windowed && (live.x != saved.x || live.y != saved.y) {
        seq![ActionV::MoveWindowPixel { address: live.address, x: saved.x, y: saved.y }]
    } else {
        Seq::empty()
    }
}

pub open spec fn plan_size(live: WindowRecordV, saved: WindowRecordV) -> Seq<ActionV> {
    if saved.fullscreen == FullscreenState::Windowed && (live.w != saved.w || live.h != saved.h) {
        seq![ActionV::ResizeWindowPixel { address: live.address, w: saved.w, h: saved.h }]
    } else {
        Seq::empty()
    }
}

pub open spec fn spec_plan(live: WindowRecordV, saved: WindowRecordV) -> Seq<ActionV> {
    plan_workspace(live, saved) + plan_monitor(live, saved) + plan_floating(live, saved)
        + plan_pinned(live, saved) + plan_fullscreen(live, saved) + plan_position(live, saved)
        + plan_size(live, saved)
}

/// True when the live window already carries the saved tracked properties.
pub open spec fn tracked_match(live: WindowRecordV, saved: WindowRecordV) -> bool {
    live.workspace == saved.workspace && live.monitor == saved.monitor && live.floating
        == saved.floating && live.pinned == saved.pinned && live.fullscreen == saved.fullscreen
        && (saved.fullscreen == FullscreenState::Windowed ==> live.x == saved.x && live.y == saved.y
        && live.w == saved.w && live.h == saved.h)
}

/// The live window after the planned adjustments settle: the saved tracked
/// properties, with position and size untouched when the saved state is not
/// windowed.
pub open spec fn reconciled(live: WindowRecordV, saved: WindowRecordV) -> WindowRecordV {
    WindowRecordV {
        workspace: saved.workspace,
        monitor: saved.monitor,
        floating: saved.floating,
        pinned: saved.pinned,
        fullscreen: saved.fullscreen,
        x: if saved.fullscreen == FullscreenState::Windowed {
            saved.x
        } else {
            live.x
        },
        y: if saved.fullscreen == FullscreenState::Windowed {
            saved.y
        } else {
            live.y
        },
        w: if saved.fullscreen == FullscreenState::Windowed {
            saved.w
        } else {
            live.w
        },
        h: if saved.fullscreen == FullscreenState::Windowed {
            saved.h
        } else {
            live.h
        },
        ..live
    }
}

/// The diff emits no dispatch exactly when every tracked property already
/// matches.
pub proof fn lemma_plan_empty_iff_match(live: WindowRecordV, saved: WindowRecordV)
    ensures
        spec_plan(live, saved).len() == 0 <==> tracked_match(live, saved),
{
}

/// Adjusting is idempotent: once the planned adjustments have settled, a
/// second diff against the same saved record emits no dispatch at all.
pub proof fn lemma_adjust_idempotent(live: WindowRecordV, saved: WindowRecordV)
    ensures
        spec_plan(reconciled(live, saved), saved) == Seq::<ActionV>::empty(),
{
    lemma_plan_empty_iff_match(reconciled(live, saved), saved);
    assert(spec_plan(reconciled(live, saved), saved) =~= Seq::<ActionV>::empty());
}

fn push_workspace(out: &mut Vec<DispatchAction>, live: &WindowRecord, saved: &WindowRecord)
    ensures
        actions_view(*final(out)) == actions_view(*old(out)) + plan_workspace(live@, saved@),
{
    if live.workspace != saved.workspace {
        out.push(
            DispatchAction::MoveToWorkspaceSilent {
                address: live.address.clone(),
                workspace: saved.workspace,
            },
        );
    }
    assert(actions_view(*out) =~= actions_view(*old(out)) + plan_workspace(live@, saved@));
}

fn push_monitor(out: &mut Vec<DispatchAction>, live: &WindowRecord, saved: &WindowRecord)
    ensures
        actions_view(*final(out)) == actions_view(*old(out)) + plan_monitor(live@, saved@),
{
    if live.monitor != saved.monitor {
        out.push(
            DispatchAction::MoveWorkspaceToMonitor {
                workspace: saved.workspace,
                monitor: saved.monitor,
            },
        );
    }
    assert(actions_view(*out) =~= actions_view(*old(out)) + plan_monitor(live@, saved@));
}

fn push_floating(out: &mut Vec<DispatchAction>, live: &WindowRecord, saved: &WindowRecord)
    ensures
        actions_view(*final(out)) == actions_view(*old(out)) + plan_floating(live@, saved@),
{
    if live.floating != saved.floating {
        out.push(DispatchAction::ToggleFloating { address: live.address.clone() });
    }
    assert(actions_view(*out) =~= actions_view(*old(out)) + plan_floating(live@, saved@));
}

fn push_pinned(out: &mut Vec<DispatchAction>, live: &WindowRecord, saved: &WindowRecord)
    ensures
        actions_view(*final(out)) == actions_view(*old(out)) + plan_pinned(live@, saved@),
{
    if live.pinned != saved.pinned {
        out.push(DispatchAction::FocusWindow { address: live.address.clone() });
        out.push(DispatchAction::TogglePin);
    }
    assert(actions_view(*out) =~= actions_view(*old(out)) + plan_pinned(live@, saved@));
}

fn push_fullscreen(out: &mut Vec<DispatchAction>, live: &WindowRecord, saved: &WindowRecord)
    ensures
        actions_view(*final(out)) == actions_view(*old(out)) + plan_fullscreen(live@, saved@),
{
    if live.fullscreen != saved.fullscreen {
        out.push(DispatchAction::FocusWindow { address: live.address.clone() });
        out.push(
            DispatchAction::ToggleFullscreen {
                maximize: saved.fullscreen == FullscreenState::Maximized,
            },
        );
    }
    assert(actions_view(*out) =~= actions_view(*old(out)) + plan_fullscreen(live@, saved@));
}

fn push_position(out: &mut Vec<DispatchAction>, live: &WindowRecord, saved: &WindowRecord)
    ensures
        actions_view(*final(out)) == actions_view(*old(out)) + plan_position(live@, saved@),
{
    if saved.fullscreen == FullscreenState::Windowed && (live.x != saved.x || live.y != saved.y) {
        out.push(
            DispatchAction::MoveWindowPixel {
                address: live.address.clone(),
                x: saved.x,
                y: saved.y,
            },
        );
    }
    assert(actions_view(*out) =~= actions_view(*old(out)) + plan_position(live@, saved@));
}

fn push_size(out: &mut Vec<DispatchAction>, live: &WindowRecord, saved: &WindowRecord)
    ensures
        actions_view(*final(out)) == actions_view(*old(out)) + plan_size(live@, saved@),
{
    if saved.fullscreen == FullscreenState::Windowed && (live.w != saved.w || live.h != saved.h) {
        out.push(
            DispatchAction::ResizeWindowPixel {
                address: live.address.clone(),
                w: saved.w,
                h: saved.h,
            },
        );
    }
    assert(actions_view(*out) =~= actions_view(*old(out)) + plan_size(live@, saved@));
}

/// Appends the corrective dispatches for one live/saved pair.
#[verifier::rlimit(100)]
fn plan_adjustments_into(
    out: &mut Vec<DispatchAction>,
    live: &WindowRecord,
    saved: &WindowRecord,
)
    ensures
        actions_view(*final(out)) == actions_view(*old(out)) + spec_plan(live@, saved@),
{
    let ghost base = actions_view(*old(out));
    push_workspace(out, live, saved);
    push_monitor(out, live, saved);
    let ghost g2 = actions_view(*out);
    proof {
        assert(g2 =~= base + (plan_workspace(live@, saved@) + plan_monitor(live@, saved@)));
    }
    push_floating(out, live, saved);
    push_pinned(out, live, saved);
    let ghost g4 = actions_view(*out);
    proof {
        assert(g4 =~= base + (plan_workspace(live@, saved@) + plan_monitor(live@, saved@)
            + plan_floating(live@, saved@) + plan_pinned(live@, saved@)));
    }
    push_fullscreen(out, live, saved);
    push_position(out, live, saved);
    push_size(out, live, saved);
    assert(actions_view(*out) =~= base + spec_plan(live@, saved@));
}

/// The corrective dispatches that bring the live window's tracked
/// properties to the saved record's, one per differing property, in the
/// fixed order the dispatch primitives demand.
pub fn plan_adjustments(live: &WindowRecord, saved: &WindowRecord) -> (r: Vec<DispatchAction>)
    ensures
        actions_view(r) == spec_plan(live@, saved@),
{
    let mut out: Vec<DispatchAction> = Vec::new();
    assert(actions_view(out) =~= Seq::<ActionV>::empty());
    plan_adjustments_into(&mut out, live, saved);
    out
}

/// The first live window carrying the given address, if any.
pub open spec fn find_by_address(wins: Seq<WindowRecordV>, addr: Seq<char>) -> Option<
    WindowRecordV,
>
    decreases wins.len(),
{
    if wins.len() == 0 {
        None
    } else if wins[0].address == addr {
        Some(wins[0])
    } else {
        find_by_address(wins.subrange(1, wins.len() as int), addr)
    }
}

/// The dispatches of diffing one live window against every saved record, in
/// manifest order.
pub open spec fn plan_all(records: Seq<WindowRecordV>, live: WindowRecordV) -> Seq<ActionV>
    decreases records.len(),
{
    if records.len() == 0 {
        Seq::empty()
    } else {
        plan_all(records.drop_last(), live) + spec_plan(live, records.last())
    }
}

/// What one window event causes: nothing after the load-time budget, nothing
/// for an address no live window carries, and otherwise the diff of that
/// live window against every saved record.
pub open spec fn spec_handle_event(
    records: Seq<WindowRecordV>,
    wins: Seq<WindowRecordV>,
    addr: Seq<char>,
    elapsed: int,
    load_time: int,
) -> Seq<ActionV> {
    if elapsed > load_time {
        Seq::empty()
    } else {
        match find_by_address(wins, addr) {
            Some(w) => plan_all(records, w),
            None => Seq::empty(),
        }
    }
}

/// Decides the corrective dispatches for one window event: the event's
/// address is matched against the live windows, and the matching window is
/// diffed against every saved record. An event arriving after the
/// load-time budget decides nothing.
pub fn handle_event(
    records: &Vec<WindowRecord>,
    wins: &Vec<WindowRecord>,
    address: &str,
    elapsed_secs: u64,
    load_time: u64,
) -> (r: Vec<DispatchAction>)
    ensures
        actions_view(r) == spec_handle_event(
            windows_view(records@),
            windows_view(wins@),
            address@,
            elapsed_secs as int,
            load_time as int,
        ),
        elapsed_secs > load_time ==> r@.len() == 0,
{
    let mut out: Vec<DispatchAction> = Vec::new();
    assert(actions_view(out) =~= Seq::<ActionV>::empty());
    if elapsed_secs > load_time {
        return out;
    }
    let ghost wv = windows_view(wins@);
    proof {
        assert(wv.subrange(0, wv.len() as int) =~= wv);
    }
    let mut i: usize = 0;
    let n = wins.len();
    while i < n
        invariant
            n == wins@.len(),
            i <= n,
            wv == windows_view(wins@),
            elapsed_secs <= load_time,
            actions_view(out) == Seq::<ActionV>::empty(),
            find_by_address(wv, address@) == find_by_address(
                wv.subrange(i as int, wv.len() as int),
                address@,
            ),
        decreases n - i,
    {
        proof {
            assert(wv.subrange(i as int, wv.len() as int)[0] == wv[i as int]);
            assert(wv.subrange(i as int, wv.len() as int).subrange(
                1,
                wv.subrange(i as int, wv.len() as int).len() as int,
            ) =~= wv.subrange(i + 1, wv.len() as int));
        }
        if str_eq(wins[i].address.as_str(), address) {
            assert(find_by_address(wv, address@) == Some(wv[i as int]));
            let ghost w = wv[i as int];
            let mut j: usize = 0;
            let m = records.len();
            let ghost rv = windows_view(records@);
            proof {
                assert(rv.subrange(0, 0) =~= Seq::<WindowRecordV>::empty());
                assert(actions_view(out) =~= plan_all(rv.subrange(0, 0), w));
            }
            while j < m
                invariant
                    m == records@.len(),
                    j <= m,
                    i < wins@.len(),
                    rv == windows_view(records@),
                    w == windows_view(wins@)[i as int],
                    actions_view(out) == plan_all(rv.subrange(0, j as int), w),
                decreases m - j,
            {
                plan_adjustments_into(&mut out, &wins[i], &records[j]);
                proof {
                    assert(rv.subrange(0, j + 1 as int).drop_last() =~= rv.subrange(0, j as int));
                    assert(rv.subrange(0, j + 1 as int).last() == rv[j as int]);
                }
                j = j + 1;
            }
            proof {
                assert(rv.subrange(0, m as int) =~= rv);
                assert(actions_view(out) == plan_all(rv, w));
                assert(find_by_address(windows_view(wins@), address@) == Some(w));
                assert(spec_handle_event(
                    windows_view(records@),
                    windows_view(wins@),
                    address@,
                    elapsed_secs as int,
                    load_time as int,
                ) == plan_all(rv, w));
            }
            return out;
        }
        i = i + 1;
    }
    proof {
        assert(wv.subrange(n as int, wv.len() as int) =~= Seq::<WindowRecordV>::empty());
    }
    out
}

} // verus!
