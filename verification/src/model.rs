//! The data model of a saved session: per-window state records, launch
//! directives, the persisted manifest, and the corrective dispatch calls
//! that reconciliation emits.
use vstd::prelude::*;

verus! {

/// The fullscreen state of a window.
#[derive(Clone, Copy, PartialEq, Eq, Structural, Debug)]
pub enum FullscreenState {
    /// Not fullscreen.
    Windowed,
    /// Maximized within its workspace.
    Maximized,
    /// Real fullscreen.
    Real,
}

/// The numeric code a fullscreen state is persisted as.
pub open spec fn fullscreen_code(f: FullscreenState) -> int {
    match f {
        FullscreenState::Windowed => 0,
        FullscreenState::Maximized => 1,
        FullscreenState::Real => 2,
    }
}

/// Persists a fullscreen state as its numeric code.
pub fn fullscreen_code_exec(f: FullscreenState) -> (r: u8)
    ensures
        r as int == fullscreen_code(f),
{
    match f {
        FullscreenState::Windowed => 0,
        FullscreenState::Maximized => 1,
        FullscreenState::Real => 2,
    }
}

/// Reads a fullscreen state back from its numeric code.
pub fn fullscreen_from_code(code: i64) -> (r: Option<FullscreenState>)
    ensures
        match r {
            Some(f) => fullscreen_code(f) == code as int,
            None => code != 0 && code != 1 && code != 2,
        },
{
    if code == 0 {
        Some(FullscreenState::Windowed)
    } else if code == 1 {
        Some(FullscreenState::Maximized)
    } else if code == 2 {
        Some(FullscreenState::Real)
    } else {
        None
    }
}

/// The workspace id that stands for the special scratch workspace.
pub open spec fn special_workspace_id() -> int {
    -99
}

/// The mathematical value of a window record.
pub struct WindowRecordV {
    pub address: Seq<char>,
    pub pid: int,
    pub monitor: int,
    pub workspace: int,
    pub floating: bool,
    pub pinned: bool,
    pub fullscreen: FullscreenState,
    pub x: int,
    pub y: int,
    pub w: int,
    pub h: int,
    pub class: Seq<char>,
    pub title: Seq<char>,
}

/// One saved window: its capture-time identity, placement and state. One
/// record exists per window visible at capture time.
#[derive(Clone, Debug, PartialEq, Eq)]
pub struct WindowRecord {
    /// Opaque identifier the window manager assigned; stable only within a
    /// session, never across restarts.
    pub address: String,
    /// Process id of the owning client.
    pub pid: i32,
    /// Index of the monitor the window was on.
    pub monitor: i32,
    /// Workspace id; may be the special-workspace sentinel.
    pub workspace: i32,
    /// Whether the window was floating.
    pub floating: bool,
    /// Whether the window was pinned.
    pub pinned: bool,
    /// The window's fullscreen state.
    pub fullscreen: FullscreenState,
    /// Horizontal position in pixels.
    pub x: i16,
    /// Vertical position in pixels.
    pub y: i16,
    /// Width in pixels.
    pub w: i16,
    /// Height in pixels.
    pub h: i16,
    /// The window-class hint at capture time.
    pub class: String,
    /// The window title at capture time.
    pub title: String,
}

impl View for WindowRecord {
    type V = WindowRecordV;

    open spec fn view(&self) -> WindowRecordV {
        WindowRecordV {
            address: self.address@,
            pid: self.pid as int,
            monitor: self.monitor as int,
            workspace: self.workspace as int,
            floating: self.floating,
            pinned: self.pinned,
            fullscreen: self.fullscreen,
            x: self.x as int,
            y: self.y as int,
            w: self.w as int,
            h: self.h as int,
            class: self.class@,
            title: self.title@,
        }
    }
}

/// A string the session codecs can persist: free of the rare control
/// characters that have no short escape.
pub open spec fn string_wf(s: Seq<char>) -> bool {
    forall|j: int|
        0 <= j < s.len() ==> (#[trigger] s[j]) as int >= 32 || s[j] == '\n' || s[j] == '\t'
            || s[j] == '\r'
}

/// A record the session codecs can persist.
pub open spec fn record_wf(r: WindowRecordV) -> bool {
    string_wf(r.address) && string_wf(r.class) && string_wf(r.title)
}

/// The mathematical value of a launch directive.
pub struct DirectiveV {
    pub tokens: Seq<Seq<char>>,
    pub command: Seq<char>,
}

/// One saved launch directive: the ordered non-empty placement tokens and
/// the resolved command that relaunches the application.
#[derive(Clone, Debug, PartialEq, Eq)]
pub struct LaunchDirective {
    /// Placement tokens, in the fixed rendering order, none empty.
    pub tokens: Vec<String>,
    /// The resolved command string, verbatim.
    pub command: String,
}

impl View for LaunchDirective {
    type V = DirectiveV;

    open spec fn view(&self) -> DirectiveV {
        DirectiveV { tokens: self.tokens@.map_values(|t: String| t@), command: self.command@ }
    }
}

/// A placement token can be rendered and read back when it is non-empty and
/// free of the format's separators and line breaks.
pub open spec fn token_wf(t: Seq<char>) -> bool {
    t.len() > 0 && forall|j: int|
        0 <= j < t.len() ==> (#[trigger] t[j]) != ';' && t[j] != ']' && t[j] != '\n'
}

/// A directive can be rendered and read back when it has at least one
/// well-formed token and a command free of line breaks.
pub open spec fn directive_wf(d: DirectiveV) -> bool {
    d.tokens.len() > 0 && (forall|i: int| 0 <= i < d.tokens.len() ==> token_wf(
        #[trigger] d.tokens[i],
    )) && (forall|j: int| 0 <= j < d.command.len() ==> (#[trigger] d.command[j]) != '\n')
}

/// The full persisted state of one named session: the launch directives and
/// the window records, each in capture order. Created wholesale by capture
/// and read wholesale by reconciliation; a save fully replaces the prior
/// manifest of its session name.
#[derive(Clone, Debug)]
pub struct SessionManifest {
    /// The launch directives, in capture order.
    pub directives: Vec<LaunchDirective>,
    /// The window records, in capture order.
    pub records: Vec<WindowRecord>,
}

/// The views of a manifest's directives.
pub open spec fn directives_view(m: SessionManifest) -> Seq<DirectiveV> {
    m.directives@.map_values(|d: LaunchDirective| d@)
}

/// The views of a manifest's records.
pub open spec fn records_view(m: SessionManifest) -> Seq<WindowRecordV> {
    m.records@.map_values(|r: WindowRecord| r@)
}

/// A manifest the session codecs can persist.
pub open spec fn manifest_wf(m: SessionManifest) -> bool {
    (forall|i: int| 0 <= i < directives_view(m).len() ==> directive_wf(
        #[trigger] directives_view(m)[i],
    )) && (forall|i: int| 0 <= i < records_view(m).len() ==> record_wf(
        #[trigger] records_view(m)[i],
    ))
}

/// The mathematical value of a dispatch call.
pub enum ActionV {
    MoveToWorkspaceSilent { address: Seq<char>, workspace: int },
    MoveWorkspaceToMonitor { workspace: int, monitor: int },
    ToggleFloating { address: Seq<char> },
    FocusWindow { address: Seq<char> },
    TogglePin,
    ToggleFullscreen { maximize: bool },
    MoveWindowPixel { address: Seq<char>, x: int, y: int },
    ResizeWindowPixel { address: Seq<char>, w: int, h: int },
}

/// One corrective or replay call to the window manager, as plain data. The
/// engine only decides these; the unverified shell performs them.
#[derive(Clone, Debug, PartialEq, Eq)]
pub enum DispatchAction {
    /// Move the window to a workspace without focusing it.
    MoveToWorkspaceSilent { address: String, workspace: i32 },
    /// Move the workspace that owns the window to a monitor.
    MoveWorkspaceToMonitor { workspace: i32, monitor: i32 },
    /// Toggle the window's floating state.
    ToggleFloating { address: String },
    /// Focus the window.
    FocusWindow { address: String },
    /// Toggle the pinned state of the focused window.
    TogglePin,
    /// Toggle fullscreen of the focused window, maximized or real.
    ToggleFullscreen { maximize: bool },
    /// Move the window to an exact pixel position.
    MoveWindowPixel { address: String, x: i16, y: i16 },
    /// Resize the window to an exact pixel size.
    ResizeWindowPixel { address: String, w: i16, h: i16 },
}

impl View for DispatchAction {
    type V = ActionV;

    open spec fn view(&self) -> ActionV {
        match self {
            DispatchAction::MoveToWorkspaceSilent { address, workspace } => {
                ActionV::MoveToWorkspaceSilent {
                    address: address@,
                    workspace: *workspace as int,
                }
            },
            DispatchAction::MoveWorkspaceToMonitor { workspace, monitor } => {
                ActionV::MoveWorkspaceToMonitor {
                    workspace: *workspace as int,
                    monitor: *monitor as int,
                }
            },
            DispatchAction::ToggleFloating { address } => {
                ActionV::ToggleFloating { address: address@ }
            },
            DispatchAction::FocusWindow { address } => {
                ActionV::FocusWindow { address: address@ }
            },
            DispatchAction::TogglePin => ActionV::TogglePin,
            DispatchAction::ToggleFullscreen { maximize } => {
                ActionV::ToggleFullscreen { maximize: *maximize }
            },
            DispatchAction::MoveWindowPixel { address, x, y } => {
                ActionV::MoveWindowPixel { address: address@, x: *x as int, y: *y as int }
            },
            DispatchAction::ResizeWindowPixel { address, w, h } => {
                ActionV::ResizeWindowPixel { address: address@, w: *w as int, h: *h as int }
            },
        }
    }
}

/// The views of a list of dispatch calls.
pub open spec fn actions_view(v: Vec<DispatchAction>) -> Seq<ActionV> {
    v@.map_values(|a: DispatchAction| a@)
}

} // verus!
