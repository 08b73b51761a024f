//! The state-transition engine: given a resolved target window, it plans the
//! exact sequence of control commands that focuses the window or restores it
//! from the minimized pseudo-workspace.  The caller issues the commands in
//! order and stops at the first failure.

use vstd::prelude::*;

use crate::num::{i32_to_string, spec_dec_int};
use crate::text::str_eq;
use crate::window::{Window, WindowView};

verus! {

/// The mathematical view of a `Destination`.
pub enum DestinationView {
    Id(int),
    Name(Seq<char>),
}

/// The workspace slot of a move command: a numeric workspace id, or a
/// workspace display name.
#[derive(Debug, PartialEq, Eq)]
pub enum Destination {
    Id(i32),
    Name(String),
}

impl View for Destination {
    type V = DestinationView;

    open spec fn view(&self) -> DestinationView {
        match self {
            Destination::Id(id) => DestinationView::Id(*id as int),
            Destination::Name(name) => DestinationView::Name(name@),
        }
    }
}

/// The mathematical view of a `Command`.
pub enum CommandView {
    FocusWindow { pid: int },
    ToggleFullscreen,
    MoveToWorkspace { destination: DestinationView, pid: int },
}

/// One dispatch command for the external control tool.
#[derive(Debug, PartialEq, Eq)]
pub enum Command {
    /// Focus the window of the given process.
    FocusWindow { pid: i32 },
    /// Toggle the fullscreen state of the currently focused window.
    ToggleFullscreen,
    /// Move the window of the given process to the given workspace.
    MoveToWorkspace { destination: Destination, pid: i32 },
}

impl View for Command {
    type V = CommandView;

    open spec fn view(&self) -> CommandView {
        match self {
            Command::FocusWindow { pid } => CommandView::FocusWindow { pid: *pid as int },
            Command::ToggleFullscreen => CommandView::ToggleFullscreen,
            Command::MoveToWorkspace { destination, pid } => CommandView::MoveToWorkspace {
                destination: destination@,
                pid: *pid as int,
            },
        }
    }
}

/// The focus plan: when some window on the target's workspace (matched by
/// display name) is fullscreen, the earliest such window is focused and its
/// fullscreen state toggled off before the target is focused; otherwise the
/// target is focused directly.
pub open spec fn spec_focus_plan(ws: Seq<WindowView>, pid: int, workspace: Seq<char>) -> Seq<
    CommandView,
>
    decreases ws.len(),
{
    if ws.len() == 0 {
        seq![CommandView::FocusWindow { pid }]
    } else if ws[0].fullscreen > 0 && ws[0].workspace_name == workspace {
        seq![
            CommandView::FocusWindow { pid: ws[0].pid },
            CommandView::ToggleFullscreen,
            CommandView::FocusWindow { pid },
        ]
    } else {
        spec_focus_plan(ws.drop_first(), pid, workspace)
    }
}

/// A window that blocks a direct focus: fullscreen on the same workspace.
pub open spec fn blocks_focus(w: WindowView, workspace: Seq<char>) -> bool {
    w.fullscreen > 0 && w.workspace_name == workspace
}

/// The focus plan is exactly one of two shapes: a single focus of the target
/// when no window on the target workspace is fullscreen, and focus, toggle,
/// focus of the target when the earliest such window exists.
pub proof fn lemma_focus_plan_shape(ws: Seq<WindowView>, pid: int, workspace: Seq<char>)
    ensures
        (forall|k: int| 0 <= k < ws.len() ==> !blocks_focus(ws[k], workspace)) ==> spec_focus_plan(
            ws,
            pid,
            workspace,
        ) == seq![CommandView::FocusWindow { pid }],
        (exists|k: int| 0 <= k < ws.len() && blocks_focus(ws[k], workspace)) ==> exists|j: int|
            0 <= j < ws.len() && blocks_focus(ws[j], workspace) && (forall|k: int|
                0 <= k < j ==> !blocks_focus(ws[k], workspace)) && spec_focus_plan(
                ws,
                pid,
                workspace,
            ) == seq![
                CommandView::FocusWindow { pid: ws[j].pid },
                CommandView::ToggleFullscreen,
                CommandView::FocusWindow { pid },
            ],
    decreases ws.len(),
{
    if ws.len() > 0 && !blocks_focus(ws[0], workspace) {
        lemma_focus_plan_shape(ws.drop_first(), pid, workspace);
        if exists|k: int| 0 <= k < ws.len() && blocks_focus(ws[k], workspace) {
            assert forall|k: int|
                0 <= k < ws.drop_first().len() && blocks_focus(
                    ws.drop_first()[k],
                    workspace,
                ) implies blocks_focus(ws[k + 1], workspace) by {}
            let k0 = choose|k: int| 0 <= k < ws.len() && blocks_focus(ws[k], workspace);
            assert(k0 > 0);
            assert(blocks_focus(ws.drop_first()[k0 - 1], workspace));
            let j = choose|j: int|
                0 <= j < ws.drop_first().len() && blocks_focus(ws.drop_first()[j], workspace) && (
                forall|k: int|
                    0 <= k < j ==> !blocks_focus(ws.drop_first()[k], workspace))
                    && spec_focus_plan(ws.drop_first(), pid, workspace) == seq![
                    CommandView::FocusWindow { pid: ws.drop_first()[j].pid },
                    CommandView::ToggleFullscreen,
                    CommandView::FocusWindow { pid },
                ];
            assert(ws.drop_first()[j] == ws[j + 1]);
            assert forall|k: int| 0 <= k < j + 1 implies !blocks_focus(ws[k], workspace) by {
                if k > 0 {
                    assert(ws.drop_first()[k - 1] == ws[k]);
                }
            }
            assert(0 <= j + 1 < ws.len() && blocks_focus(ws[j + 1], workspace) && (forall|k: int|
                0 <= k < j + 1 ==> !blocks_focus(ws[k], workspace)) && spec_focus_plan(
                ws,
                pid,
                workspace,
            ) == seq![
                CommandView::FocusWindow { pid: ws[j + 1].pid },
                CommandView::ToggleFullscreen,
                CommandView::FocusWindow { pid },
            ]);
        }
    }
}

/// The command sequence that focuses the window of process `pid` on the
/// workspace displayed as `workspace`, un-fullscreening the earliest
/// fullscreen window of that workspace first when one exists.
pub fn focus(windows: &Vec<Window>, pid: i32, workspace: &str) -> (cmds: Vec<Command>)
    ensures
        cmds@.map_values(|c: Command| c@) == spec_focus_plan(
            windows@.map_values(|w: Window| w@),
            pid as int,
            workspace@,
        ),
{
    let ghost views = windows@.map_values(|w: Window| w@);
    let ghost plan = spec_focus_plan(views, pid as int, workspace@);
    let mut i: usize = 0;
    let n = windows.len();
    proof {
        assert(views.skip(0) =~= views);
    }
    while i < n
        invariant
            0 <= i <= n,
            n == windows@.len(),
            views == windows@.map_values(|w: Window| w@),
            plan == spec_focus_plan(views, pid as int, workspace@),
            plan == spec_focus_plan(views.skip(i as int), pid as int, workspace@),
        decreases n - i,
    {
        proof {
            assert(views.skip(i as int)[0] == views[i as int]);
            assert(views[i as int] == windows@[i as int]@);
        }
        let w = &windows[i];
        if w.fullscreen > 0 && str_eq(w.workspace.1.as_str(), workspace) {
            let mut cmds: Vec<Command> = Vec::new();
            cmds.push(Command::FocusWindow { pid: w.pid });
            cmds.push(Command::ToggleFullscreen);
            cmds.push(Command::FocusWindow { pid });
            proof {
                assert(cmds@.map_values(|c: Command| c@) =~= plan);
            }
            return cmds;
        }
        proof {
            assert(views.skip(i as int).drop_first() =~= views.skip(i + 1));
        }
        i = i + 1;
    }
    let mut cmds: Vec<Command> = Vec::new();
    cmds.push(Command::FocusWindow { pid });
    proof {
        assert(views.skip(n as int) =~= Seq::<WindowView>::empty());
        assert(cmds@.map_values(|c: Command| c@) =~= plan);
    }
    cmds
}

/// Why an unminimize plan could not be made: neither an active window nor an
/// active workspace was available to choose a destination.
#[derive(Debug, PartialEq, Eq, Clone, Copy)]
pub enum LookupError {
    NoActiveContext,
}

impl LookupError {
    /// The report shown when the lookup failed.
    pub fn message(&self) -> (r: String)
        ensures
            r@ == "Failed to get active workspace or active window"@,
    {
        String::from_str("Failed to get active workspace or active window")
    }
}

/// The unminimize plan for a target process: the active window's workspace id
/// is the destination, after a fullscreen toggle when the active window is
/// fullscreen; with no active window, the active workspace's display name is
/// the destination; with neither, there is no plan.
pub open spec fn spec_unminimize_plan(
    active: Option<WindowView>,
    active_workspace: Option<Seq<char>>,
    pid: int,
) -> Option<Seq<CommandView>> {
    match active {
        Some(w) => {
            let move_cmd = CommandView::MoveToWorkspace {
                destination: DestinationView::Id(w.workspace_id),
                pid,
            };
            if w.fullscreen > 0 {
                Some(seq![CommandView::ToggleFullscreen, move_cmd])
            } else {
                Some(seq![move_cmd])
            }
        },
        None => match active_workspace {
            Some(name) => Some(
                seq![
                    CommandView::MoveToWorkspace {
                        destination: DestinationView::Name(name),
                        pid,
                    },
                ],
            ),
            None => None,
        },
    }
}

/// The command sequence that restores the window of process `pid` from the
/// minimized pseudo-workspace, given the currently active window and, when
/// none exists, the active workspace's display name.  Fails exactly when
/// neither is available.
pub fn unminimize(
    active: Option<&Window>,
    active_workspace: Option<&str>,
    pid: i32,
) -> (r: Result<Vec<Command>, LookupError>)
    ensures
        ({
            let active_view = match active {
                Some(w) => Some(w@),
                None => None,
            };
            let workspace_view = match active_workspace {
                Some(name) => Some(name@),
                None => None,
            };
            match r {
                Ok(cmds) => spec_unminimize_plan(active_view, workspace_view, pid as int)
                    == Some(cmds@.map_values(|c: Command| c@)),
                Err(_) => active is None && active_workspace is None,
            }
        }),
{
    match active {
        Some(w) => {
            let mut cmds: Vec<Command> = Vec::new();
            if w.fullscreen > 0 {
                cmds.push(Command::ToggleFullscreen);
            }
            cmds.push(
                Command::MoveToWorkspace { destination: Destination::Id(w.workspace.0), pid },
            );
            proof {
                let active_view = Some(w@);
                let plan = spec_unminimize_plan(
                    active_view,
                    match active_workspace {
                        Some(name) => Some(name@),
                        None => None,
                    },
                    pid as int,
                );
                assert(cmds@.map_values(|c: Command| c@) =~= plan->Some_0);
            }
            Ok(cmds)
        },
        None => match active_workspace {
            Some(name) => {
                let mut cmds: Vec<Command> = Vec::new();
                cmds.push(
                    Command::MoveToWorkspace {
                        destination: Destination::Name(String::from_str(name)),
                        pid,
                    },
                );
                proof {
                    let plan = spec_unminimize_plan(None, Some(name@), pid as int);
                    assert(cmds@.map_values(|c: Command| c@) =~= plan->Some_0);
                }
                Ok(cmds)
            },
            None => Err(LookupError::NoActiveContext),
        },
    }
}

/// The argument vector that dispatches one command through the control tool,
/// as `<tool> dispatch <name> <args>` expects it.
pub open spec fn spec_dispatch_args(c: CommandView) -> Seq<Seq<char>> {
    match c {
        CommandView::FocusWindow { pid } => seq![
            "dispatch"@,
            "focuswindow"@,
            "pid:"@ + spec_dec_int(pid),
        ],
        CommandView::ToggleFullscreen => seq!["dispatch"@, "fullscreen"@],
        CommandView::MoveToWorkspace { destination, pid } => {
            let dest = match destination {
                DestinationView::Id(id) => spec_dec_int(id),
                DestinationView::Name(name) => name,
            };
            seq!["dispatch"@, "movetoworkspace"@, dest + ","@ + "pid:"@ + spec_dec_int(pid)]
        },
    }
}

impl Command {
    /// The textual arguments this command is dispatched with.
    pub fn dispatch_args(&self) -> (r: Vec<String>)
        ensures
            r@.map_values(|s: String| s@) == spec_dispatch_args(self@),
    {
        let mut r: Vec<String> = Vec::new();
        r.push(String::from_str("dispatch"));
        match self {
            Command::FocusWindow { pid } => {
                r.push(String::from_str("focuswindow"));
                let mut arg = String::from_str("pid:");
                arg.append(i32_to_string(*pid).as_str());
                r.push(arg);
            },
            Command::ToggleFullscreen => {
                r.push(String::from_str("fullscreen"));
            },
            Command::MoveToWorkspace { destination, pid } => {
                r.push(String::from_str("movetoworkspace"));
                let mut arg = match destination {
                    Destination::Id(id) => i32_to_string(*id),
                    Destination::Name(name) => name.clone(),
                };
                arg.append(",");
                arg.append("pid:");
                arg.append(i32_to_string(*pid).as_str());
                r.push(arg);
            },
        }
        proof {
            assert(r@.map_values(|s: String| s@) =~= spec_dispatch_args(self@));
        }
        r
    }
}

} // verus!
