//! The window model: one record of the compositor's snapshot, its
//! mathematical view, and the menu label it is displayed under.

use vstd::prelude::*;

use crate::num::{i32_to_string, spec_dec_int};
use crate::text::{spec_strip_parens, str_eq, strip_parens_str};

verus! {

/// The mathematical view of a `Window`.
pub struct WindowView {
    pub monitor: int,
    pub class: Seq<char>,
    pub title: Seq<char>,
    pub workspace_id: int,
    pub workspace_name: Seq<char>,
    pub pid: int,
    pub fullscreen: int,
}

/// One open application window, as one record of the snapshot describes it.
/// An empty `class` marks a placeholder that is never surfaced to the user.
pub struct Window {
    /// Index of the monitor the window is displayed on; 0 when unknown.
    pub monitor: i32,
    /// Application class identifier; empty means "not a real window".
    pub class: String,
    /// Window title.
    pub title: String,
    /// Numeric id and display name of the window's workspace.
    pub workspace: (i32, String),
    /// Owning process id; 0 when unknown.
    pub pid: i32,
    /// 0 when not fullscreen, positive otherwise.
    pub fullscreen: u8,
}

impl View for Window {
    type V = WindowView;

    open spec fn view(&self) -> WindowView {
        WindowView {
            monitor: self.monitor as int,
            class: self.class@,
            title: self.title@,
            workspace_id: self.workspace.0 as int,
            workspace_name: self.workspace.1@,
            pid: self.pid as int,
            fullscreen: self.fullscreen as int,
        }
    }
}

impl Clone for Window {
    fn clone(&self) -> (r: Self)
        ensures
            r@ == self@,
    {
        Window {
            monitor: self.monitor,
            class: self.class.clone(),
            title: self.title.clone(),
            workspace: (self.workspace.0, self.workspace.1.clone()),
            pid: self.pid,
            fullscreen: self.fullscreen,
        }
    }
}

/// The view of the default window every record starts from.
pub open spec fn spec_default_window() -> WindowView {
    WindowView {
        monitor: 0,
        class: Seq::<char>::empty(),
        title: Seq::<char>::empty(),
        workspace_id: 0,
        workspace_name: Seq::<char>::empty(),
        pid: 0,
        fullscreen: 0,
    }
}

/// The menu label of a window: the monitor, the class, the title when it
/// differs from the class, and the workspace display name with surrounding
/// parentheses stripped.
pub open spec fn spec_label(w: WindowView) -> Seq<char> {
    spec_dec_int(w.monitor) + ": "@ + w.class + (if w.class == w.title {
        Seq::<char>::empty()
    } else {
        " >> "@ + w.title
    }) + ", Workspace: "@ + spec_strip_parens(w.workspace_name)
}

/// The workspace display name that marks a minimized window.
pub open spec fn minimized_workspace_name() -> Seq<char> {
    "(special:minimized)"@
}

/// Which state transition selecting a window calls for.
#[derive(PartialEq, Eq, Structural, Debug, Clone, Copy)]
pub enum SelectedAction {
    /// The window sits on the minimized pseudo-workspace: restore it.
    Unminimize,
    /// The window is on a real workspace: focus it.
    Focus,
}

impl Window {
    /// The default window every record starts from before its fields are
    /// filled in.
    pub fn new() -> (w: Window)
        ensures
            w@ == spec_default_window(),
    {
        let w = Window {
            monitor: 0,
            class: String::new(),
            title: String::new(),
            workspace: (0, String::new()),
            pid: 0,
            fullscreen: 0,
        };
        proof {
            assert(w@ =~= spec_default_window());
        }
        w
    }

    /// The label shown in the menu; absent exactly for placeholder windows,
    /// whose class is empty.
    pub fn format(&self) -> (r: Option<String>)
        ensures
            r is Some <==> self@.class.len() > 0,
            match r {
                Some(s) => s@ == spec_label(self@),
                None => true,
            },
    {
        if self.class.as_str().is_empty() {
            return None;
        }
        let mut s = i32_to_string(self.monitor);
        s.append(": ");
        s.append(self.class.as_str());
        if !str_eq(self.class.as_str(), self.title.as_str()) {
            s.append(" >> ");
            s.append(self.title.as_str());
        }
        s.append(", Workspace: ");
        s.append(strip_parens_str(self.workspace.1.as_str()));
        proof {
            assert(s@ =~= spec_label(self@));
        }
        Some(s)
    }

    /// The transition selecting this window calls for: unminimize when it
    /// sits on the minimized pseudo-workspace, focus otherwise.
    pub fn select_action(&self) -> (a: SelectedAction)
        ensures
            a == SelectedAction::Unminimize <==> self@.workspace_name
                == minimized_workspace_name(),
    {
        if str_eq(self.workspace.1.as_str(), "(special:minimized)") {
            SelectedAction::Unminimize
        } else {
            SelectedAction::Focus
        }
    }
}

} // verus!
