use vstd::prelude::*;

verus! {

// ── Process Action Menu ─────────────────────────────────────────────────

/// Actions available in the process context menu.
#[derive(Clone, Copy, Debug, PartialEq, Eq, Structural)]
pub enum ProcessAction {
    Kill,
    ForceKill,
    CopyPid,
    OpenFileLocation,
    ProcessTree,
}

/// How many actions the menu offers.
pub const ACTION_COUNT: usize = 5;

/// The action at place `i` of the menu, in display order.
pub open spec fn action_at(i: int) -> ProcessAction {
    if i == 0 {
        ProcessAction::Kill
    } else if i == 1 {
        ProcessAction::ForceKill
    } else if i == 2 {
        ProcessAction::CopyPid
    } else if i == 3 {
        ProcessAction::OpenFileLocation
    } else {
        ProcessAction::ProcessTree
    }
}

/// The menu label of action `a`.
pub open spec fn action_label(a: ProcessAction) -> Seq<char> {
    match a {
        ProcessAction::Kill => "Kill Process  (SIGTERM)"@,
        ProcessAction::ForceKill => "Force Kill    (SIGKILL)"@,
        ProcessAction::CopyPid => "Copy PID"@,
        ProcessAction::OpenFileLocation => "Open File Location"@,
        ProcessAction::ProcessTree => "Process Tree"@,
    }
}

impl ProcessAction {
    /// The action at place `i` of the menu, in display order.
    pub fn at(i: usize) -> (r: ProcessAction)
        requires
            i < ACTION_COUNT,
        ensures
            r == action_at(i as int),
    {
        match i {
            0 => ProcessAction::Kill,
            1 => ProcessAction::ForceKill,
            2 => ProcessAction::CopyPid,
            3 => ProcessAction::OpenFileLocation,
            _ => ProcessAction::ProcessTree,
        }
    }

    /// Human-readable label shown in the menu.
    pub fn label(self) -> (r: &'static str)
        ensures
            r@ == action_label(self),
    {
        match self {
            ProcessAction::Kill => "Kill Process  (SIGTERM)",
            ProcessAction::ForceKill => "Force Kill    (SIGKILL)",
            ProcessAction::CopyPid => "Copy PID",
            ProcessAction::OpenFileLocation => "Open File Location",
            ProcessAction::ProcessTree => "Process Tree",
        }
    }
}

/// Every place of the menu holds a different action.
pub proof fn lemma_actions_distinct(i: int, j: int)
    requires
        0 <= i < ACTION_COUNT,
        0 <= j < ACTION_COUNT,
        i != j,
    ensures
        action_at(i) != action_at(j),
{
}

/// State of the process action popup menu.
pub struct ProcessMenu {
    /// Whether the menu is currently visible.
    pub visible: bool,
    /// Place in the menu of the highlighted action.
    pub selected: usize,
    /// PID of the target process.
    pub target_pid: u32,
    /// Name of the target process (for display).
    pub target_name: String,
    /// Whether awaiting kill confirmation.
    pub confirm_mode: bool,
    /// Feedback message shown after an action.
    pub feedback: Option<String>,
}

/// The menu state, with texts as character sequences.
pub struct MenuView {
    pub visible: bool,
    pub selected: usize,
    pub target_pid: u32,
    pub target_name: Seq<char>,
    pub confirm_mode: bool,
    pub feedback: Option<Seq<char>>,
}

/// The characters of an optional text.
pub open spec fn text_view(t: Option<String>) -> Option<Seq<char>> {
    match t {
        Some(s) => Some(s@),
        None => None,
    }
}

impl View for ProcessMenu {
    type V = MenuView;

    open spec fn view(&self) -> MenuView {
        MenuView {
            visible: self.visible,
            selected: self.selected,
            target_pid: self.target_pid,
            target_name: self.target_name@,
            confirm_mode: self.confirm_mode,
            feedback: text_view(self.feedback),
        }
    }
}

/// The menu as opened on a process.
pub open spec fn opened_menu(pid: u32, name: Seq<char>) -> MenuView {
    MenuView {
        visible: true,
        selected: 0,
        target_pid: pid,
        target_name: name,
        confirm_mode: false,
        feedback: None,
    }
}

/// The menu as opened on a process to kill it: the kill action is
/// highlighted and its confirmation is asked for.
pub open spec fn kill_prompt(pid: u32, name: Seq<char>) -> MenuView {
    MenuView { confirm_mode: true, ..opened_menu(pid, name) }
}

/// The menu before any process was chosen: hidden, nothing selected.
pub open spec fn initial_menu() -> MenuView {
    MenuView {
        visible: false,
        selected: 0,
        target_pid: 0,
        target_name: Seq::empty(),
        confirm_mode: false,
        feedback: None,
    }
}

impl ProcessMenu {
    /// A hidden menu with nothing selected.
    pub fn new() -> (r: ProcessMenu)
        ensures
            r@ == initial_menu(),
    {
        ProcessMenu {
            visible: false,
            selected: 0,
            target_pid: 0,
            target_name: String::new(),
            confirm_mode: false,
            feedback: None,
        }
    }

    /// Opens the menu for a specific process.
    pub fn open(&mut self, pid: u32, name: String)
        ensures
            final(self)@ == opened_menu(pid, name@),
    {
        self.visible = true;
        self.selected = 0;
        self.target_pid = pid;
        self.target_name = name;
        self.confirm_mode = false;
        self.feedback = None;
    }

    /// Closes the menu and resets all state: it is then as `new` made it.
    pub fn close(&mut self)
        ensures
            final(self)@ == initial_menu(),
    {
        self.visible = false;
        self.selected = 0;
        self.target_pid = 0;
        self.target_name = String::new();
        self.confirm_mode = false;
        self.feedback = None;
    }

    /// Returns the currently highlighted action.
    pub fn current_action(&self) -> (r: ProcessAction)
        requires
            self.selected < ACTION_COUNT,
        ensures
            r == action_at(self.selected as int),
    {
        ProcessAction::at(self.selected)
    }
}

// ── Kill outcomes ───────────────────────────────────────────────────────

/// Result of a process kill attempt.
#[derive(Clone, Copy, Debug, PartialEq, Eq, Structural)]
pub enum KillResult {
    /// Signal was sent successfully.
    Success,
    /// The process was not found (may have already exited).
    NotFound,
    /// The signal is not supported on this platform.
    Unsupported,
    /// The signal could not be sent (e.g. permission denied).
    Failed,
}

/// The outcome of a graceful termination request. `signal` is `None` when
/// the process is not found; otherwise it holds what sending the signal
/// reported: `None` when the signal is not supported here, else whether it
/// was delivered.
pub fn terminate_outcome(signal: Option<Option<bool>>) -> (r: KillResult)
    ensures
        r == match signal {
            None => KillResult::NotFound,
            Some(None) => KillResult::Unsupported,
            Some(Some(true)) => KillResult::Success,
            Some(Some(false)) => KillResult::Failed,
        },
{
    match signal {
        Some(sent) => match sent {
            Some(true) => KillResult::Success,
            Some(false) => KillResult::Failed,
            None => KillResult::Unsupported,
        },
        None => KillResult::NotFound,
    }
}

/// The outcome of a forceful kill. `killed` is `None` when the process is
/// not found, else whether the kill was delivered.
pub fn force_kill_outcome(killed: Option<bool>) -> (r: KillResult)
    ensures
        r == match killed {
            None => KillResult::NotFound,
            Some(true) => KillResult::Success,
            Some(false) => KillResult::Failed,
        },
{
    match killed {
        Some(delivered) => {
            if delivered {
                KillResult::Success
            } else {
                KillResult::Failed
            }
        },
        None => KillResult::NotFound,
    }
}

/// The feedback shown after a kill attempt.
pub open spec fn kill_text(r: KillResult) -> Seq<char> {
    match r {
        KillResult::Success => "✓ Signal sent successfully"@,
        KillResult::NotFound => "✗ Process not found (already exited?)"@,
        KillResult::Unsupported => "✗ Signal not supported on this platform"@,
        KillResult::Failed => "✗ Failed (permission denied?)"@,
    }
}

/// The feedback shown after a kill attempt.
pub fn kill_feedback(r: KillResult) -> (s: String)
    ensures
        s@ == kill_text(r),
{
    match r {
        KillResult::Success => "✓ Signal sent successfully".to_owned(),
        KillResult::NotFound => "✗ Process not found (already exited?)".to_owned(),
        KillResult::Unsupported => "✗ Signal not supported on this platform".to_owned(),
        KillResult::Failed => "✗ Failed (permission denied?)".to_owned(),
    }
}

} // verus!
