use vstd::prelude::*;

verus! {

/// A top-level workspace. It is always shown and has no parent.
#[derive(Debug)]
pub struct Session {
    pub index: usize,
    pub name: String,
    pub is_current_session: bool,
    pub is_expanded: bool,
}

impl Session {
    pub fn new(index: usize, name: String, is_current_session: bool) -> (r: Self)
        ensures
            r.index == index,
            r.name@ == name@,
            r.is_current_session == is_current_session,
            !r.is_expanded,
    {
        Session { index, name, is_current_session, is_expanded: false }
    }
}

/// A subdivision of a session; `session` is the handle of its session.
#[derive(Debug)]
pub struct Tab {
    pub index: usize,
    pub name: String,
    pub position: usize,
    pub active: bool,
    pub session: usize,
    pub shown: bool,
    pub is_expanded: bool,
}

impl Tab {
    pub fn new(index: usize, name: String, position: usize, session: usize, active: bool) -> (r: Self)
        ensures
            r.index == index,
            r.name@ == name@,
            r.position == position,
            r.active == active,
            r.session == session,
            !r.shown,
            !r.is_expanded,
    {
        Tab { index, name, position, active, session, shown: false, is_expanded: false }
    }
}

/// A leaf surface of a tab; `pane_id` is its numeric id and whether it is a
/// plugin, `tab` the handle of its tab.
#[derive(Debug)]
pub struct Pane {
    pub index: usize,
    pub title: String,
    pub pane_id: (u32, bool),
    pub tab: usize,
    pub is_focused: bool,
    pub shown: bool,
}

impl Pane {
    pub fn new(index: usize, title: String, pane_id: (u32, bool), tab: usize, is_focused: bool) -> (r: Self)
        ensures
            r.index == index,
            r.title@ == title@,
            r.pane_id == pane_id,
            r.tab == tab,
            r.is_focused == is_focused,
            !r.shown,
    {
        Pane { index, title, pane_id, tab, is_focused, shown: false }
    }
}

/// One row of the picker: its text, its indentation depth and whether the
/// cursor is on it.
#[derive(Debug, PartialEq, Eq)]
pub struct Row {
    pub text: String,
    pub indent: usize,
    pub selected: bool,
}

impl View for Row {
    type V = (Seq<char>, usize, bool);

    open spec fn view(&self) -> (Seq<char>, usize, bool) {
        (self.text@, self.indent, self.selected)
    }
}

/// `(k) label`: the keybind in parentheses, then the label.
pub open spec fn labelled(keybind: Seq<char>, label: Seq<char>) -> Seq<char> {
    "("@ + keybind + ") "@ + label
}

/// A node of the tree, one of the three variants.
#[derive(Debug)]
pub enum Node {
    Session(Session),
    Tab(Tab),
    Pane(Pane),
}

impl Node {
    pub open spec fn spec_index(&self) -> usize {
        match self {
            Node::Session(s) => s.index,
            Node::Tab(t) => t.index,
            Node::Pane(p) => p.index,
        }
    }

    pub open spec fn spec_parent(&self) -> Option<usize> {
        match self {
            Node::Session(_) => None,
            Node::Tab(t) => Some(t.session),
            Node::Pane(p) => Some(p.tab),
        }
    }

    pub open spec fn spec_shown(&self) -> bool {
        match self {
            Node::Session(_) => true,
            Node::Tab(t) => t.shown,
            Node::Pane(p) => p.shown,
        }
    }

    pub open spec fn spec_expanded(&self) -> bool {
        match self {
            Node::Session(s) => s.is_expanded,
            Node::Tab(t) => t.is_expanded,
            Node::Pane(_) => true,
        }
    }

    /// The node with its visibility flag set to `b` (a session stays shown).
    pub open spec fn with_shown(self, b: bool) -> Node {
        match self {
            Node::Session(s) => Node::Session(s),
            Node::Tab(t) => Node::Tab(Tab { shown: b, ..t }),
            Node::Pane(p) => Node::Pane(Pane { shown: b, ..p }),
        }
    }

    /// The node with its expansion flag set to `b` (a pane stays expanded).
    pub open spec fn with_expanded(self, b: bool) -> Node {
        match self {
            Node::Session(s) => Node::Session(Session { is_expanded: b, ..s }),
            Node::Tab(t) => Node::Tab(Tab { is_expanded: b, ..t }),
            Node::Pane(p) => Node::Pane(p),
        }
    }

    /// The row that this node renders to.
    pub open spec fn row_spec(&self, keybind: Seq<char>, is_selected: bool) -> (Seq<char>, usize, bool) {
        match self {
            Node::Session(s) => (
                if s.is_current_session {
                    labelled(keybind, s.name@) + " (attached)"@
                } else {
                    labelled(keybind, s.name@)
                },
                0,
                is_selected,
            ),
            Node::Tab(t) => (
                if t.active {
                    labelled(keybind, t.name@) + " (active)"@
                } else {
                    labelled(keybind, t.name@)
                },
                1,
                is_selected,
            ),
            Node::Pane(p) => (labelled(keybind, p.title@), 2, is_selected),
        }
    }

    pub fn index(&self) -> (r: usize)
        ensures
            r == self.spec_index(),
    {
        match self {
            Node::Session(s) => s.index,
            Node::Tab(t) => t.index,
            Node::Pane(p) => p.index,
        }
    }

    pub fn parent(&self) -> (r: Option<usize>)
        ensures
            r == self.spec_parent(),
    {
        match self {
            Node::Session(_) => None,
            Node::Tab(t) => Some(t.session),
            Node::Pane(p) => Some(p.tab),
        }
    }

    pub fn is_shown(&self) -> (r: bool)
        ensures
            r == self.spec_shown(),
    {
        match self {
            Node::Session(_) => true,
            Node::Tab(t) => t.shown,
            Node::Pane(p) => p.shown,
        }
    }

    pub fn is_expanded(&self) -> (r: bool)
        ensures
            r == self.spec_expanded(),
    {
        match self {
            Node::Session(s) => s.is_expanded,
            Node::Tab(t) => t.is_expanded,
            Node::Pane(_) => true,
        }
    }

    pub fn show(&mut self)
        ensures
            *final(self) == old(self).with_shown(true),
    {
        match self {
            Node::Session(_) => {},
            Node::Tab(t) => t.shown = true,
            Node::Pane(p) => p.shown = true,
        }
    }

    pub fn conceal(&mut self)
        ensures
            *final(self) == old(self).with_shown(false),
    {
        match self {
            Node::Session(_) => {},
            Node::Tab(t) => t.shown = false,
            Node::Pane(p) => p.shown = false,
        }
    }

    /// Sets the expansion flag alone; the tree shows and hides the children.
    pub fn set_expanded(&mut self, b: bool)
        ensures
            *final(self) == old(self).with_expanded(b),
    {
        match self {
            Node::Session(s) => s.is_expanded = b,
            Node::Tab(t) => t.is_expanded = b,
            Node::Pane(_) => {},
        }
    }

    /// Only a session can be terminated.
    pub open spec fn kill_spec(&self) -> Result<ActionModel, TreeError> {
        match self {
            Node::Session(s) => Ok(ActionModel::KillSession(s.name@)),
            Node::Tab(_) => Err(TreeError::CannotKillTab),
            Node::Pane(_) => Err(TreeError::CannotKillPane),
        }
    }

    pub fn kill(&self) -> (r: Result<Action, TreeError>)
        ensures
            result_view(r) == self.kill_spec(),
    {
        match self {
            Node::Session(s) => Ok(Action::KillSession { name: s.name.clone() }),
            Node::Tab(_) => Err(TreeError::CannotKillTab),
            Node::Pane(_) => Err(TreeError::CannotKillPane),
        }
    }

    pub fn render(&self, keybind: String, is_selected: bool) -> (r: Row)
        ensures
            r@ == self.row_spec(keybind@, is_selected),
    {
        let mut text = String::from_str("(");
        text.append(keybind.as_str());
        text.append(") ");
        match self {
            Node::Session(s) => {
                text.append(s.name.as_str());
                if s.is_current_session {
                    text.append(" (attached)");
                }
                Row { text, indent: 0, selected: is_selected }
            },
            Node::Tab(t) => {
                text.append(t.name.as_str());
                if t.active {
                    text.append(" (active)");
                }
                Row { text, indent: 1, selected: is_selected }
            },
            Node::Pane(p) => {
                text.append(p.title.as_str());
                Row { text, indent: 2, selected: is_selected }
            },
        }
    }
}

/// What the host is asked to do after a focus or kill.
#[derive(Debug, PartialEq, Eq)]
pub enum Action {
    /// Switch to the named session.
    SwitchSession { name: String },
    /// Switch to the named session with a tab, and maybe a pane, in focus.
    SwitchSessionWithFocus { name: String, tab_position: usize, pane_id: Option<(u32, bool)> },
    /// Focus a terminal pane of the current session.
    FocusTerminalPane { id: u32 },
    /// Focus the named tab of the current session.
    FocusOrCreateTab { name: String },
    /// Terminate the named session.
    KillSession { name: String },
}

/// The content of an `Action`, with names as character sequences.
pub enum ActionModel {
    SwitchSession(Seq<char>),
    SwitchSessionWithFocus(Seq<char>, usize, Option<(u32, bool)>),
    FocusTerminalPane(u32),
    FocusOrCreateTab(Seq<char>),
    KillSession(Seq<char>),
}

impl View for Action {
    type V = ActionModel;

    open spec fn view(&self) -> ActionModel {
        match self {
            Action::SwitchSession { name } => ActionModel::SwitchSession(name@),
            Action::SwitchSessionWithFocus { name, tab_position, pane_id } => ActionModel::SwitchSessionWithFocus(
                name@,
                *tab_position,
                *pane_id,
            ),
            Action::FocusTerminalPane { id } => ActionModel::FocusTerminalPane(*id),
            Action::FocusOrCreateTab { name } => ActionModel::FocusOrCreateTab(name@),
            Action::KillSession { name } => ActionModel::KillSession(name@),
        }
    }
}

pub open spec fn result_view(r: Result<Action, TreeError>) -> Result<ActionModel, TreeError> {
    match r {
        Ok(a) => Ok(a@),
        Err(e) => Err(e),
    }
}

/// Why an operation of the tree did nothing.
#[derive(Debug, Clone, Copy, PartialEq, Eq, Structural)]
pub enum TreeError {
    /// The tree is empty or the cursor stands outside it.
    CursorOutOfRange,
    /// No node has the given handle.
    IndexOutOfRange,
    /// The quick-select table has no row at the given position.
    QuickSelectMiss,
    /// The node is not shown, so it cannot be expanded.
    NodeHidden,
    /// A tab or pane whose parent link does not lead to a node of the right kind.
    MissingParent,
    /// The session in focus is already the current one.
    CurrentSession,
    CannotKillTab,
    CannotKillPane,
}

} // verus!
