//! The window-level state that holds several workspaces, one of them active,
//! and an optional sidebar that switches between them.
//!
//! Every operation updates the state and returns the list of effects that the
//! host must carry out on the workspaces and the window, in order.
use vstd::prelude::*;

verus! {

/// Identity of a workspace (or another entity) inside the window.
pub type EntityId = u64;

/// An event that the sidebar emits towards the window.
#[derive(Clone, Copy, Debug, PartialEq, Eq, Structural)]
pub enum SidebarEvent {
    Open,
    Close,
}

/// Work that the host performs after a state change, in the order given.
#[derive(Clone, Copy, Debug, PartialEq, Eq, Structural)]
pub enum WorkspaceEffect {
    /// Tell a workspace whether the sidebar is shown next to it.
    SetSidebarOpen { workspace: EntityId, open: bool },
    /// Tell a workspace whether its session must be kept when the window closes.
    SetPreserveSession { workspace: EntityId, preserve: bool },
    /// Move keyboard focus into the sidebar.
    FocusSidebar,
    /// Move keyboard focus to the active pane of the active workspace.
    FocusActivePane,
    /// Focus the active workspace: a zoomed panel of an open dock if there is
    /// one, else its active pane.
    FocusActiveWorkspace,
    /// After the crossfade delay, call `finish_transition` with this id.
    ScheduleTransitionCleanup { transition_id: usize },
    /// Persist the window state: which workspace is active and whether the
    /// sidebar is open.
    Serialize { window_id: u64, active_workspace: EntityId, sidebar_open: bool },
    /// Re-render the window.
    Notify,
}

/// Open/zoom state of one dock of the active workspace, as read by the host.
#[derive(Clone, Copy, Debug, PartialEq, Eq, Structural)]
pub struct DockState {
    pub is_open: bool,
    /// `None` when the dock has no active panel, else whether that panel is zoomed.
    pub active_panel_zoomed: Option<bool>,
}

/// What the window draws.
#[derive(Debug)]
pub struct RenderPlan {
    /// The titlebar of the active workspace is taken to span the whole window.
    pub titlebar_from_active: bool,
    /// The window is split: that titlebar on top, and the sidebar and the
    /// workspace below it. Otherwise the workspace takes the whole window.
    pub split_layout: bool,
    /// For each listed workspace, whether it must skip drawing its own titlebar.
    pub skip_titlebar: Vec<(EntityId, bool)>,
    /// The sidebar is drawn, left of the workspace in the split layout.
    pub show_sidebar: bool,
    /// During a switch: the previous and the active workspace, crossfaded.
    pub crossfade: Option<(EntityId, EntityId)>,
    /// The workspace drawn in the main area.
    pub active_workspace: EntityId,
    /// The transition id that keys the crossfade animation.
    pub transition_id: usize,
    /// The window's left edge is tiled (the sidebar takes it).
    pub tiling_left: bool,
}

pub struct MultiWorkspace {
    window_id: u64,
    workspaces: Vec<EntityId>,
    active_workspace_index: usize,
    previous_workspace_index: Option<usize>,
    transition_id: usize,
    has_sidebar: bool,
    sidebar_open: bool,
}

/// The mathematical model of a `MultiWorkspace`.
pub struct MultiWorkspaceView {
    pub window_id: u64,
    pub workspaces: Seq<EntityId>,
    pub active_workspace_index: usize,
    pub previous_workspace_index: Option<usize>,
    pub transition_id: usize,
    pub has_sidebar: bool,
    pub sidebar_open: bool,
}

impl View for MultiWorkspace {
    type V = MultiWorkspaceView;

    closed spec fn view(&self) -> MultiWorkspaceView {
        MultiWorkspaceView {
            window_id: self.window_id,
            workspaces: self.workspaces@,
            active_workspace_index: self.active_workspace_index,
            previous_workspace_index: self.previous_workspace_index,
            transition_id: self.transition_id,
            has_sidebar: self.has_sidebar,
            sidebar_open: self.sidebar_open,
        }
    }
}

impl MultiWorkspaceView {
    /// At least one workspace, the active index points at one of them, and no
    /// workspace is held twice.
    pub open spec fn wf(self) -> bool {
        &&& self.workspaces.len() >= 1
        &&& self.active_workspace_index < self.workspaces.len()
        &&& self.workspaces.no_duplicates()
    }

    pub open spec fn active_workspace(self) -> EntityId {
        self.workspaces[self.active_workspace_index as int]
    }

    pub open spec fn serialize_effect(self) -> WorkspaceEffect {
        WorkspaceEffect::Serialize {
            window_id: self.window_id,
            active_workspace: self.active_workspace(),
            sidebar_open: self.sidebar_open,
        }
    }

    /// The effects of making `workspace` active, given the state `post` after it.
    pub open spec fn activate_effects(self, workspace: EntityId, post: MultiWorkspaceView) -> Seq<
        WorkspaceEffect,
    > {
        if self.workspaces.contains(workspace) {
            if self.active_workspace() == workspace {
                Seq::empty()
            } else {
                seq![post.serialize_effect(), WorkspaceEffect::Notify]
            }
        } else {
            (if self.sidebar_open {
                seq![WorkspaceEffect::SetSidebarOpen { workspace: workspace, open: true }]
            } else {
                Seq::empty()
            }) + preserve_session_effects(post.workspaces, true) + seq![
                WorkspaceEffect::Notify,
                post.serialize_effect(),
                WorkspaceEffect::Notify,
            ]
        }
    }

    /// The effects of toggling the sidebar, given the state `post` after it.
    pub open spec fn toggle_effects(self, post: MultiWorkspaceView) -> Seq<WorkspaceEffect> {
        if self.sidebar_open {
            sidebar_open_effects(self.workspaces, false) + seq![
                WorkspaceEffect::FocusActivePane,
                post.serialize_effect(),
                WorkspaceEffect::Notify,
            ]
        } else {
            sidebar_open_effects(self.workspaces, true) + seq![
                post.serialize_effect(),
                WorkspaceEffect::Notify,
            ] + (if self.has_sidebar {
                seq![WorkspaceEffect::FocusSidebar]
            } else {
                Seq::empty()
            })
        }
    }

    /// The state after removing the workspace at `index`.
    pub open spec fn removed(self, index: usize) -> MultiWorkspaceView {
        MultiWorkspaceView {
            workspaces: self.workspaces.remove(index as int),
            active_workspace_index: active_after_remove(
                self.active_workspace_index as int,
                index as int,
                self.workspaces.len() - 1,
            ) as usize,
            ..self
        }
    }

    /// The effects of a removal that left the state `self`.
    pub open spec fn remove_effects(self) -> Seq<WorkspaceEffect> {
        (if self.workspaces.len() == 1 {
            seq![
                WorkspaceEffect::SetPreserveSession {
                    workspace: self.workspaces[0],
                    preserve: false,
                },
            ]
        } else {
            Seq::empty()
        }) + seq![
            WorkspaceEffect::FocusActiveWorkspace,
            self.serialize_effect(),
            WorkspaceEffect::Notify,
        ]
    }

    /// The state after switching to `index` (when it is not already active).
    pub open spec fn switched_to(self, index: usize) -> MultiWorkspaceView {
        MultiWorkspaceView {
            previous_workspace_index: Some(self.active_workspace_index),
            active_workspace_index: index,
            transition_id: next_transition_id(self.transition_id),
            ..self
        }
    }

    /// The effects of switching to `index` (when it is not already active).
    pub open spec fn switch_effects(self, index: usize) -> Seq<WorkspaceEffect> {
        let post = self.switched_to(index);
        seq![
            WorkspaceEffect::ScheduleTransitionCleanup { transition_id: post.transition_id },
            post.serialize_effect(),
            WorkspaceEffect::FocusActiveWorkspace,
            WorkspaceEffect::Notify,
        ]
    }
}

/// The transition counter advances by one and wraps around at the top.
pub open spec fn next_transition_id(id: usize) -> usize {
    if id == usize::MAX {
        0
    } else {
        (id + 1) as usize
    }
}

/// One `SetSidebarOpen` effect per workspace, in order.
pub open spec fn sidebar_open_effects(ws: Seq<EntityId>, open: bool) -> Seq<WorkspaceEffect> {
    ws.map_values(|w: EntityId| WorkspaceEffect::SetSidebarOpen { workspace: w, open: open })
}

/// One `SetPreserveSession` effect per workspace, in order.
pub open spec fn preserve_session_effects(ws: Seq<EntityId>, preserve: bool) -> Seq<
    WorkspaceEffect,
> {
    ws.map_values(|w: EntityId| WorkspaceEffect::SetPreserveSession { workspace: w, preserve: preserve })
}

/// The workspace after the active one, wrapping around.
pub open spec fn next_index(active: int, len: int) -> int {
    (active + 1) % len
}

/// The workspace before the active one, wrapping around.
pub open spec fn previous_index(active: int, len: int) -> int {
    if active == 0 {
        len - 1
    } else {
        active - 1
    }
}

/// The active index after removing the workspace at `index`, leaving `new_len`.
pub open spec fn active_after_remove(active: int, index: int, new_len: int) -> int {
    if active >= new_len {
        new_len - 1
    } else if active > index {
        active - 1
    } else {
        active
    }
}

/// The order after moving the workspace at `from` to position `to`.
pub open spec fn moved(ws: Seq<EntityId>, from: int, to: int) -> Seq<EntityId> {
    ws.remove(from).insert(to, ws[from])
}

/// The active index after moving the workspace at `from` to position `to`.
pub open spec fn active_after_move(active: int, from: int, to: int) -> int {
    if active == from {
        to
    } else if from < active && to >= active {
        active - 1
    } else if from > active && to <= active {
        active + 1
    } else {
        active
    }
}

/// The first dock that is open and whose active panel is zoomed.
pub open spec fn is_zoomed_open_dock(d: DockState) -> bool {
    d.is_open && d.active_panel_zoomed == Some(true)
}

/// Which dock the active workspace focuses: the first open dock whose active
/// panel is zoomed, or `None` for the center pane.
pub fn focus_target(docks: &Vec<DockState>) -> (res: Option<usize>)
    ensures
        match res {
            Some(i) => i < docks.len() && is_zoomed_open_dock(docks@[i as int]) && forall|j: int|
                0 <= j < i ==> !is_zoomed_open_dock(#[trigger] docks@[j]),
            None => forall|j: int| 0 <= j < docks.len() ==> !is_zoomed_open_dock(#[trigger] docks@[j]),
        },
{
    let mut i: usize = 0;
    while i < docks.len()
        invariant
            i <= docks.len(),
            forall|j: int| 0 <= j < i ==> !is_zoomed_open_dock(#[trigger] docks@[j]),
        decreases docks.len() - i,
    {
        let dock = docks[i];
        if dock.is_open {
            match dock.active_panel_zoomed {
                Some(zoomed) => {
                    if zoomed {
                        return Some(i);
                    }
                },
                None => {},
            }
        }
        i = i + 1;
    }
    None
}

/// Index of `w` in `ws`, if it is there.
fn position_of(ws: &Vec<EntityId>, w: EntityId) -> (res: Option<usize>)
    ensures
        match res {
            Some(i) => i < ws.len() && ws@[i as int] == w && forall|j: int|
                0 <= j < i ==> ws@[j] != w,
            None => !ws@.contains(w),
        },
{
    let mut i: usize = 0;
    while i < ws.len()
        invariant
            i <= ws.len(),
            forall|j: int| 0 <= j < i ==> ws@[j] != w,
        decreases ws.len() - i,
    {
        if ws[i] == w {
            return Some(i);
        }
        i = i + 1;
    }
    None
}

/// A copy of a list of ids.
fn copy_ids(v: &Vec<EntityId>) -> (res: Vec<EntityId>)
    ensures
        res@ == v@,
{
    let mut res: Vec<EntityId> = Vec::new();
    let mut i: usize = 0;
    while i < v.len()
        invariant
            i <= v.len(),
            res@ == v@.take(i as int),
        decreases v.len() - i,
    {
        res.push(v[i]);
        proof {
            assert(v@.take(i + 1) == v@.take(i as int).push(v@[i as int]));
        }
        i = i + 1;
    }
    proof {
        assert(v@.take(v.len() as int) == v@);
    }
    res
}

/// Appends one `SetSidebarOpen` effect per workspace.
fn push_sidebar_open_effects(ws: &Vec<EntityId>, open: bool, effects: &mut Vec<WorkspaceEffect>)
    ensures
        final(effects)@ == old(effects)@ + sidebar_open_effects(ws@, open),
{
    let ghost start = effects@;
    let mut i: usize = 0;
    while i < ws.len()
        invariant
            i <= ws.len(),
            effects@ == start + sidebar_open_effects(ws@.take(i as int), open),
        decreases ws.len() - i,
    {
        effects.push(WorkspaceEffect::SetSidebarOpen { workspace: ws[i], open });
        proof {
            assert(ws@.take(i + 1) == ws@.take(i as int).push(ws@[i as int]));
        }
        i = i + 1;
    }
    proof {
        assert(ws@.take(ws.len() as int) == ws@);
    }
}

/// Appends one `SetPreserveSession` effect per workspace.
fn push_preserve_session_effects(
    ws: &Vec<EntityId>,
    preserve: bool,
    effects: &mut Vec<WorkspaceEffect>,
)
    ensures
        final(effects)@ == old(effects)@ + preserve_session_effects(ws@, preserve),
{
    let ghost start = effects@;
    let mut i: usize = 0;
    while i < ws.len()
        invariant
            i <= ws.len(),
            effects@ == start + preserve_session_effects(ws@.take(i as int), preserve),
        decreases ws.len() - i,
    {
        effects.push(WorkspaceEffect::SetPreserveSession { workspace: ws[i], preserve });
        proof {
            assert(ws@.take(i + 1) == ws@.take(i as int).push(ws@[i as int]));
        }
        i = i + 1;
    }
    proof {
        assert(ws@.take(ws.len() as int) == ws@);
    }
}

impl MultiWorkspace {
    /// Every value keeps the model well formed: see `MultiWorkspaceView::wf`.
    #[verifier::type_invariant]
    spec fn inv(&self) -> bool {
        self@.wf()
    }

    /// A window that holds one workspace, active, with no sidebar.
    pub fn new(workspace: EntityId, window_id: u64) -> (res: Self)
        ensures
            res@.wf(),
            res@ == (MultiWorkspaceView {
                window_id: window_id,
                workspaces: seq![workspace],
                active_workspace_index: 0,
                previous_workspace_index: None,
                transition_id: 0,
                has_sidebar: false,
                sidebar_open: false,
            }),
    {
        let mut workspaces: Vec<EntityId> = Vec::new();
        workspaces.push(workspace);
        let res = MultiWorkspace {
            window_id,
            workspaces,
            active_workspace_index: 0,
            previous_workspace_index: None,
            transition_id: 0,
            has_sidebar: false,
            sidebar_open: false,
        };
        proof {
            assert(res@.workspaces == seq![workspace]);
        }
        res
    }

    /// Same as `new`: a window that holds `workspace` alone.
    pub fn test_new(workspace: EntityId, window_id: u64) -> (res: Self)
        ensures
            res@.wf(),
            res@ == (MultiWorkspaceView {
                window_id: window_id,
                workspaces: seq![workspace],
                active_workspace_index: 0,
                previous_workspace_index: None,
                transition_id: 0,
                has_sidebar: false,
                sidebar_open: false,
            }),
    {
        Self::new(workspace, window_id)
    }

    /// Records that a sidebar is attached to the window.
    pub fn register_sidebar(&mut self)
        ensures
            final(self)@.wf(),
            final(self)@ == (MultiWorkspaceView { has_sidebar: true, ..old(self)@ }),
    {
        proof {
            use_type_invariant(&*self);
        }
        self.has_sidebar = true;
    }

    /// Whether a sidebar is attached.
    pub fn has_sidebar(&self) -> (res: bool)
        ensures
            res == self@.has_sidebar,
    {
        proof {
            use_type_invariant(&*self);
        }
        self.has_sidebar
    }

    /// The sidebar is shown: it is open and attached.
    pub fn sidebar_open(&self) -> (res: bool)
        ensures
            res == (self@.sidebar_open && self@.has_sidebar),
    {
        proof {
            use_type_invariant(&*self);
        }
        self.sidebar_open && self.has_sidebar
    }

    /// Whether the sidebar is open (attached or not).
    pub fn is_sidebar_open(&self) -> (res: bool)
        ensures
            res == self@.sidebar_open,
    {
        proof {
            use_type_invariant(&*self);
        }
        self.sidebar_open
    }

    /// Whether the attached sidebar, which reports `sidebar_reports`, has
    /// notifications; `false` when none is attached.
    pub fn sidebar_has_notifications(&self, sidebar_reports: bool) -> (res: bool)
        ensures
            res == (self@.has_sidebar && sidebar_reports),
    {
        proof {
            use_type_invariant(&*self);
        }
        self.has_sidebar && sidebar_reports
    }

    fn serialize(&self) -> (res: WorkspaceEffect)
        ensures
            res == self@.serialize_effect(),
    {
        proof {
            use_type_invariant(&*self);
        }
        WorkspaceEffect::Serialize {
            window_id: self.window_id,
            active_workspace: self.workspaces[self.active_workspace_index],
            sidebar_open: self.sidebar_open,
        }
    }

    /// Opens the sidebar and tells every workspace.
    pub fn open_sidebar(&mut self) -> (effects: Vec<WorkspaceEffect>)
        ensures
            final(self)@.wf(),
            final(self)@ == (MultiWorkspaceView { sidebar_open: true, ..old(self)@ }),
            effects@ == sidebar_open_effects(old(self)@.workspaces, true) + seq![
                final(self)@.serialize_effect(),
                WorkspaceEffect::Notify,
            ],
    {
        proof {
            use_type_invariant(&*self);
        }
        self.sidebar_open = true;
        let mut effects: Vec<WorkspaceEffect> = Vec::new();
        push_sidebar_open_effects(&self.workspaces, true, &mut effects);
        let s = self.serialize();
        effects.push(s);
        effects.push(WorkspaceEffect::Notify);
        effects
    }

    /// Closes the sidebar, tells every workspace, and gives focus back to the
    /// active pane.
    pub fn close_sidebar(&mut self) -> (effects: Vec<WorkspaceEffect>)
        ensures
            final(self)@.wf(),
            final(self)@ == (MultiWorkspaceView { sidebar_open: false, ..old(self)@ }),
            effects@ == sidebar_open_effects(old(self)@.workspaces, false) + seq![
                WorkspaceEffect::FocusActivePane,
                final(self)@.serialize_effect(),
                WorkspaceEffect::Notify,
            ],
    {
        proof {
            use_type_invariant(&*self);
        }
        self.sidebar_open = false;
        let mut effects: Vec<WorkspaceEffect> = Vec::new();
        push_sidebar_open_effects(&self.workspaces, false, &mut effects);
        effects.push(WorkspaceEffect::FocusActivePane);
        let s = self.serialize();
        effects.push(s);
        effects.push(WorkspaceEffect::Notify);
        effects
    }

    /// Closes an open sidebar; opens a closed one and focuses it.
    pub fn toggle_sidebar(&mut self) -> (effects: Vec<WorkspaceEffect>)
        ensures
            final(self)@.wf(),
            final(self)@ == (MultiWorkspaceView { sidebar_open: !old(self)@.sidebar_open, ..old(self)@ }),
            effects@ == old(self)@.toggle_effects(final(self)@),
    {
        proof {
            use_type_invariant(&*self);
        }
        if self.sidebar_open {
            self.close_sidebar()
        } else {
            let mut effects = self.open_sidebar();
            if self.has_sidebar {
                effects.push(WorkspaceEffect::FocusSidebar);
            }
            effects
        }
    }

    /// Moves focus into or out of the sidebar, opening it first when closed.
    /// `sidebar_is_focused` tells whether focus is inside the sidebar now.
    pub fn focus_sidebar(&mut self, sidebar_is_focused: bool) -> (effects: Vec<WorkspaceEffect>)
        ensures
            final(self)@.wf(),
            final(self)@ == (MultiWorkspaceView { sidebar_open: true, ..old(self)@ }),
            old(self)@.sidebar_open ==> effects@ == (if !old(self)@.has_sidebar {
                Seq::empty()
            } else if sidebar_is_focused {
                seq![WorkspaceEffect::FocusActivePane]
            } else {
                seq![WorkspaceEffect::FocusSidebar]
            }),
            !old(self)@.sidebar_open ==> effects@ == sidebar_open_effects(
                old(self)@.workspaces,
                true,
            ) + seq![final(self)@.serialize_effect(), WorkspaceEffect::Notify] + (
            if old(self)@.has_sidebar {
                seq![WorkspaceEffect::FocusSidebar]
            } else {
                Seq::empty()
            }),
    {
        proof {
            use_type_invariant(&*self);
        }
        if self.sidebar_open {
            let mut effects: Vec<WorkspaceEffect> = Vec::new();
            if self.has_sidebar && sidebar_is_focused {
                effects.push(WorkspaceEffect::FocusActivePane);
            } else if self.has_sidebar {
                effects.push(WorkspaceEffect::FocusSidebar);
            }
            proof {
                if !self.has_sidebar {
                    assert(effects@ =~= Seq::empty());
                }
            }
            effects
        } else {
            let mut effects = self.open_sidebar();
            if self.has_sidebar {
                effects.push(WorkspaceEffect::FocusSidebar);
            }
            effects
        }
    }

    /// Reacts to an event of the sidebar: `Open` toggles it, `Close` closes it.
    pub fn handle_sidebar_event(&mut self, event: SidebarEvent) -> (effects: Vec<WorkspaceEffect>)
        ensures
            final(self)@.wf(),
            event == SidebarEvent::Open ==> final(self)@ == (MultiWorkspaceView {
                sidebar_open: !old(self)@.sidebar_open,
                ..old(self)@
            }),
            event == SidebarEvent::Open ==> effects@ == old(self)@.toggle_effects(final(self)@),
            event == SidebarEvent::Close ==> final(self)@ == (MultiWorkspaceView {
                sidebar_open: false,
                ..old(self)@
            }),
            event == SidebarEvent::Close ==> effects@ == sidebar_open_effects(
                old(self)@.workspaces,
                false,
            ) + seq![
                WorkspaceEffect::FocusActivePane,
                final(self)@.serialize_effect(),
                WorkspaceEffect::Notify,
            ],
    {
        proof {
            use_type_invariant(&*self);
        }
        match event {
            SidebarEvent::Open => self.toggle_sidebar(),
            SidebarEvent::Close => self.close_sidebar(),
        }
    }

    /// The active workspace.
    pub fn workspace(&self) -> (res: EntityId)
        ensures
            self@.wf(),
            res == self@.active_workspace(),
    {
        proof {
            use_type_invariant(&*self);
        }
        self.workspaces[self.active_workspace_index]
    }

    /// All workspaces, in display order.
    pub fn workspaces(&self) -> (res: &[EntityId])
        ensures
            self@.wf(),
            res@ == self@.workspaces,
    {
        proof {
            use_type_invariant(&*self);
        }
        self.workspaces.as_slice()
    }

    /// The workspace being crossfaded out, while a switch is in progress.
    pub fn previous_workspace_index(&self) -> (res: Option<usize>)
        ensures
            res == self@.previous_workspace_index,
    {
        proof {
            use_type_invariant(&*self);
        }
        self.previous_workspace_index
    }

    pub fn active_workspace_index(&self) -> (res: usize)
        ensures
            self@.wf(),
            res == self@.active_workspace_index,
    {
        proof {
            use_type_invariant(&*self);
        }
        self.active_workspace_index
    }

    /// Adds a workspace without changing which one is active, and returns its
    /// index: the index it already had, or the end of the list.
    pub fn add_workspace(&mut self, workspace: EntityId) -> (res: (usize, Vec<WorkspaceEffect>))
        ensures
            final(self)@.wf(),
            res.0 < final(self)@.workspaces.len(),
            final(self)@.workspaces[res.0 as int] == workspace,
            old(self)@.workspaces.contains(workspace) ==> {
                &&& final(self)@ == old(self)@
                &&& old(self)@.workspaces[res.0 as int] == workspace
                &&& res.1@ == Seq::<WorkspaceEffect>::empty()
            },
            !old(self)@.workspaces.contains(workspace) ==> {
                &&& final(self)@ == (MultiWorkspaceView {
                    workspaces: old(self)@.workspaces.push(workspace),
                    ..old(self)@
                })
                &&& res.0 == old(self)@.workspaces.len()
                &&& final(self)@.workspaces == with_workspace(old(self)@.workspaces, workspace)
                &&& res.1@ == (if old(self)@.sidebar_open {
                    seq![WorkspaceEffect::SetSidebarOpen { workspace: workspace, open: true }]
                } else {
                    Seq::empty()
                }) + preserve_session_effects(final(self)@.workspaces, true) + seq![
                    WorkspaceEffect::Notify,
                ]
            },
    {
        proof {
            use_type_invariant(&*self);
        }
        match position_of(&self.workspaces, workspace) {
            Some(index) => (index, Vec::new()),
            None => {
                let mut effects: Vec<WorkspaceEffect> = Vec::new();
                if self.sidebar_open {
                    effects.push(WorkspaceEffect::SetSidebarOpen { workspace, open: true });
                }
                let mut ws = copy_ids(&self.workspaces);
                ws.push(workspace);
                proof {
                    let v = ws@;
                    assert(v == old(self)@.workspaces.push(workspace));
                    assert forall|i: int, j: int|
                        0 <= i < v.len() && 0 <= j < v.len() && i != j implies v[i] != v[j] by {
                        if i < v.len() - 1 && j < v.len() - 1 {
                            assert(old(self)@.workspaces[i] == v[i]);
                            assert(old(self)@.workspaces[j] == v[j]);
                        } else if i == v.len() - 1 {
                            assert(old(self)@.workspaces[j] == v[j]);
                        } else {
                            assert(old(self)@.workspaces[i] == v[i]);
                        }
                    }
                }
                self.workspaces = ws;
                if self.workspaces.len() >= 2 {
                    push_preserve_session_effects(&self.workspaces, true, &mut effects);
                }
                effects.push(WorkspaceEffect::Notify);
                (self.workspaces.len() - 1, effects)
            },
        }
    }

    /// Adds `workspace` (if it is not there yet) and makes it active.
    pub fn activate(&mut self, workspace: EntityId) -> (effects: Vec<WorkspaceEffect>)
        ensures
            final(self)@.wf(),
            final(self)@.active_workspace() == workspace,
            final(self)@.workspaces == with_workspace(old(self)@.workspaces, workspace),
            final(self)@ == (MultiWorkspaceView {
                workspaces: final(self)@.workspaces,
                active_workspace_index: final(self)@.active_workspace_index,
                ..old(self)@
            }),
            old(self)@.workspaces.contains(workspace) && old(self)@.active_workspace() == workspace
                ==> final(self)@ == old(self)@,
            effects@ == old(self)@.activate_effects(workspace, final(self)@),
            effects@.contains(final(self)@.serialize_effect())
                <==> final(self)@.active_workspace_index != old(self)@.active_workspace_index,
            !old(self)@.workspaces.contains(workspace) && old(self)@.sidebar_open ==> effects@.len()
                > 0 && effects@[0] == (WorkspaceEffect::SetSidebarOpen { workspace: workspace, open: true }),
    {
        proof {
            use_type_invariant(&*self);
        }
        let (index, mut effects) = self.add_workspace(workspace);
        if self.active_workspace_index != index {
            self.active_workspace_index = index;
            let s = self.serialize();
            effects.push(s);
            effects.push(WorkspaceEffect::Notify);
        }
        proof {
            let pre = old(self)@;
            let post = self@;
            if !pre.workspaces.contains(workspace) {
                assert(pre.active_workspace_index < pre.workspaces.len());
                assert(post.workspaces[pre.workspaces.len() as int] == workspace);
                assert(effects@[effects@.len() - 2] == post.serialize_effect());
            } else if pre.active_workspace() != workspace {
                assert(effects@[0] == post.serialize_effect());
            }
        }
        effects
    }

    /// Adds a freshly built workspace and makes it active; the host builds it.
    pub fn test_add_workspace(&mut self, workspace: EntityId) -> (effects: Vec<WorkspaceEffect>)
        ensures
            final(self)@.wf(),
            final(self)@.active_workspace() == workspace,
            final(self)@.workspaces == with_workspace(old(self)@.workspaces, workspace),
            final(self)@ == (MultiWorkspaceView {
                workspaces: final(self)@.workspaces,
                active_workspace_index: final(self)@.active_workspace_index,
                ..old(self)@
            }),
            old(self)@.workspaces.contains(workspace) && old(self)@.active_workspace() == workspace
                ==> final(self)@ == old(self)@,
            effects@ == old(self)@.activate_effects(workspace, final(self)@),
            effects@.contains(final(self)@.serialize_effect())
                <==> final(self)@.active_workspace_index != old(self)@.active_workspace_index,
            !old(self)@.workspaces.contains(workspace) && old(self)@.sidebar_open ==> effects@.len()
                > 0 && effects@[0] == (WorkspaceEffect::SetSidebarOpen { workspace: workspace, open: true }),
    {
        proof {
            use_type_invariant(&*self);
        }
        self.activate(workspace)
    }

    /// Activates a new, empty workspace that the host has built, and focuses it.
    pub fn create_workspace(&mut self, new_workspace: EntityId) -> (effects: Vec<WorkspaceEffect>)
        ensures
            final(self)@.wf(),
            final(self)@.active_workspace() == new_workspace,
            final(self)@.workspaces == with_workspace(old(self)@.workspaces, new_workspace),
            !old(self)@.workspaces.contains(new_workspace)
                ==> final(self)@.active_workspace_index == old(self)@.workspaces.len(),
            final(self)@ == (MultiWorkspaceView {
                workspaces: final(self)@.workspaces,
                active_workspace_index: final(self)@.active_workspace_index,
                ..old(self)@
            }),
            effects@ == old(self)@.activate_effects(new_workspace, final(self)@).push(
                WorkspaceEffect::FocusActiveWorkspace,
            ),
            !old(self)@.workspaces.contains(new_workspace) && old(self)@.sidebar_open ==> effects@.len()
                > 0 && effects@[0] == (WorkspaceEffect::SetSidebarOpen { workspace: new_workspace, open: true }),
    {
        proof {
            use_type_invariant(&*self);
        }
        let mut effects = self.activate(new_workspace);
        effects.push(WorkspaceEffect::FocusActiveWorkspace);
        proof {
            use_type_invariant(&*self);
            let ws = final(self)@.workspaces;
            if !old(self)@.workspaces.contains(new_workspace) {
                assert(ws[ws.len() - 1] == new_workspace);
            }
        }
        effects
    }

    /// Makes the workspace at `index` active and starts the crossfade from the
    /// one that was active.
    pub fn activate_index(&mut self, index: usize) -> (effects: Vec<WorkspaceEffect>)
        requires
            index < old(self)@.workspaces.len(),
        ensures
            final(self)@.wf(),
            index == old(self)@.active_workspace_index ==> final(self)@ == old(self)@
                && effects@ == Seq::<WorkspaceEffect>::empty(),
            index != old(self)@.active_workspace_index ==> final(self)@ == old(self)@.switched_to(
                index,
            ) && effects@ == old(self)@.switch_effects(index),
    {
        proof {
            use_type_invariant(&*self);
        }
        if index == self.active_workspace_index {
            return Vec::new();
        }
        self.previous_workspace_index = Some(self.active_workspace_index);
        self.active_workspace_index = index;
        self.transition_id = self.transition_id.wrapping_add(1);
        let mut effects: Vec<WorkspaceEffect> = Vec::new();
        effects.push(WorkspaceEffect::ScheduleTransitionCleanup { transition_id: self.transition_id });
        let s = self.serialize();
        effects.push(s);
        effects.push(WorkspaceEffect::FocusActiveWorkspace);
        effects.push(WorkspaceEffect::Notify);
        effects
    }

    /// Ends the crossfade started with `transition_id`, unless a later switch
    /// has started another.
    pub fn finish_transition(&mut self, transition_id: usize) -> (effects: Vec<WorkspaceEffect>)
        ensures
            final(self)@.wf(),
            transition_id == old(self)@.transition_id ==> final(self)@ == (MultiWorkspaceView {
                previous_workspace_index: None,
                ..old(self)@
            }) && effects@ == seq![WorkspaceEffect::Notify],
            transition_id != old(self)@.transition_id ==> final(self)@ == old(self)@
                && effects@ == Seq::<WorkspaceEffect>::empty(),
    {
        proof {
            use_type_invariant(&*self);
        }
        let mut effects: Vec<WorkspaceEffect> = Vec::new();
        if self.transition_id == transition_id {
            self.previous_workspace_index = None;
            effects.push(WorkspaceEffect::Notify);
        }
        effects
    }

    /// Switches to the next workspace, wrapping around; nothing with one workspace.
    pub fn activate_next_workspace(&mut self) -> (effects: Vec<WorkspaceEffect>)
        ensures
            final(self)@.wf(),
            old(self)@.workspaces.len() <= 1 ==> final(self)@ == old(self)@
                && effects@ == Seq::<WorkspaceEffect>::empty(),
            old(self)@.workspaces.len() > 1 ==> {
                let next = next_index(
                    old(self)@.active_workspace_index as int,
                    old(self)@.workspaces.len() as int,
                ) as usize;
                &&& final(self)@ == old(self)@.switched_to(next)
                &&& effects@ == old(self)@.switch_effects(next)
            },
    {
        proof {
            use_type_invariant(&*self);
        }
        if self.workspaces.len() > 1 {
            let next_index = (self.active_workspace_index + 1) % self.workspaces.len();
            proof {
                let a = old(self)@.active_workspace_index as int;
                let n = old(self)@.workspaces.len() as int;
                assert(next_index != a) by {
                    if a + 1 < n {
                        assert((a + 1) % n == a + 1) by (nonlinear_arith)
                            requires 0 <= a + 1 < n;
                    } else {
                        assert(a + 1 == n);
                        assert(n % n == 0) by (nonlinear_arith)
                            requires n > 1;
                    }
                }
            }
            self.activate_index(next_index)
        } else {
            Vec::new()
        }
    }

    /// Switches to the previous workspace, wrapping around; nothing with one
    /// workspace.
    pub fn activate_previous_workspace(&mut self) -> (effects: Vec<WorkspaceEffect>)
        ensures
            final(self)@.wf(),
            old(self)@.workspaces.len() <= 1 ==> final(self)@ == old(self)@
                && effects@ == Seq::<WorkspaceEffect>::empty(),
            old(self)@.workspaces.len() > 1 ==> {
                let prev = previous_index(
                    old(self)@.active_workspace_index as int,
                    old(self)@.workspaces.len() as int,
                ) as usize;
                &&& final(self)@ == old(self)@.switched_to(prev)
                &&& effects@ == old(self)@.switch_effects(prev)
            },
    {
        proof {
            use_type_invariant(&*self);
        }
        if self.workspaces.len() > 1 {
            let prev_index = if self.active_workspace_index == 0 {
                self.workspaces.len() - 1
            } else {
                self.active_workspace_index - 1
            };
            self.activate_index(prev_index)
        } else {
            Vec::new()
        }
    }

    /// Removes the active workspace (never the last one).
    pub fn remove_active_workspace(&mut self) -> (effects: Vec<WorkspaceEffect>)
        ensures
            final(self)@.wf(),
            old(self)@.workspaces.len() <= 1 ==> final(self)@ == old(self)@
                && effects@ == Seq::<WorkspaceEffect>::empty(),
            old(self)@.workspaces.len() > 1 ==> final(self)@ == old(self)@.removed(
                old(self)@.active_workspace_index,
            ) && effects@ == final(self)@.remove_effects(),
            old(self)@.workspaces.len() > 1 ==> !final(self)@.workspaces.contains(
                old(self)@.active_workspace(),
            ),
    {
        proof {
            use_type_invariant(&*self);
        }
        let index = self.active_workspace_index;
        self.remove_workspace(index)
    }

    /// Removes the workspace at `index`. Nothing happens when it is the only
    /// workspace or when `index` is out of range.
    pub fn remove_workspace(&mut self, index: usize) -> (effects: Vec<WorkspaceEffect>)
        ensures
            final(self)@.wf(),
            old(self)@.workspaces.len() <= 1 || index >= old(self)@.workspaces.len() ==> final(self)@
                == old(self)@ && effects@ == Seq::<WorkspaceEffect>::empty(),
            old(self)@.workspaces.len() > 1 && index < old(self)@.workspaces.len() ==> {
                &&& final(self)@ == old(self)@.removed(index)
                &&& effects@ == final(self)@.remove_effects()
                &&& !final(self)@.workspaces.contains(old(self)@.workspaces[index as int])
                &&& index != old(self)@.active_workspace_index ==> final(self)@.active_workspace()
                    == old(self)@.active_workspace()
            },
    {
        proof {
            use_type_invariant(&*self);
        }
        if self.workspaces.len() <= 1 || index >= self.workspaces.len() {
            return Vec::new();
        }
        let ghost old_ws = self.workspaces@;
        let new_len = self.workspaces.len() - 1;
        let new_active = if self.active_workspace_index >= new_len {
            new_len - 1
        } else if self.active_workspace_index > index {
            self.active_workspace_index - 1
        } else {
            self.active_workspace_index
        };
        self.active_workspace_index = new_active;
        let mut ws = copy_ids(&self.workspaces);
        ws.remove(index);
        proof {
            let v = ws@;
            assert(v == old_ws.remove(index as int));
            assert forall|i: int, j: int|
                0 <= i < v.len() && 0 <= j < v.len() && i != j implies v[i] != v[j] by {
                let oi = if i < index { i } else { i + 1 };
                let oj = if j < index { j } else { j + 1 };
                assert(v[i] == old_ws[oi]);
                assert(v[j] == old_ws[oj]);
            }
            assert forall|i: int| 0 <= i < v.len() implies v[i] != old_ws[index as int] by {
                let oi = if i < index { i } else { i + 1 };
                assert(v[i] == old_ws[oi]);
            }
            let a = old(self)@.active_workspace_index as int;
            if a != index {
                let na = new_active as int;
                if a < index {
                    assert(v[na] == old_ws[a]);
                } else {
                    assert(v[na] == old_ws[na + 1]);
                }
            }
        }
        self.workspaces = ws;
        let mut effects: Vec<WorkspaceEffect> = Vec::new();
        if self.workspaces.len() == 1 {
            effects.push(
                WorkspaceEffect::SetPreserveSession { workspace: self.workspaces[0], preserve: false },
            );
        }
        effects.push(WorkspaceEffect::FocusActiveWorkspace);
        let s = self.serialize();
        effects.push(s);
        effects.push(WorkspaceEffect::Notify);
        effects
    }

    /// Moves the workspace at `from` to position `to`; the active workspace
    /// stays active. Nothing happens when either index is out of range or
    /// they are equal.
    pub fn move_workspace(&mut self, from: usize, to: usize) -> (effects: Vec<WorkspaceEffect>)
        ensures
            final(self)@.wf(),
            from >= old(self)@.workspaces.len() || to >= old(self)@.workspaces.len() || from == to
                ==> final(self)@ == old(self)@ && effects@ == Seq::<WorkspaceEffect>::empty(),
            from < old(self)@.workspaces.len() && to < old(self)@.workspaces.len() && from != to
                ==> {
                &&& final(self)@ == (MultiWorkspaceView {
                    workspaces: moved(old(self)@.workspaces, from as int, to as int),
                    active_workspace_index: active_after_move(
                        old(self)@.active_workspace_index as int,
                        from as int,
                        to as int,
                    ) as usize,
                    ..old(self)@
                })
                &&& effects@ == seq![final(self)@.serialize_effect(), WorkspaceEffect::Notify]
            },
            final(self)@.active_workspace() == old(self)@.active_workspace(),
            final(self)@.workspaces.to_multiset() == old(self)@.workspaces.to_multiset(),
    {
        proof {
            use_type_invariant(&*self);
        }
        if from >= self.workspaces.len() || to >= self.workspaces.len() || from == to {
            return Vec::new();
        }
        let ghost old_ws = self.workspaces@;
        let mut ws = copy_ids(&self.workspaces);
        let workspace = ws.remove(from);
        ws.insert(to, workspace);
        proof {
            lemma_moved_properties(old_ws, from as int, to as int);
            lemma_move_keeps_active(
                old_ws,
                old(self)@.active_workspace_index as int,
                from as int,
                to as int,
            );
            assert(ws@ == moved(old_ws, from as int, to as int));
        }
        self.workspaces = ws;
        if self.active_workspace_index == from {
            self.active_workspace_index = to;
        } else if from < self.active_workspace_index && to >= self.active_workspace_index {
            self.active_workspace_index = self.active_workspace_index - 1;
        } else if from > self.active_workspace_index && to <= self.active_workspace_index {
            self.active_workspace_index = self.active_workspace_index + 1;
        }
        let mut effects: Vec<WorkspaceEffect> = Vec::new();
        let s = self.serialize();
        effects.push(s);
        effects.push(WorkspaceEffect::Notify);
        effects
    }

    /// Decides, when a project is opened from the active workspace, which
    /// workspace the new one replaces: the active one when it has no
    /// worktrees and no unsaved items, else none.
    pub fn open_project(&self, old_has_worktrees: bool, old_has_dirty_items: bool) -> (res: Option<
        EntityId,
    >)
        ensures
            res == (if !old_has_worktrees && !old_has_dirty_items {
                Some(self@.active_workspace())
            } else {
                None
            }),
    {
        proof {
            use_type_invariant(&*self);
        }
        if !old_has_worktrees && !old_has_dirty_items {
            Some(self.workspace())
        } else {
            None
        }
    }

    /// After a project opened in a new workspace: removes the workspace it
    /// replaces, if that one is still there and is not the only one.
    pub fn remove_replaced_workspace(&mut self, replaced: EntityId) -> (effects: Vec<
        WorkspaceEffect,
    >)
        ensures
            final(self)@.wf(),
            !old(self)@.workspaces.contains(replaced) || old(self)@.workspaces.len() <= 1 ==> final(self)@ == old(self)@ && effects@ == Seq::<WorkspaceEffect>::empty(),
            old(self)@.workspaces.contains(replaced) && old(self)@.workspaces.len() > 1 ==> {
                &&& final(self)@ == old(self)@.removed(old(self)@.workspaces.index_of(replaced) as usize)
                &&& effects@ == final(self)@.remove_effects()
                &&& !final(self)@.workspaces.contains(replaced)
            },
    {
        proof {
            use_type_invariant(&*self);
        }
        match position_of(&self.workspaces, replaced) {
            Some(index) => {
                if self.workspaces.len() > 1 {
                    proof {
                        let ws = old(self)@.workspaces;
                        assert(ws.index_of(replaced) == index as int) by {
                            let k = ws.index_of(replaced);
                            assert(ws.contains(replaced));
                            assert(ws[k] == replaced);
                            assert(ws[index as int] == replaced);
                        }
                    }
                    self.remove_workspace(index)
                } else {
                    Vec::new()
                }
            },
            None => Vec::new(),
        }
    }

    /// What the window draws now, given whether the active workspace has a
    /// titlebar item to lend it.
    pub fn render_plan(&self, active_has_titlebar: bool) -> (plan: RenderPlan)
        requires
            self@.previous_workspace_index matches Some(p) ==> p < self@.workspaces.len(),
        ensures
            plan.titlebar_from_active == self@.sidebar_open,
            plan.skip_titlebar@ == (if self@.sidebar_open {
                seq![(self@.active_workspace(), true)]
            } else {
                self@.workspaces.map_values(|w: EntityId| (w, false))
            }),
            plan.split_layout == (self@.sidebar_open && active_has_titlebar),
            plan.show_sidebar == (self@.sidebar_open && active_has_titlebar && self@.has_sidebar),
            plan.crossfade == (match self@.previous_workspace_index {
                Some(p) => Some((self@.workspaces[p as int], self@.active_workspace())),
                None => None,
            }),
            plan.active_workspace == self@.active_workspace(),
            plan.transition_id == self@.transition_id,
            plan.tiling_left == self@.sidebar_open,
    {
        proof {
            use_type_invariant(&*self);
        }
        let active = self.workspace();
        let mut skip_titlebar: Vec<(EntityId, bool)> = Vec::new();
        if self.sidebar_open {
            skip_titlebar.push((active, true));
            proof {
                assert(skip_titlebar@ =~= seq![(active, true)]);
            }
        } else {
            let mut i: usize = 0;
            while i < self.workspaces.len()
                invariant
                    i <= self.workspaces.len(),
                    skip_titlebar@ == self.workspaces@.take(i as int).map_values(
                        |w: EntityId| (w, false),
                    ),
                decreases self.workspaces.len() - i,
            {
                skip_titlebar.push((self.workspaces[i], false));
                proof {
                    assert(self.workspaces@.take(i + 1) == self.workspaces@.take(i as int).push(
                        self.workspaces@[i as int],
                    ));
                }
                i = i + 1;
            }
            proof {
                assert(self.workspaces@.take(self.workspaces.len() as int) == self.workspaces@);
            }
        }
        let crossfade = match self.previous_workspace_index {
            Some(p) => Some((self.workspaces[p], active)),
            None => None,
        };
        RenderPlan {
            titlebar_from_active: self.sidebar_open,
            skip_titlebar,
            split_layout: self.sidebar_open && active_has_titlebar,
            show_sidebar: self.sidebar_open && active_has_titlebar && self.has_sidebar,
            crossfade,
            active_workspace: active,
            transition_id: self.transition_id,
            tiling_left: self.sidebar_open,
        }
    }
}

/// Moving keeps the same workspaces, each once.
pub proof fn lemma_moved_properties(ws: Seq<EntityId>, from: int, to: int)
    requires
        0 <= from < ws.len(),
        0 <= to < ws.len(),
    ensures
        moved(ws, from, to).len() == ws.len(),
        moved(ws, from, to).to_multiset() == ws.to_multiset(),
        ws.no_duplicates() ==> moved(ws, from, to).no_duplicates(),
{
    broadcast use vstd::seq_lib::group_to_multiset_ensures;
    let r = ws.remove(from);
    let m = moved(ws, from, to);
    ws.remove_ensures(from);
    r.insert_ensures(to, ws[from]);
    assert(ws == ws.subrange(0, from).push(ws[from]) + ws.subrange(from + 1, ws.len() as int));
    assert(r == ws.subrange(0, from) + ws.subrange(from + 1, ws.len() as int));
    vstd::seq_lib::lemma_multiset_commutative(ws.subrange(0, from).push(ws[from]), ws.subrange(from + 1, ws.len() as int));
    vstd::seq_lib::lemma_multiset_commutative(ws.subrange(0, from), ws.subrange(from + 1, ws.len() as int));
    assert(ws.to_multiset() == r.to_multiset().insert(ws[from]));
    assert(m == r.subrange(0, to).push(ws[from]) + r.subrange(to, r.len() as int));
    assert(r == r.subrange(0, to) + r.subrange(to, r.len() as int));
    vstd::seq_lib::lemma_multiset_commutative(r.subrange(0, to).push(ws[from]), r.subrange(to, r.len() as int));
    vstd::seq_lib::lemma_multiset_commutative(r.subrange(0, to), r.subrange(to, r.len() as int));
    assert(m.to_multiset() == r.to_multiset().insert(ws[from]));
    if ws.no_duplicates() {
        ws.lemma_multiset_has_no_duplicates();
        m.lemma_multiset_has_no_duplicates_conv();
    }
}

/// Moving a workspace keeps the active workspace active.
pub proof fn lemma_move_keeps_active(ws: Seq<EntityId>, active: int, from: int, to: int)
    requires
        0 <= from < ws.len(),
        0 <= to < ws.len(),
        0 <= active < ws.len(),
    ensures
        0 <= active_after_move(active, from, to) < ws.len(),
        moved(ws, from, to)[active_after_move(active, from, to)] == ws[active],
{
    let r = ws.remove(from);
    ws.remove_ensures(from);
    r.insert_ensures(to, ws[from]);
}

/// The workspace list after adding `w`: unchanged when it is already there,
/// else `w` appended.
pub open spec fn with_workspace(ws: Seq<EntityId>, w: EntityId) -> Seq<EntityId> {
    if ws.contains(w) {
        ws
    } else {
        ws.push(w)
    }
}

/// Switching to the next workspace and then to the previous one comes back to
/// where it started, and the other way round.
pub proof fn lemma_next_then_previous(active: int, len: int)
    requires
        len > 1,
        0 <= active < len,
    ensures
        previous_index(next_index(active, len), len) == active,
        next_index(previous_index(active, len), len) == active,
        0 <= next_index(active, len) < len,
        0 <= previous_index(active, len) < len,
{
    if active + 1 < len {
        assert((active + 1) % len == active + 1) by (nonlinear_arith)
            requires 0 <= active + 1 < len;
    } else {
        assert(len % len == 0) by (nonlinear_arith)
            requires len > 1;
    }
    if active == 0 {
        assert(len % len == 0) by (nonlinear_arith)
            requires len > 1;
    } else {
        assert(active % len == active) by (nonlinear_arith)
            requires 0 <= active < len;
    }
}

/// Moving a workspace from `from` to `to` and then back from `to` to `from`
/// restores the order and the active index.
pub proof fn lemma_move_round_trip(ws: Seq<EntityId>, active: int, from: int, to: int)
    requires
        0 <= from < ws.len(),
        0 <= to < ws.len(),
        0 <= active < ws.len(),
    ensures
        moved(moved(ws, from, to), to, from) == ws,
        active_after_move(active_after_move(active, from, to), to, from) == active,
{
    let m = moved(ws, from, to);
    let r = ws.remove(from);
    assert(m[to] == ws[from] && m.len() == ws.len()) by {
        ws.remove_ensures(from);
        r.insert_ensures(to, ws[from]);
    }
    assert(m.remove(to) =~= r) by {
        ws.remove_ensures(from);
        r.insert_ensures(to, ws[from]);
        m.remove_ensures(to);
    }
    assert(r.insert(from, ws[from]) =~= ws) by {
        ws.remove_ensures(from);
        r.insert_ensures(from, ws[from]);
    }
}

/// Toggling the sidebar twice leaves the window as it was.
pub proof fn lemma_toggle_sidebar_twice(v: MultiWorkspaceView)
    ensures
        (MultiWorkspaceView {
            sidebar_open: !(MultiWorkspaceView { sidebar_open: !v.sidebar_open, ..v }).sidebar_open,
            ..(MultiWorkspaceView { sidebar_open: !v.sidebar_open, ..v })
        }) == v,
{
}

/// Adding a workspace a second time changes nothing.
pub proof fn lemma_add_workspace_idempotent(ws: Seq<EntityId>, w: EntityId)
    ensures
        with_workspace(with_workspace(ws, w), w) == with_workspace(ws, w),
        with_workspace(ws, w).contains(w),
{
    if !ws.contains(w) {
        assert(ws.push(w)[ws.len() as int] == w);
    }
}

/// A workspace that joins the window while the sidebar is open is told
/// first that the sidebar is open.
pub proof fn lemma_new_workspace_sees_open_sidebar(
    v: MultiWorkspaceView,
    workspace: EntityId,
    post: MultiWorkspaceView,
)
    requires
        v.sidebar_open,
        !v.workspaces.contains(workspace),
    ensures
        v.activate_effects(workspace, post).len() > 0,
        v.activate_effects(workspace, post)[0] == (WorkspaceEffect::SetSidebarOpen {
            workspace: workspace,
            open: true,
        }),
{
}

} // verus!
