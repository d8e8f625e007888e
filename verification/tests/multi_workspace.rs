use workspace_sidebar::multi_workspace::{
    focus_target, DockState, MultiWorkspace, SidebarEvent, WorkspaceEffect,
};

fn serialize(active: u64, sidebar_open: bool) -> WorkspaceEffect {
    WorkspaceEffect::Serialize {
        window_id: 9,
        active_workspace: active,
        sidebar_open,
    }
}

fn window(ids: &[u64]) -> MultiWorkspace {
    let mut mw = MultiWorkspace::new(ids[0], 9);
    for id in &ids[1..] {
        mw.add_workspace(*id);
    }
    mw
}

#[test]
fn new_window_holds_one_active_workspace() {
    let mw = MultiWorkspace::new(10, 9);
    assert_eq!(mw.workspaces(), &[10]);
    assert_eq!(mw.active_workspace_index(), 0);
    assert_eq!(mw.workspace(), 10);
    assert!(!mw.is_sidebar_open());
    assert!(!mw.has_sidebar());
}

#[test]
fn add_workspace_appends_and_reports_effects() {
    let mut mw = MultiWorkspace::new(10, 9);
    let (index, effects) = mw.add_workspace(11);
    assert_eq!(index, 1);
    assert_eq!(
        effects,
        vec![
            WorkspaceEffect::SetPreserveSession { workspace: 10, preserve: true },
            WorkspaceEffect::SetPreserveSession { workspace: 11, preserve: true },
            WorkspaceEffect::Notify,
        ]
    );
    assert_eq!(mw.active_workspace_index(), 0);
    // Adding it again changes nothing.
    let (again, effects) = mw.add_workspace(11);
    assert_eq!(again, 1);
    assert!(effects.is_empty());
    assert_eq!(mw.workspaces(), &[10, 11]);
}

#[test]
fn add_workspace_with_open_sidebar_tells_the_new_workspace() {
    let mut mw = MultiWorkspace::new(10, 9);
    mw.register_sidebar();
    mw.open_sidebar();
    let (_, effects) = mw.add_workspace(11);
    assert_eq!(
        effects[0],
        WorkspaceEffect::SetSidebarOpen { workspace: 11, open: true }
    );
}

#[test]
fn activate_switches_and_serializes() {
    let mut mw = MultiWorkspace::new(10, 9);
    let effects = mw.activate(11);
    assert_eq!(mw.workspace(), 11);
    assert_eq!(mw.active_workspace_index(), 1);
    assert_eq!(effects[effects.len() - 2], serialize(11, false));
    assert_eq!(effects[effects.len() - 1], WorkspaceEffect::Notify);
    let effects = mw.activate(10);
    assert_eq!(effects, vec![serialize(10, false), WorkspaceEffect::Notify]);
    assert!(mw.activate(10).is_empty());
    assert_eq!(mw.active_workspace_index(), 0);
    assert_eq!(mw.workspaces(), vec![10, 11]);
}

#[test]
fn activate_index_starts_and_finishes_a_transition() {
    let mut mw = window(&[10, 11, 12]);
    let effects = mw.activate_index(2);
    assert_eq!(
        effects,
        vec![
            WorkspaceEffect::ScheduleTransitionCleanup { transition_id: 1 },
            serialize(12, false),
            WorkspaceEffect::FocusActiveWorkspace,
            WorkspaceEffect::Notify,
        ]
    );
    let plan = mw.render_plan(true);
    assert_eq!(plan.crossfade, Some((10, 12)));
    assert_eq!(plan.transition_id, 1);
    // A stale cleanup does nothing.
    assert!(mw.finish_transition(0).is_empty());
    assert_eq!(mw.render_plan(true).crossfade, Some((10, 12)));
    assert_eq!(mw.finish_transition(1), vec![WorkspaceEffect::Notify]);
    assert_eq!(mw.render_plan(true).crossfade, None);
    assert!(mw.activate_index(2).is_empty());
}

#[test]
fn next_and_previous_wrap_around() {
    let mut mw = window(&[10, 11, 12]);
    mw.activate_previous_workspace();
    assert_eq!(mw.active_workspace_index(), 2);
    mw.activate_next_workspace();
    assert_eq!(mw.active_workspace_index(), 0);
    mw.activate_next_workspace();
    assert_eq!(mw.active_workspace_index(), 1);
    mw.activate_previous_workspace();
    assert_eq!(mw.active_workspace_index(), 0);

    let mut single = MultiWorkspace::new(1, 9);
    assert!(single.activate_next_workspace().is_empty());
    assert!(single.activate_previous_workspace().is_empty());
}

#[test]
fn next_then_previous_returns_to_the_start() {
    for start in 0..4 {
        let mut mw = window(&[10, 11, 12, 13]);
        mw.activate_index(start);
        mw.activate_next_workspace();
        mw.activate_previous_workspace();
        assert_eq!(mw.active_workspace_index(), start);
    }
}

#[test]
fn remove_workspace_keeps_the_active_one() {
    let mut mw = window(&[10, 11, 12]);
    mw.activate_index(2);
    let effects = mw.remove_workspace(0);
    assert_eq!(mw.workspaces(), &[11, 12]);
    assert_eq!(mw.workspace(), 12);
    assert_eq!(
        effects,
        vec![
            WorkspaceEffect::FocusActiveWorkspace,
            serialize(12, false),
            WorkspaceEffect::Notify,
        ]
    );
    let effects = mw.remove_workspace(1);
    assert_eq!(mw.workspaces(), &[11]);
    assert_eq!(mw.active_workspace_index(), 0);
    assert_eq!(
        effects[0],
        WorkspaceEffect::SetPreserveSession { workspace: 11, preserve: false }
    );
    // The last workspace stays.
    assert!(mw.remove_workspace(0).is_empty());
    assert!(mw.remove_active_workspace().is_empty());
    assert_eq!(mw.workspaces(), &[11]);
}

#[test]
fn remove_out_of_range_does_nothing() {
    let mut mw = window(&[10, 11]);
    assert!(mw.remove_workspace(5).is_empty());
    assert_eq!(mw.workspaces(), &[10, 11]);
}

#[test]
fn remove_active_workspace_activates_its_neighbour() {
    let mut mw = window(&[10, 11, 12]);
    mw.activate_index(1);
    mw.remove_active_workspace();
    assert_eq!(mw.workspaces(), &[10, 12]);
    assert_eq!(mw.workspace(), 12);
    mw.remove_active_workspace();
    assert_eq!(mw.workspaces(), &[10]);
    assert_eq!(mw.workspace(), 10);
}

#[test]
fn move_workspace_follows_the_active_workspace() {
    let mut mw = window(&[10, 11, 12, 13]);
    mw.activate_index(1);
    let effects = mw.move_workspace(0, 3);
    assert_eq!(mw.workspaces(), &[11, 12, 13, 10]);
    assert_eq!(mw.workspace(), 11);
    assert_eq!(effects, vec![serialize(11, false), WorkspaceEffect::Notify]);
    mw.move_workspace(3, 0);
    assert_eq!(mw.workspaces(), &[10, 11, 12, 13]);
    assert_eq!(mw.active_workspace_index(), 1);
    mw.move_workspace(1, 2);
    assert_eq!(mw.workspaces(), &[10, 12, 11, 13]);
    assert_eq!(mw.workspace(), 11);
    assert!(mw.move_workspace(2, 2).is_empty());
    assert!(mw.move_workspace(2, 9).is_empty());
}

#[test]
fn move_there_and_back_restores_the_order() {
    for from in 0..4 {
        for to in 0..4 {
            for active in 0..4 {
                let mut mw = window(&[10, 11, 12, 13]);
                mw.activate_index(active);
                mw.move_workspace(from, to);
                mw.move_workspace(to, from);
                assert_eq!(mw.workspaces(), &[10, 11, 12, 13]);
                assert_eq!(mw.active_workspace_index(), active);
            }
        }
    }
}

#[test]
fn sidebar_open_close_and_toggle() {
    let mut mw = window(&[10, 11]);
    mw.register_sidebar();
    let effects = mw.toggle_sidebar();
    assert!(mw.is_sidebar_open());
    assert!(mw.sidebar_open());
    assert_eq!(
        effects,
        vec![
            WorkspaceEffect::SetSidebarOpen { workspace: 10, open: true },
            WorkspaceEffect::SetSidebarOpen { workspace: 11, open: true },
            serialize(10, true),
            WorkspaceEffect::Notify,
            WorkspaceEffect::FocusSidebar,
        ]
    );
    let effects = mw.toggle_sidebar();
    assert!(!mw.is_sidebar_open());
    assert_eq!(
        effects,
        vec![
            WorkspaceEffect::SetSidebarOpen { workspace: 10, open: false },
            WorkspaceEffect::SetSidebarOpen { workspace: 11, open: false },
            WorkspaceEffect::FocusActivePane,
            serialize(10, false),
            WorkspaceEffect::Notify,
        ]
    );
}

#[test]
fn sidebar_open_needs_a_sidebar() {
    let mut mw = MultiWorkspace::new(10, 9);
    let effects = mw.toggle_sidebar();
    assert!(mw.is_sidebar_open());
    assert!(!mw.sidebar_open());
    assert!(!effects.contains(&WorkspaceEffect::FocusSidebar));
    assert!(!mw.sidebar_has_notifications(true));
    mw.register_sidebar();
    assert!(mw.sidebar_has_notifications(true));
    assert!(!mw.sidebar_has_notifications(false));
}

#[test]
fn focus_sidebar_moves_focus_in_and_out() {
    let mut mw = MultiWorkspace::new(10, 9);
    mw.register_sidebar();
    let effects = mw.focus_sidebar(false);
    assert!(mw.is_sidebar_open());
    assert_eq!(effects.last(), Some(&WorkspaceEffect::FocusSidebar));
    assert_eq!(mw.focus_sidebar(true), vec![WorkspaceEffect::FocusActivePane]);
    assert_eq!(mw.focus_sidebar(false), vec![WorkspaceEffect::FocusSidebar]);
}

#[test]
fn sidebar_events() {
    let mut mw = MultiWorkspace::new(10, 9);
    mw.register_sidebar();
    mw.handle_sidebar_event(SidebarEvent::Open);
    assert!(mw.is_sidebar_open());
    mw.handle_sidebar_event(SidebarEvent::Close);
    assert!(!mw.is_sidebar_open());
    mw.handle_sidebar_event(SidebarEvent::Close);
    assert!(!mw.is_sidebar_open());
}

#[test]
fn create_workspace_activates_and_focuses_it() {
    let mut mw = MultiWorkspace::new(10, 9);
    let effects = mw.create_workspace(20);
    assert_eq!(mw.workspace(), 20);
    assert_eq!(effects.last(), Some(&WorkspaceEffect::FocusActiveWorkspace));
    let workspace_effects = mw.test_add_workspace(30);
    assert_eq!(mw.workspace(), 30);
    assert!(!workspace_effects.is_empty());
}

#[test]
fn open_project_replaces_an_empty_workspace() {
    let mut mw = window(&[10, 11]);
    mw.activate_index(1);
    assert_eq!(mw.open_project(false, false), Some(11));
    assert_eq!(mw.open_project(true, false), None);
    assert_eq!(mw.open_project(false, true), None);
    mw.add_workspace(12);
    mw.activate_index(2);
    let effects = mw.remove_replaced_workspace(11);
    assert!(!effects.is_empty());
    assert_eq!(mw.workspaces(), &[10, 12]);
    assert_eq!(mw.workspace(), 12);
    assert!(mw.remove_replaced_workspace(99).is_empty());
}

#[test]
fn render_plan_titlebars() {
    let mut mw = window(&[10, 11]);
    let plan = mw.render_plan(true);
    assert!(!plan.titlebar_from_active);
    assert_eq!(plan.skip_titlebar, vec![(10, false), (11, false)]);
    assert!(!plan.show_sidebar);
    assert!(!plan.tiling_left);
    mw.register_sidebar();
    mw.open_sidebar();
    let plan = mw.render_plan(true);
    assert!(plan.titlebar_from_active);
    assert_eq!(plan.skip_titlebar, vec![(10, true)]);
    assert!(plan.show_sidebar);
    assert!(plan.tiling_left);
    assert_eq!(plan.active_workspace, 10);
    assert!(plan.split_layout);
    // Without a titlebar item the workspace takes the whole window.
    let plan = mw.render_plan(false);
    assert!(plan.titlebar_from_active);
    assert!(!plan.split_layout);
    assert!(!plan.show_sidebar);
}

#[test]
fn focus_target_picks_the_first_zoomed_open_dock() {
    let docks = vec![
        DockState { is_open: false, active_panel_zoomed: Some(true) },
        DockState { is_open: true, active_panel_zoomed: None },
        DockState { is_open: true, active_panel_zoomed: Some(false) },
        DockState { is_open: true, active_panel_zoomed: Some(true) },
        DockState { is_open: true, active_panel_zoomed: Some(true) },
    ];
    assert_eq!(focus_target(&docks), Some(3));
    assert_eq!(focus_target(&docks[..3].to_vec()), None);
    assert_eq!(focus_target(&Vec::new()), None);
}
