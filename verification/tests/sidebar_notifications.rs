use workspace_sidebar::multi_workspace::MultiWorkspace;
use workspace_sidebar::sidebar::Sidebar;
use workspace_sidebar::workspace_entry::{AgentThreadInfo, AgentThreadStatus, WorkspaceSnapshot};

fn empty_snapshots(n: usize) -> Vec<WorkspaceSnapshot> {
    (0..n)
        .map(|_| WorkspaceSnapshot {
            visible_worktrees: Vec::new(),
            thread: None,
        })
        .collect()
}

/// What the host does whenever the window changes: rebuild the sidebar from it.
fn refresh(sidebar: &mut Sidebar, multi_workspace: &MultiWorkspace) -> bool {
    let snapshots = empty_snapshots(multi_workspace.workspaces().len());
    sidebar.refresh(&snapshots, multi_workspace.active_workspace_index())
}

fn set_thread_info_and_refresh(
    sidebar: &mut Sidebar,
    multi_workspace: &MultiWorkspace,
    index: usize,
    title: &str,
    status: AgentThreadStatus,
) {
    sidebar.set_test_thread_info(index, title.to_string(), status);
    refresh(sidebar, multi_workspace);
}

fn window_with_sidebar() -> (MultiWorkspace, Sidebar) {
    let mut multi_workspace = MultiWorkspace::test_new(1, 7);
    let mut sidebar = Sidebar::new(Vec::new());
    multi_workspace.register_sidebar();
    refresh(&mut sidebar, &multi_workspace);
    (multi_workspace, sidebar)
}

#[test]
fn test_notification_on_running_to_completed_transition() {
    let (mut multi_workspace, mut sidebar) = window_with_sidebar();

    // Create a second workspace and switch to it so workspace 0 is background.
    multi_workspace.create_workspace(2);
    refresh(&mut sidebar, &multi_workspace);
    multi_workspace.activate_index(1);
    refresh(&mut sidebar, &multi_workspace);

    assert!(
        !sidebar.has_notifications(),
        "should have no notifications initially"
    );

    set_thread_info_and_refresh(
        &mut sidebar,
        &multi_workspace,
        0,
        "Test Thread",
        AgentThreadStatus::Running,
    );

    assert!(
        !sidebar.has_notifications(),
        "Running status alone should not create a notification"
    );

    set_thread_info_and_refresh(
        &mut sidebar,
        &multi_workspace,
        0,
        "Test Thread",
        AgentThreadStatus::Completed,
    );

    assert!(
        sidebar.has_notifications(),
        "Running → Completed transition should create a notification"
    );
}

#[test]
fn test_no_notification_for_active_workspace() {
    let (multi_workspace, mut sidebar) = window_with_sidebar();

    // Workspace 0 is the active workspace — thread completes while
    // the user is already looking at it.
    set_thread_info_and_refresh(
        &mut sidebar,
        &multi_workspace,
        0,
        "Test Thread",
        AgentThreadStatus::Running,
    );
    set_thread_info_and_refresh(
        &mut sidebar,
        &multi_workspace,
        0,
        "Test Thread",
        AgentThreadStatus::Completed,
    );

    assert!(
        !sidebar.has_notifications(),
        "should not notify for the workspace the user is already looking at"
    );
}

#[test]
fn test_notification_cleared_on_workspace_activation() {
    let (mut multi_workspace, mut sidebar) = window_with_sidebar();

    // Create a second workspace so we can switch away and back.
    multi_workspace.create_workspace(2);
    refresh(&mut sidebar, &multi_workspace);

    // Switch to workspace 1 so workspace 0 becomes a background workspace.
    multi_workspace.activate_index(1);
    refresh(&mut sidebar, &multi_workspace);

    // Thread on workspace 0 transitions Running → Completed while
    // the user is looking at workspace 1.
    set_thread_info_and_refresh(
        &mut sidebar,
        &multi_workspace,
        0,
        "Test Thread",
        AgentThreadStatus::Running,
    );
    set_thread_info_and_refresh(
        &mut sidebar,
        &multi_workspace,
        0,
        "Test Thread",
        AgentThreadStatus::Completed,
    );

    assert!(
        sidebar.has_notifications(),
        "background workspace completion should create a notification"
    );

    // Switching back to workspace 0 should clear the notification.
    multi_workspace.activate_index(0);
    refresh(&mut sidebar, &multi_workspace);

    assert!(
        !sidebar.has_notifications(),
        "notification should be cleared when workspace becomes active"
    );
}

#[test]
fn refresh_reports_when_notifications_appear_and_go() {
    let (mut multi_workspace, mut sidebar) = window_with_sidebar();
    multi_workspace.create_workspace(2);
    assert!(!refresh(&mut sidebar, &multi_workspace));
    sidebar.set_test_thread_info(0, "T".to_string(), AgentThreadStatus::Running);
    assert!(!refresh(&mut sidebar, &multi_workspace));
    sidebar.set_test_thread_info(0, "T".to_string(), AgentThreadStatus::Completed);
    assert!(refresh(&mut sidebar, &multi_workspace));
    assert!(sidebar.has_notification(0));
    assert!(!sidebar.has_notification(1));
    // Still in the background: the notification stays, and nothing changes.
    assert!(!refresh(&mut sidebar, &multi_workspace));
    assert!(sidebar.has_notification(0));
    multi_workspace.activate_index(0);
    assert!(refresh(&mut sidebar, &multi_workspace));
    assert!(!sidebar.has_notification(0));
}

#[test]
fn completion_in_a_workspace_that_never_ran_does_not_notify() {
    let (mut multi_workspace, mut sidebar) = window_with_sidebar();
    multi_workspace.create_workspace(2);
    refresh(&mut sidebar, &multi_workspace);
    sidebar.set_test_thread_info(0, "T".to_string(), AgentThreadStatus::Completed);
    refresh(&mut sidebar, &multi_workspace);
    assert!(!sidebar.has_notifications());
}

#[test]
fn thread_state_of_snapshots_drives_notifications() {
    let mut sidebar = Sidebar::new(Vec::new());
    let with_thread = |status: AgentThreadStatus| {
        vec![
            WorkspaceSnapshot {
                visible_worktrees: Vec::new(),
                thread: Some(AgentThreadInfo {
                    title: "t".to_string(),
                    status,
                }),
            },
            WorkspaceSnapshot {
                visible_worktrees: Vec::new(),
                thread: None,
            },
        ]
    };
    sidebar.refresh(&with_thread(AgentThreadStatus::Running), 1);
    assert!(sidebar.entries()[0].has_thread);
    assert!(sidebar.entries()[0].thread_running);
    assert!(!sidebar.entries()[1].has_thread);
    sidebar.refresh(&with_thread(AgentThreadStatus::Completed), 1);
    assert!(sidebar.has_notification(0));
    assert!(!sidebar.entries()[0].thread_running);
}
