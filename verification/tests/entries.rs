use workspace_sidebar::sidebar::{
    drop_indicator, drop_move, project_event_needs_refresh, ContextMenuItem, DraggedProjectIcon,
    DropIndicator, EditWorkspacePopup, EditWorkspacePopupEvent, IconColor, ProjectEventKind,
    Sidebar,
};
use workspace_sidebar::text::{
    compute_initials, decimal_string, is_whitespace, join_strings, sort_strings, split_whitespace,
    string_lt, trim,
};
use workspace_sidebar::workspace_entry::{
    deterministic_hue, workspace_paths_key, AgentThreadInfo, AgentThreadStatus, ColorBits,
    WorkspaceCustomization, WorkspaceEntry, WorkspaceSnapshot, WorktreeInfo,
};

fn worktree(path: &str, name: Option<&str>) -> WorktreeInfo {
    WorktreeInfo {
        abs_path: path.to_string(),
        file_name: name.map(|n| n.to_string()),
    }
}

fn snapshot(worktrees: Vec<WorktreeInfo>) -> WorkspaceSnapshot {
    WorkspaceSnapshot {
        visible_worktrees: worktrees,
        thread: None,
    }
}

fn red() -> ColorBits {
    ColorBits {
        h: 0f32.to_bits(),
        s: 0.4f32.to_bits(),
        l: 0.3f32.to_bits(),
        a: 1f32.to_bits(),
    }
}

#[test]
fn initials_of_names() {
    assert_eq!(compute_initials(""), "??");
    assert_eq!(compute_initials("   "), "??");
    assert_eq!(compute_initials("x"), "X");
    assert_eq!(compute_initials("atlas"), "At");
    assert_eq!(compute_initials("ATLAS"), "At");
    assert_eq!(compute_initials("hello world"), "HW");
    assert_eq!(compute_initials("  alpha\tbeta gamma "), "AB");
    assert_eq!(compute_initials("élan"), "Él");
    assert_eq!(compute_initials("straße"), "St");
    assert_eq!(compute_initials("ßa"), "SSa");
}

#[test]
fn words_split_on_unicode_whitespace() {
    let words = split_whitespace(" a\u{3000}bc\n d ");
    assert_eq!(words, vec![vec!['a'], vec!['b', 'c'], vec!['d']]);
    assert!(split_whitespace("").is_empty());
}

#[test]
fn trim_removes_outer_whitespace() {
    assert_eq!(trim("  New Name \t"), "New Name");
    assert_eq!(trim("   "), "");
    assert_eq!(trim("a b"), "a b");
    assert_eq!(trim("\u{2003}x\u{2003}"), "x");
}

#[test]
fn strings_compare_by_bytes() {
    assert!(string_lt("a", "b"));
    assert!(string_lt("a", "ab"));
    assert!(!string_lt("ab", "a"));
    assert!(!string_lt("a", "a"));
    assert!(string_lt("Z", "a"));
    assert!(string_lt("z", "é"));
}

#[test]
fn sort_and_join() {
    let v = vec!["b".to_string(), "a".to_string(), "c".to_string(), "a".to_string()];
    assert_eq!(sort_strings(&v), vec!["a", "a", "b", "c"]);
    assert_eq!(join_strings(&v, ", "), "b, a, c, a");
    assert_eq!(join_strings(&Vec::new(), ", "), "");
}

#[test]
fn paths_key_sorts_paths_one_per_line() {
    let key = workspace_paths_key(&vec!["/z/b".to_string(), "/a/c".to_string()]);
    assert_eq!(key, "/a/c\n/z/b");
    let same = workspace_paths_key(&vec!["/a/c".to_string(), "/z/b".to_string()]);
    assert_eq!(key, same);
    assert_eq!(workspace_paths_key(&Vec::new()), "");
}

#[test]
fn hue_of_a_name() {
    // (0 * 31 + 97) * 31 + 98 = 3105, and 3105 % 360 = 225.
    assert_eq!(deterministic_hue("ab"), 225);
    assert_eq!(deterministic_hue(""), 0);
    let mut hash: u32 = 0;
    for b in "north-star".bytes() {
        hash = hash.wrapping_mul(31).wrapping_add(b as u32);
    }
    assert_eq!(deterministic_hue("north-star"), hash % 360);
}

#[test]
fn entry_without_worktrees_is_numbered_from_one() {
    let entry = WorkspaceEntry::new(2, &snapshot(Vec::new()), None);
    assert_eq!(entry.index, 2);
    assert_eq!(entry.label, "Workspace 3");
    assert_eq!(entry.initials, "W3");
    assert_eq!(entry.full_path, "");
    assert_eq!(entry.custom_color, None);
    assert!(!entry.has_thread);
    assert!(!entry.thread_running);
    let entry = WorkspaceEntry::new(11, &snapshot(Vec::new()), None);
    assert_eq!(entry.label, "Workspace 12");
}

#[test]
fn entry_names_and_paths_of_worktrees() {
    let snap = snapshot(vec![
        worktree("/home/u/atlas", Some("atlas")),
        worktree("/", None),
        worktree("/home/u/notes", Some("notes")),
    ]);
    let entry = WorkspaceEntry::new(0, &snap, None);
    assert_eq!(entry.label, "atlas, notes");
    assert_eq!(entry.initials, "AN");
    assert_eq!(entry.full_path, "/home/u/atlas\n/\n/home/u/notes");
}

#[test]
fn entry_uses_the_customization() {
    let snap = WorkspaceSnapshot {
        visible_worktrees: vec![worktree("/p/atlas", Some("atlas"))],
        thread: Some(AgentThreadInfo {
            title: "t".to_string(),
            status: AgentThreadStatus::Running,
        }),
    };
    let custom = WorkspaceCustomization {
        custom_name: Some("My Project".to_string()),
        custom_color: Some(red()),
    };
    let entry = WorkspaceEntry::new(0, &snap, Some(&custom));
    assert_eq!(entry.label, "My Project");
    assert_eq!(entry.initials, "MP");
    assert_eq!(entry.custom_color, Some(red()));
    assert!(entry.has_thread);
    assert!(entry.thread_running);
    let color_only = WorkspaceCustomization {
        custom_name: None,
        custom_color: Some(red()),
    };
    let entry = WorkspaceEntry::new(0, &snap, Some(&color_only));
    assert_eq!(entry.label, "atlas");
}

#[test]
fn thread_status_of_generation() {
    assert_eq!(AgentThreadInfo::status_of(true), AgentThreadStatus::Running);
    assert_eq!(AgentThreadInfo::status_of(false), AgentThreadStatus::Completed);
}

#[test]
fn popup_confirm_saves_changed_names_only() {
    let popup = EditWorkspacePopup::new("/a".to_string(), "atlas", None);
    let EditWorkspacePopupEvent::Saved { paths_key, name, color } = popup.confirm("  Renamed  ");
    assert_eq!(paths_key, "/a");
    assert_eq!(name, Some("Renamed".to_string()));
    assert_eq!(color, None);
    let EditWorkspacePopupEvent::Saved { name, .. } = popup.confirm(" atlas ");
    assert_eq!(name, None);
    let EditWorkspacePopupEvent::Saved { name, .. } = popup.confirm("   ");
    assert_eq!(name, None);
}

#[test]
fn popup_selects_colors() {
    let mut popup = EditWorkspacePopup::new("/a".to_string(), "atlas", Some(red()));
    assert!(popup.is_selected(Some(red())));
    assert!(!popup.is_selected(None));
    popup.select_color(None);
    assert!(popup.is_selected(None));
    assert_eq!(popup.selected_color(), None);
    assert_eq!(popup.paths_key(), "/a");
    let EditWorkspacePopupEvent::Saved { color, .. } = popup.confirm("x");
    assert_eq!(color, None);
}

#[test]
fn saving_a_customization_renames_the_entry() {
    let mut sidebar = Sidebar::new(Vec::new());
    let snaps = vec![snapshot(vec![worktree("/p/atlas", Some("atlas"))])];
    sidebar.refresh(&snaps, 0);
    assert_eq!(sidebar.entries()[0].label, "atlas");
    let popup = sidebar.edit_popup_for(0, Some(&snaps[0])).unwrap();
    assert_eq!(popup.paths_key(), "/p/atlas");
    let event = popup.confirm("Editor");
    sidebar.save_customization(event, &snaps);
    assert_eq!(sidebar.entries()[0].label, "Editor");
    assert_eq!(
        sidebar.customization(&"/p/atlas".to_string()).unwrap().custom_name,
        Some("Editor".to_string())
    );
    // Saving again under the same key replaces the customization.
    let mut popup = sidebar.edit_popup_for(0, Some(&snaps[0])).unwrap();
    popup.select_color(Some(red()));
    let event = popup.confirm("Editor");
    sidebar.save_customization(event, &snaps);
    assert_eq!(sidebar.customizations().len(), 1);
    assert_eq!(sidebar.entries()[0].label, "atlas");
    assert_eq!(sidebar.entries()[0].custom_color, Some(red()));
    assert!(sidebar.edit_popup_for(3, None).is_none());
}

#[test]
fn stored_customizations_apply_to_matching_paths() {
    let stored = vec![(
        "/a\n/b".to_string(),
        WorkspaceCustomization {
            custom_name: Some("Both".to_string()),
            custom_color: None,
        },
    )];
    let mut sidebar = Sidebar::new(stored);
    let snaps = vec![
        snapshot(vec![worktree("/b", Some("b")), worktree("/a", Some("a"))]),
        snapshot(vec![worktree("/a", Some("a"))]),
    ];
    sidebar.refresh(&snaps, 0);
    assert_eq!(sidebar.entries()[0].label, "Both");
    assert_eq!(sidebar.entries()[1].label, "a");
}

#[test]
fn context_menu_offers_removal_with_several_workspaces() {
    let mut sidebar = Sidebar::new(Vec::new());
    sidebar.refresh(&vec![snapshot(Vec::new())], 0);
    assert_eq!(sidebar.context_menu_items(), vec![ContextMenuItem::EditWorkspace]);
    sidebar.refresh(&vec![snapshot(Vec::new()), snapshot(Vec::new())], 0);
    assert_eq!(
        sidebar.context_menu_items(),
        vec![ContextMenuItem::EditWorkspace, ContextMenuItem::RemoveWorkspace]
    );
}

#[test]
fn project_icons() {
    let mut sidebar = Sidebar::new(Vec::new());
    let snaps = vec![
        snapshot(Vec::new()),
        snapshot(vec![worktree("/w/ab", Some("ab"))]),
    ];
    sidebar.refresh(&snaps, 1);
    let icons = sidebar.project_icons();
    assert_eq!(icons.len(), 2);
    assert_eq!(icons[0].tooltip_meta, "Not connected");
    assert_eq!(icons[0].label, "Workspace 1");
    assert!(!icons[0].is_active);
    assert!(icons[1].is_active);
    assert_eq!(icons[1].tooltip_meta, "/w/ab");
    assert_eq!(icons[1].initials, "Ab");
    assert_eq!(icons[1].color, IconColor::Hue(225));
    assert!(!icons[1].has_notification);
}

#[test]
fn dragging_icons() {
    let dragged = DraggedProjectIcon { index: 2 };
    assert_eq!(drop_indicator(&dragged, 2), DropIndicator::Absent);
    assert_eq!(drop_indicator(&dragged, 0), DropIndicator::Top);
    assert_eq!(drop_indicator(&dragged, 3), DropIndicator::Bottom);
    assert_eq!(drop_move(&dragged, 2), None);
    assert_eq!(drop_move(&dragged, 0), Some((2, 0)));
}

#[test]
fn only_worktree_changes_refresh_the_sidebar() {
    assert!(project_event_needs_refresh(ProjectEventKind::WorktreeAdded));
    assert!(project_event_needs_refresh(ProjectEventKind::WorktreeRemoved));
    assert!(project_event_needs_refresh(ProjectEventKind::WorktreeOrderChanged));
    assert!(!project_event_needs_refresh(ProjectEventKind::Other));
}

#[test]
fn whitespace_matches_std_on_every_char() {
    for u in 0..=0x10FFFFu32 {
        if let Some(c) = char::from_u32(u) {
            assert_eq!(is_whitespace(c), c.is_whitespace(), "U+{:04X}", u);
        }
    }
}

#[test]
fn decimal_numbers() {
    assert_eq!(decimal_string(0), "0");
    assert_eq!(decimal_string(7), "7");
    assert_eq!(decimal_string(10), "10");
    assert_eq!(decimal_string(1907), "1907");
    assert_eq!(decimal_string(u64::MAX as u128 + 1), "18446744073709551616");
    assert_eq!(decimal_string(u128::MAX), u128::MAX.to_string());
}

#[test]
fn stored_customizations_keep_the_later_of_two_equal_keys() {
    let stored = vec![
        (
            "/a".to_string(),
            WorkspaceCustomization {
                custom_name: Some("First".to_string()),
                custom_color: None,
            },
        ),
        (
            "/b".to_string(),
            WorkspaceCustomization {
                custom_name: Some("Other".to_string()),
                custom_color: None,
            },
        ),
        (
            "/a".to_string(),
            WorkspaceCustomization {
                custom_name: Some("Second".to_string()),
                custom_color: Some(red()),
            },
        ),
    ];
    let sidebar = Sidebar::new(stored);
    assert_eq!(sidebar.customizations().len(), 2);
    let a = sidebar.customization(&"/a".to_string()).unwrap();
    assert_eq!(a.custom_name, Some("Second".to_string()));
    assert_eq!(a.custom_color, Some(red()));
    assert!(sidebar.customization(&"/c".to_string()).is_none());
}
