//! The workspace sidebar: one icon per workspace, with notifications for
//! agent threads that finish in a workspace the user is not looking at, and
//! the user's names and colors for workspaces.
use vstd::prelude::*;

use std::collections::{HashMap, HashSet};

use crate::text::trimmed;
use crate::workspace_entry::{
    AgentThreadInfo, AgentThreadStatus, ColorBits, CustomizationView, EntryView, SnapshotView,
    WorkspaceCustomization, WorkspaceEntry, WorkspaceSnapshot,
    deterministic_hue, entry_of, name_hash, opt_view, paths_key, snapshot_paths_key,
    worktree_paths,
};

verus! {

broadcast use vstd::std_specs::hash::group_hash_axioms;

/// A saved customization: the key it is saved under and its view.
pub open spec fn pair_view(p: (String, WorkspaceCustomization)) -> (Seq<char>, CustomizationView) {
    (p.0@, p.1@)
}

/// The customization saved under `key`: the last one in `s` with that key.
pub open spec fn lookup(s: Seq<(Seq<char>, CustomizationView)>, key: Seq<char>) -> Option<
    CustomizationView,
>
    decreases s.len(),
{
    if s.len() == 0 {
        None
    } else if s.last().0 == key {
        Some(s.last().1)
    } else {
        lookup(s.drop_last(), key)
    }
}

/// An entry with its agent thread state replaced by one set by hand, if any.
pub open spec fn with_test_status(e: EntryView, status: Option<AgentThreadStatus>) -> EntryView {
    match status {
        Some(st) => EntryView {
            has_thread: true,
            thread_running: st == AgentThreadStatus::Running,
            ..e
        },
        None => e,
    }
}

/// The entries for these workspaces, each with the customization saved
/// under its paths key and with any thread state set by hand.
pub open spec fn built_entries(
    snapshots: Seq<SnapshotView>,
    customizations: Seq<(Seq<char>, CustomizationView)>,
    test_statuses: Map<usize, AgentThreadStatus>,
) -> Seq<EntryView> {
    Seq::new(
        snapshots.len(),
        |i: int|
            with_test_status(
                entry_of(
                    i as usize,
                    snapshots[i],
                    lookup(customizations, paths_key(worktree_paths(snapshots[i].worktrees))),
                ),
                if test_statuses.contains_key(i as usize) {
                    Some(test_statuses[i as usize])
                } else {
                    None
                },
            ),
    )
}

/// Whether the thread of `entry` has completed after running in `old`, while
/// another workspace (`active`) was in view.
pub open spec fn completes_in_background(
    old: Seq<EntryView>,
    entry: EntryView,
    active: usize,
) -> bool {
    &&& entry.has_thread
    &&& !entry.thread_running
    &&& entry.index != active
    &&& entry.index < old.len()
    &&& old[entry.index as int].thread_running
}

/// The workspaces whose thread completed in the background between `old`
/// and `new`.
pub open spec fn newly_notified(old: Seq<EntryView>, new: Seq<EntryView>, active: usize) -> Set<
    usize,
> {
    Set::new(
        |i: usize|
            exists|j: int|
                0 <= j < new.len() && #[trigger] new[j].index == i && completes_in_background(
                    old,
                    new[j],
                    active,
                ),
    )
}

/// The views of a list of entries.
pub open spec fn entry_views(v: Seq<WorkspaceEntry>) -> Seq<EntryView> {
    v.map_values(|e: WorkspaceEntry| e@)
}

/// The views of a list of workspace snapshots.
pub open spec fn snapshot_views(v: Seq<WorkspaceSnapshot>) -> Seq<SnapshotView> {
    v.map_values(|s: WorkspaceSnapshot| s@)
}

/// An item of the context menu of a workspace icon.
#[derive(Clone, Copy, Debug, PartialEq, Eq, Structural)]
pub enum ContextMenuItem {
    EditWorkspace,
    RemoveWorkspace,
}

/// The mark drawn on an icon while another icon is dragged over it.
#[derive(Clone, Copy, Debug, PartialEq, Eq, Structural)]
pub enum DropIndicator {
    /// No mark: the icon is over itself.
    Absent,
    /// Border on the top: the dragged icon comes from below.
    Top,
    /// Border on the bottom: the dragged icon comes from above.
    Bottom,
}

/// The background of an icon.
#[derive(Clone, Copy, Debug, PartialEq, Eq, Structural)]
pub enum IconColor {
    /// The color the user chose.
    Custom(ColorBits),
    /// A hue in whole degrees, drawn with fixed saturation and lightness.
    Hue(u32),
}

/// What the icon of one workspace shows.
#[derive(Debug)]
pub struct ProjectIcon {
    pub index: usize,
    pub is_active: bool,
    pub has_notification: bool,
    pub initials: String,
    pub label: String,
    /// The second line of the tooltip: the full path, or "Not connected".
    pub tooltip_meta: String,
    pub color: IconColor,
}

pub struct ProjectIconView {
    pub index: usize,
    pub is_active: bool,
    pub has_notification: bool,
    pub initials: Seq<char>,
    pub label: Seq<char>,
    pub tooltip_meta: Seq<char>,
    pub color: IconColor,
}

impl View for ProjectIcon {
    type V = ProjectIconView;

    open spec fn view(&self) -> ProjectIconView {
        ProjectIconView {
            index: self.index,
            is_active: self.is_active,
            has_notification: self.has_notification,
            initials: self.initials@,
            label: self.label@,
            tooltip_meta: self.tooltip_meta@,
            color: self.color,
        }
    }
}

/// "Not connected"
pub open spec fn not_connected() -> Seq<char> {
    seq!['N', 'o', 't', ' ', 'c', 'o', 'n', 'n', 'e', 'c', 't', 'e', 'd']
}

/// What happened in the project of a workspace, as far as the sidebar cares.
#[derive(Clone, Copy, Debug, PartialEq, Eq, Structural)]
pub enum ProjectEventKind {
    WorktreeAdded,
    WorktreeRemoved,
    WorktreeOrderChanged,
    Other,
}

/// Whether a project event changes what the sidebar shows: only worktrees
/// being added, removed or reordered do.
pub fn project_event_needs_refresh(kind: ProjectEventKind) -> (res: bool)
    ensures
        res == (kind != ProjectEventKind::Other),
{
    match kind {
        ProjectEventKind::WorktreeAdded | ProjectEventKind::WorktreeRemoved
        | ProjectEventKind::WorktreeOrderChanged => true,
        ProjectEventKind::Other => false,
    }
}

/// The payload of a workspace icon while it is dragged.
#[derive(Clone, Copy, Debug, PartialEq, Eq, Structural)]
pub struct DraggedProjectIcon {
    pub index: usize,
}

/// The mark that icon `target` shows while `dragged` is over it.
pub fn drop_indicator(dragged: &DraggedProjectIcon, target: usize) -> (res: DropIndicator)
    ensures
        res == (if dragged.index == target {
            DropIndicator::Absent
        } else if dragged.index > target {
            DropIndicator::Top
        } else {
            DropIndicator::Bottom
        }),
{
    if dragged.index != target {
        if dragged.index > target {
            DropIndicator::Top
        } else {
            DropIndicator::Bottom
        }
    } else {
        DropIndicator::Absent
    }
}

/// The move (from, to) that dropping `dragged` on icon `target` asks for, if any.
pub fn drop_move(dragged: &DraggedProjectIcon, target: usize) -> (res: Option<(usize, usize)>)
    ensures
        res == (if dragged.index != target {
            Some((dragged.index, target))
        } else {
            None
        }),
{
    if dragged.index != target {
        Some((dragged.index, target))
    } else {
        None
    }
}

/// The event of the edit popup when the user saves.
#[derive(Debug)]
pub enum EditWorkspacePopupEvent {
    Saved { paths_key: String, name: Option<String>, color: Option<ColorBits> },
}

/// The popup in which the user renames a workspace and picks its color.
#[derive(Debug)]
pub struct EditWorkspacePopup {
    paths_key: String,
    selected_color: Option<ColorBits>,
    original_name: String,
}

pub struct EditWorkspacePopupView {
    pub paths_key: Seq<char>,
    pub selected_color: Option<ColorBits>,
    pub original_name: Seq<char>,
}

impl View for EditWorkspacePopup {
    type V = EditWorkspacePopupView;

    closed spec fn view(&self) -> EditWorkspacePopupView {
        EditWorkspacePopupView {
            paths_key: self.paths_key@,
            selected_color: self.selected_color,
            original_name: self.original_name@,
        }
    }
}

/// The name a popup saves when its editor holds `text`: the trimmed text,
/// unless it is empty or unchanged, in which case no custom name.
pub open spec fn saved_name(text: Seq<char>, original_name: Seq<char>) -> Option<Seq<char>> {
    let name = trimmed(text);
    if name.len() == 0 || name == original_name {
        None
    } else {
        Some(name)
    }
}

impl EditWorkspacePopup {
    /// A popup for the workspace saved under `paths_key`, showing its current
    /// name and color.
    pub fn new(paths_key: String, current_name: &str, current_color: Option<ColorBits>) -> (res:
        Self)
        ensures
            res@ == (EditWorkspacePopupView {
                paths_key: paths_key@,
                selected_color: current_color,
                original_name: current_name@,
            }),
    {
        EditWorkspacePopup {
            paths_key,
            selected_color: current_color,
            original_name: current_name.to_owned(),
        }
    }

    pub fn paths_key(&self) -> (res: &str)
        ensures
            res@ == self@.paths_key,
    {
        self.paths_key.as_str()
    }

    pub fn selected_color(&self) -> (res: Option<ColorBits>)
        ensures
            res == self@.selected_color,
    {
        self.selected_color
    }

    /// Whether the swatch of `color` (`None` for "Auto") is the selected one.
    pub fn is_selected(&self, color: Option<ColorBits>) -> (res: bool)
        ensures
            res == (self@.selected_color == color),
    {
        match (self.selected_color, color) {
            (Some(a), Some(b)) => a == b,
            (None, None) => true,
            _ => false,
        }
    }

    pub fn select_color(&mut self, color: Option<ColorBits>)
        ensures
            final(self)@ == (EditWorkspacePopupView { selected_color: color, ..old(self)@ }),
    {
        self.selected_color = color;
    }

    /// What the popup saves when the editor holds `text`.
    pub fn confirm(&self, text: &str) -> (res: EditWorkspacePopupEvent)
        ensures
            match res {
                EditWorkspacePopupEvent::Saved { paths_key, name, color } => {
                    &&& paths_key@ == self@.paths_key
                    &&& opt_view(name) == saved_name(text@, self@.original_name)
                    &&& color == self@.selected_color
                },
            },
    {
        let name = crate::text::trim(text);
        let custom_name = if name.as_str().is_empty() || name == self.original_name {
            None
        } else {
            Some(name)
        };
        EditWorkspacePopupEvent::Saved {
            paths_key: self.paths_key.clone(),
            name: custom_name,
            color: self.selected_color,
        }
    }
}

/// The state of the sidebar.
pub struct Sidebar {
    entries: Vec<WorkspaceEntry>,
    active_workspace_index: usize,
    notified_workspaces: HashSet<usize>,
    customizations: Vec<(String, WorkspaceCustomization)>,
    test_thread_infos: HashMap<usize, AgentThreadInfo>,
}

pub struct SidebarView {
    pub entries: Seq<EntryView>,
    pub active_workspace_index: usize,
    pub notified_workspaces: Set<usize>,
    pub customizations: Seq<(Seq<char>, CustomizationView)>,
    pub test_thread_statuses: Map<usize, AgentThreadStatus>,
    pub test_thread_titles: Map<usize, Seq<char>>,
}

impl View for Sidebar {
    type V = SidebarView;

    closed spec fn view(&self) -> SidebarView {
        SidebarView {
            entries: entry_views(self.entries@),
            active_workspace_index: self.active_workspace_index,
            notified_workspaces: self.notified_workspaces@,
            customizations: self.customizations@.map_values(
                |p: (String, WorkspaceCustomization)| pair_view(p),
            ),
            test_thread_statuses: self.test_thread_infos@.map_values(
                |t: AgentThreadInfo| t.status,
            ),
            test_thread_titles: self.test_thread_infos@.map_values(|t: AgentThreadInfo| t.title@),
        }
    }
}

impl SidebarView {
    /// Each entry sits at its own index, and the workspace in view never
    /// carries a notification.
    pub open spec fn wf(self) -> bool {
        &&& forall|i: int| 0 <= i < self.entries.len() ==> #[trigger] self.entries[i].index == i
        &&& !self.notified_workspaces.contains(self.active_workspace_index)
        &&& unique_keys(self.customizations)
    }

    /// The icon of the entry at `position`: active and notification marks,
    /// the tooltip's second line, and the custom color or the hue of the label.
    pub open spec fn icon(self, position: int) -> ProjectIconView {
        let e = self.entries[position];
        ProjectIconView {
            index: e.index,
            is_active: e.index == self.active_workspace_index,
            has_notification: self.notified_workspaces.contains(e.index),
            initials: e.initials,
            label: e.label,
            tooltip_meta: if e.full_path.len() == 0 {
                not_connected()
            } else {
                e.full_path
            },
            color: match e.custom_color {
                Some(c) => IconColor::Custom(c),
                None => IconColor::Hue((name_hash(vstd::utf8::encode_utf8(e.label)) % 360) as u32),
            },
        }
    }

    pub open spec fn customization(self, key: Seq<char>) -> Option<CustomizationView> {
        lookup(self.customizations, key)
    }

    /// The notifications after a refresh that shows `new` with `active` in view.
    pub open spec fn notified_after_refresh(self, new: Seq<EntryView>, active: usize) -> Set<
        usize,
    > {
        let grown = self.notified_workspaces.union(
            newly_notified(self.entries, new, self.active_workspace_index),
        );
        if self.active_workspace_index != active {
            grown.remove(active)
        } else {
            grown
        }
    }
}

/// The last position of `key` among the saved customizations.
fn find_customization(s: &Vec<(String, WorkspaceCustomization)>, key: &String) -> (res: Option<usize>)
    ensures
        match res {
            Some(i) => i < s.len() && s@[i as int].0@ == key@ && forall|j: int|
                i < j < s.len() ==> s@[j].0@ != key@,
            None => forall|j: int| 0 <= j < s.len() ==> s@[j].0@ != key@,
        },
{
    let mut i: usize = s.len();
    while i > 0
        invariant
            i <= s.len(),
            forall|j: int| i <= j < s.len() ==> s@[j].0@ != key@,
        decreases i,
    {
        if s[i - 1].0 == *key {
            return Some(i - 1);
        }
        i = i - 1;
    }
    None
}

/// Looking up a key finds the customization at its last position.
proof fn lemma_lookup_found(s: Seq<(Seq<char>, CustomizationView)>, key: Seq<char>, i: int)
    requires
        0 <= i < s.len(),
        s[i].0 == key,
        forall|j: int| i < j < s.len() ==> s[j].0 != key,
    ensures
        lookup(s, key) == Some(s[i].1),
    decreases s.len(),
{
    if i < s.len() - 1 {
        lemma_lookup_found(s.drop_last(), key, i);
    }
}

proof fn lemma_lookup_absent(s: Seq<(Seq<char>, CustomizationView)>, key: Seq<char>)
    requires
        forall|j: int| 0 <= j < s.len() ==> s[j].0 != key,
    ensures
        lookup(s, key) == None::<CustomizationView>,
    decreases s.len(),
{
    if s.len() > 0 {
        lemma_lookup_absent(s.drop_last(), key);
    }
}

/// Replacing the customization at the last position of `key` saves it under `key`
/// and leaves the other keys alone.
proof fn lemma_lookup_update(
    s: Seq<(Seq<char>, CustomizationView)>,
    i: int,
    key: Seq<char>,
    c: CustomizationView,
    other: Seq<char>,
)
    requires
        0 <= i < s.len(),
        s[i].0 == key,
        forall|j: int| i < j < s.len() ==> s[j].0 != key,
    ensures
        lookup(s.update(i, (key, c)), other) == (if other == key {
            Some(c)
        } else {
            lookup(s, other)
        }),
    decreases s.len(),
{
    let u = s.update(i, (key, c));
    if i == s.len() - 1 {
        assert(u.drop_last() =~= s.drop_last());
    } else {
        assert(u.drop_last() =~= s.drop_last().update(i, (key, c)));
        lemma_lookup_update(s.drop_last(), i, key, c, other);
    }
}

/// No key is saved twice.
pub open spec fn unique_keys(s: Seq<(Seq<char>, CustomizationView)>) -> bool {
    forall|i: int, j: int| 0 <= i < j < s.len() ==> #[trigger] s[i].0 != #[trigger] s[j].0
}

/// The views of a list of saved customizations.
pub open spec fn store_view(v: Seq<(String, WorkspaceCustomization)>) -> Seq<
    (Seq<char>, CustomizationView),
> {
    v.map_values(|p: (String, WorkspaceCustomization)| pair_view(p))
}

fn copy_opt_string(o: &Option<String>) -> (res: Option<String>)
    ensures
        opt_view(res) == opt_view(*o),
{
    match o {
        Some(s) => Some(s.clone()),
        None => None,
    }
}

fn copy_customization(c: &WorkspaceCustomization) -> (res: WorkspaceCustomization)
    ensures
        res@ == c@,
{
    WorkspaceCustomization {
        custom_name: copy_opt_string(&c.custom_name),
        custom_color: c.custom_color,
    }
}

/// Saves `c` under `key`: replaces what was saved under it, or adds it.
fn insert_customization(
    store: &mut Vec<(String, WorkspaceCustomization)>,
    key: String,
    c: WorkspaceCustomization,
)
    requires
        unique_keys(store_view(old(store)@)),
    ensures
        unique_keys(store_view(final(store)@)),
        forall|k: Seq<char>| #[trigger]
            lookup(store_view(final(store)@), k) == (if k == key@ {
                Some(c@)
            } else {
                lookup(store_view(old(store)@), k)
            }),
{
    let ghost s = store_view(store@);
    let ghost kv = key@;
    let ghost cv = c@;
    match find_customization(store, &key) {
        Some(i) => {
            store.set(i, (key, c));
            proof {
                assert forall|j: int| i < j < s.len() implies s[j].0 != kv by {
                    assert(s[j] == pair_view(old(store)@[j]));
                }
                assert(store_view(store@) =~= s.update(i as int, (kv, cv)));
                assert forall|k: Seq<char>| #[trigger]
                    lookup(store_view(store@), k) == (if k == kv {
                        Some(cv)
                    } else {
                        lookup(s, k)
                    }) by {
                    lemma_lookup_update(s, i as int, kv, cv, k);
                }
                let n = store_view(store@);
                assert forall|a: int, b: int| 0 <= a < b < n.len() implies #[trigger] n[a].0
                    != #[trigger] n[b].0 by {
                    assert(n[a].0 == s[a].0);
                    assert(n[b].0 == s[b].0);
                }
            }
        },
        None => {
            store.push((key, c));
            proof {
                assert(store_view(store@) =~= s.push((kv, cv)));
                assert forall|k: Seq<char>| #[trigger]
                    lookup(store_view(store@), k) == (if k == kv {
                        Some(cv)
                    } else {
                        lookup(s, k)
                    }) by {
                    assert(s.push((kv, cv)).drop_last() =~= s);
                }
                let n = store_view(store@);
                assert forall|a: int, b: int| 0 <= a < b < n.len() implies #[trigger] n[a].0
                    != #[trigger] n[b].0 by {
                    if b < s.len() {
                        assert(n[a] == s[a] && n[b] == s[b]);
                    } else {
                        assert(s[a] == pair_view(old(store)@[a]));
                        assert(n[a] == s[a]);
                    }
                }
            }
        },
    }
}

impl Sidebar {
    /// Every value keeps the model well formed: see `SidebarView::wf`.
    #[verifier::type_invariant]
    spec fn inv(&self) -> bool {
        self@.wf()
    }

    /// A sidebar with no entries yet and the customizations read from storage
    /// (where a key occurs twice, the later one counts).
    pub fn new(customizations: Vec<(String, WorkspaceCustomization)>) -> (res: Self)
        ensures
            res@.wf(),
            res@.entries == Seq::<EntryView>::empty(),
            res@.active_workspace_index == 0,
            res@.notified_workspaces == Set::<usize>::empty(),
            forall|k: Seq<char>| #[trigger]
                res@.customization(k) == lookup(store_view(customizations@), k),
            res@.test_thread_statuses == Map::<usize, AgentThreadStatus>::empty(),
            res@.test_thread_titles == Map::<usize, Seq<char>>::empty(),
    {
        let ghost input = store_view(customizations@);
        let mut store: Vec<(String, WorkspaceCustomization)> = Vec::new();
        let mut i: usize = 0;
        proof {
            assert(store_view(store@) =~= Seq::empty());
        }
        while i < customizations.len()
            invariant
                i <= customizations.len(),
                input == store_view(customizations@),
                unique_keys(store_view(store@)),
                forall|k: Seq<char>| #[trigger]
                    lookup(store_view(store@), k) == lookup(input.take(i as int), k),
            decreases customizations.len() - i,
        {
            let key = customizations[i].0.clone();
            let c = copy_customization(&customizations[i].1);
            let ghost before = store_view(store@);
            insert_customization(&mut store, key, c);
            proof {
                let t = input.take(i + 1);
                assert(t.drop_last() =~= input.take(i as int));
                assert(t.last() == input[i as int]);
                assert(input[i as int] == pair_view(customizations@[i as int]));
                assert forall|k: Seq<char>| #[trigger]
                    lookup(store_view(store@), k) == lookup(t, k) by {
                    assert(lookup(store_view(store@), k) == (if k == key@ {
                        Some(c@)
                    } else {
                        lookup(before, k)
                    }));
                }
            }
            i = i + 1;
        }
        proof {
            assert(input.take(customizations.len() as int) =~= input);
        }
        let res = Sidebar {
            entries: Vec::new(),
            active_workspace_index: 0,
            notified_workspaces: HashSet::new(),
            customizations: store,
            test_thread_infos: HashMap::new(),
        };
        proof {
            assert(res@.entries =~= Seq::<EntryView>::empty());
            assert(res@.test_thread_statuses =~= Map::<usize, AgentThreadStatus>::empty());
            assert(res@.test_thread_titles =~= Map::<usize, Seq<char>>::empty());
            assert(res@.customizations == store_view(res.customizations@));
        }
        res
    }

    pub fn entries(&self) -> (res: &[WorkspaceEntry])
        ensures
            self@.wf(),
            entry_views(res@) == self@.entries,
    {
        proof {
            use_type_invariant(&*self);
        }
        self.entries.as_slice()
    }

    pub fn active_workspace_index(&self) -> (res: usize)
        ensures
            self@.wf(),
            res == self@.active_workspace_index,
    {
        proof {
            use_type_invariant(&*self);
        }
        self.active_workspace_index
    }

    /// Whether any workspace carries a notification.
    pub fn has_notifications(&self) -> (res: bool)
        ensures
            res == !self@.notified_workspaces.is_empty(),
    {
        proof {
            use_type_invariant(&*self);
        }
        !self.notified_workspaces.is_empty()
    }

    /// Whether workspace `index` carries a notification.
    pub fn has_notification(&self, index: usize) -> (res: bool)
        ensures
            res == self@.notified_workspaces.contains(index),
    {
        proof {
            use_type_invariant(&*self);
        }
        self.notified_workspaces.contains(&index)
    }

    /// The saved customizations, for storage.
    pub fn customizations(&self) -> (res: &[(String, WorkspaceCustomization)])
        ensures
            res@.map_values(|p: (String, WorkspaceCustomization)| pair_view(p))
                == self@.customizations,
    {
        proof {
            use_type_invariant(&*self);
        }
        self.customizations.as_slice()
    }

    /// The customization saved under `key`, if any.
    pub fn customization(&self, key: &String) -> (res: Option<&WorkspaceCustomization>)
        ensures
            match res {
                Some(c) => self@.customization(key@) == Some(c@),
                None => self@.customization(key@) == None::<CustomizationView>,
            },
    {
        proof {
            use_type_invariant(&*self);
        }
        let ghost s = self@.customizations;
        match find_customization(&self.customizations, key) {
            Some(i) => {
                proof {
                    assert forall|j: int| i < j < s.len() implies s[j].0 != key@ by {
                        assert(s[j] == pair_view(self.customizations@[j]));
                    }
                    lemma_lookup_found(s, key@, i as int);
                }
                Some(&self.customizations[i].1)
            },
            None => {
                proof {
                    assert forall|j: int| 0 <= j < s.len() implies s[j].0 != key@ by {
                        assert(s[j] == pair_view(self.customizations@[j]));
                    }
                    lemma_lookup_absent(s, key@);
                }
                None
            },
        }
    }

    /// Sets by hand the agent thread state that workspace `index` shows.
    pub fn set_test_thread_info(&mut self, index: usize, title: String, status: AgentThreadStatus)
        ensures
            final(self)@.wf(),
            final(self)@ == (SidebarView {
                test_thread_statuses: old(self)@.test_thread_statuses.insert(index, status),
                test_thread_titles: old(self)@.test_thread_titles.insert(index, title@),
                ..old(self)@
            }),
    {
        proof {
            use_type_invariant(&*self);
        }
        let ghost title_view = title@;
        let mut infos: HashMap<usize, AgentThreadInfo> = HashMap::new();
        std::mem::swap(&mut infos, &mut self.test_thread_infos);
        infos.insert(index, AgentThreadInfo { title, status });
        self.test_thread_infos = infos;
        proof {
            assert(self@.test_thread_titles =~= old(self)@.test_thread_titles.insert(
                index,
                title_view,
            ));
            assert(self@.test_thread_statuses =~= old(self)@.test_thread_statuses.insert(
                index,
                status,
            ));
        }
    }

    /// The entries for the given workspaces, in order.
    pub fn build_entries(&self, snapshots: &Vec<WorkspaceSnapshot>) -> (res: Vec<WorkspaceEntry>)
        ensures
            entry_views(res@) == built_entries(
                snapshot_views(snapshots@),
                self@.customizations,
                self@.test_thread_statuses,
            ),
    {
        proof {
            use_type_invariant(&*self);
        }
        let ghost want = built_entries(
            snapshot_views(snapshots@),
            self@.customizations,
            self@.test_thread_statuses,
        );
        let mut res: Vec<WorkspaceEntry> = Vec::new();
        let mut i: usize = 0;
        while i < snapshots.len()
            invariant
                i <= snapshots.len(),
                want == built_entries(
                    snapshot_views(snapshots@),
                    self@.customizations,
                    self@.test_thread_statuses,
                ),
                entry_views(res@) == want.take(i as int),
            decreases snapshots.len() - i,
        {
            let snapshot = &snapshots[i];
            let key = snapshot_paths_key(snapshot);
            let customization = self.customization(&key);
            let mut entry = WorkspaceEntry::new(i, snapshot, customization);
            match self.test_thread_infos.get(&i) {
                Some(info) => {
                    entry.has_thread = true;
                    entry.thread_running = info.status == AgentThreadStatus::Running;
                },
                None => {},
            }
            let ghost before = res@;
            res.push(entry);
            proof {
                assert(snapshot_views(snapshots@)[i as int] == snapshot@);
                assert(entry_views(res@) =~= entry_views(before).push(entry@));
                assert(want.take(i + 1) =~= want.take(i as int).push(want[i as int]));
                assert(entry@ == want[i as int]);
            }
            i = i + 1;
        }
        proof {
            assert(want.take(snapshots.len() as int) =~= want);
        }
        res
    }

    /// Adds a notification for every workspace whose thread went from running
    /// to completed while another one was in view.
    pub fn update_notifications(&mut self, entries: &Vec<WorkspaceEntry>)
        ensures
            final(self)@.wf(),
            final(self)@ == (SidebarView {
                notified_workspaces: old(self)@.notified_workspaces.union(
                    newly_notified(
                        old(self)@.entries,
                        entry_views(entries@),
                        old(self)@.active_workspace_index,
                    ),
                ),
                ..old(self)@
            }),
            forall|w: usize|
                #![trigger final(self)@.notified_workspaces.contains(w)]
                final(self)@.notified_workspaces.contains(w) && !old(
                    self,
                )@.notified_workspaces.contains(w) ==> {
                    &&& w < old(self)@.entries.len()
                    &&& old(self)@.entries[w as int].thread_running
                    &&& w != old(self)@.active_workspace_index
                    &&& exists|j: int|
                        0 <= j < entries@.len() && (#[trigger] entries@[j]@).index == w
                            && entries@[j]@.has_thread && !entries@[j]@.thread_running
                },
            forall|j: int|
                0 <= j < entries@.len() && (#[trigger] entries@[j]@).has_thread
                    && !entries@[j]@.thread_running && entries@[j]@.index
                    != old(self)@.active_workspace_index && entries@[j]@.index < old(
                    self,
                )@.entries.len() && old(self)@.entries[entries@[j]@.index as int].thread_running
                    ==> final(self)@.notified_workspaces.contains(entries@[j]@.index),
    {
        proof {
            use_type_invariant(&*self);
        }
        let ghost new = entry_views(entries@);
        let ghost start = self@;
        let mut notified: HashSet<usize> = HashSet::new();
        std::mem::swap(&mut notified, &mut self.notified_workspaces);
        let ghost emptied = self@;
        let mut i: usize = 0;
        proof {
            assert(newly_notified(start.entries, new.take(0), start.active_workspace_index)
                =~= Set::<usize>::empty());
            assert(start.notified_workspaces.union(Set::<usize>::empty())
                =~= start.notified_workspaces);
        }
        while i < entries.len()
            invariant
                i <= entries.len(),
                new == entry_views(entries@),
                start == old(self)@,
                start.wf(),
                self@ == emptied,
                emptied == (SidebarView { notified_workspaces: Set::<usize>::empty(), ..start }),
                notified@ == start.notified_workspaces.union(
                    newly_notified(start.entries, new.take(i as int), start.active_workspace_index),
                ),
            decreases entries.len() - i,
        {
            let entry = &entries[i];
            let ghost before = notified@;
            if entry.has_thread && !entry.thread_running && entry.index != self.active_workspace_index
                && entry.index < self.entries.len() && self.entries[entry.index].thread_running {
                notified.insert(entry.index);
            }
            proof {
                let t0 = new.take(i as int);
                let t1 = new.take(i + 1);
                assert(t1[i as int] == entry@);
                assert forall|j: int| 0 <= j < i implies t1[j] == t0[j] by {}
                assert(notified@ =~= start.notified_workspaces.union(
                    newly_notified(start.entries, t1, start.active_workspace_index),
                )) by {
                    assert forall|x: usize| #[trigger]
                        newly_notified(
                            start.entries,
                            t1,
                            start.active_workspace_index,
                        ).contains(x) implies notified@.contains(x) by {
                        let j = choose|j: int|
                            0 <= j < t1.len() && #[trigger] t1[j].index == x
                                && completes_in_background(
                                start.entries,
                                t1[j],
                                start.active_workspace_index,
                            );
                        if j < i {
                            assert(newly_notified(
                                start.entries,
                                t0,
                                start.active_workspace_index,
                            ).contains(x)) by {
                                assert(t0[j].index == x);
                            }
                        }
                    }
                    assert forall|x: usize|
                        #[trigger] newly_notified(
                            start.entries,
                            t0,
                            start.active_workspace_index,
                        ).contains(x) implies newly_notified(
                            start.entries,
                            t1,
                            start.active_workspace_index,
                        ).contains(x) by {
                        let j = choose|j: int|
                            0 <= j < t0.len() && #[trigger] t0[j].index == x
                                && completes_in_background(
                                start.entries,
                                t0[j],
                                start.active_workspace_index,
                            );
                        assert(t1[j].index == x);
                    }
                    if notified@ != before {
                        assert(newly_notified(
                            start.entries,
                            t1,
                            start.active_workspace_index,
                        ).contains(entry.index)) by {
                            assert(t1[i as int].index == entry.index);
                        }
                    }
                }
            }
            i = i + 1;
        }
        proof {
            assert(new.take(entries.len() as int) =~= new);
            assert(!newly_notified(start.entries, new, start.active_workspace_index).contains(
                start.active_workspace_index,
            ));
        }
        self.notified_workspaces = notified;
        proof {
            assert forall|j: int|
                0 <= j < entries@.len() && (#[trigger] entries@[j]@).has_thread
                    && !entries@[j]@.thread_running && entries@[j]@.index
                    != start.active_workspace_index && entries@[j]@.index < start.entries.len()
                    && start.entries[entries@[j]@.index as int].thread_running implies newly_notified(
                start.entries,
                new,
                start.active_workspace_index,
            ).contains(entries@[j]@.index) by {
                assert(new[j] == entries@[j]@);
            }
        }
    }

    /// Rebuilds the entries from the workspaces of the window, updates the
    /// notifications, and records which workspace is in view. Returns whether
    /// the window must redraw because notifications appeared or all went away.
    pub fn refresh(&mut self, snapshots: &Vec<WorkspaceSnapshot>, active_index: usize) -> (res:
        bool)
        ensures
            final(self)@.wf(),
            !final(self)@.notified_workspaces.contains(final(self)@.active_workspace_index),
            ({
                let new = built_entries(
                    snapshot_views(snapshots@),
                    old(self)@.customizations,
                    old(self)@.test_thread_statuses,
                );
                final(self)@ == (SidebarView {
                    entries: new,
                    active_workspace_index: active_index,
                    notified_workspaces: old(self)@.notified_after_refresh(new, active_index),
                    ..old(self)@
                })
            }),
            res == (old(self)@.notified_workspaces.is_empty()
                != final(self)@.notified_workspaces.is_empty()),
            forall|w: usize|
                #![trigger final(self)@.notified_workspaces.contains(w)]
                final(self)@.notified_workspaces.contains(w) && !old(
                    self,
                )@.notified_workspaces.contains(w) ==> w < old(self)@.entries.len() && old(
                    self,
                )@.entries[w as int].thread_running,
    {
        proof {
            use_type_invariant(&*self);
        }
        let entries = self.build_entries(snapshots);
        let had_notifications = !self.notified_workspaces.is_empty();
        self.update_notifications(&entries);
        let ghost updated = self@.notified_workspaces;
        let mut notified: HashSet<usize> = HashSet::new();
        std::mem::swap(&mut notified, &mut self.notified_workspaces);
        if self.active_workspace_index != active_index {
            notified.remove(&active_index);
        }
        let ghost same_active = old(self)@.active_workspace_index == active_index;
        self.active_workspace_index = active_index;
        proof {
            let new = built_entries(
                snapshot_views(snapshots@),
                old(self)@.customizations,
                old(self)@.test_thread_statuses,
            );
            if same_active {
                assert(!newly_notified(
                    old(self)@.entries,
                    new,
                    old(self)@.active_workspace_index,
                ).contains(active_index));
                assert(!updated.contains(active_index));
            }
        }
        self.notified_workspaces = notified;
        proof {
            let new = built_entries(
                snapshot_views(snapshots@),
                old(self)@.customizations,
                old(self)@.test_thread_statuses,
            );
            assert forall|i: int| 0 <= i < new.len() implies #[trigger] new[i].index == i by {
                assert(new.len() == snapshots.len());
            }
        }
        self.entries = entries;
        proof {
            let new = built_entries(
                snapshot_views(snapshots@),
                old(self)@.customizations,
                old(self)@.test_thread_statuses,
            );
            assert forall|i: int| 0 <= i < new.len() implies #[trigger] new[i].index == i by {
                assert(new.len() == snapshots.len());
            }
            if old(self)@.active_workspace_index == active_index {
                assert(!newly_notified(
                    old(self)@.entries,
                    new,
                    old(self)@.active_workspace_index,
                ).contains(active_index));
            }
            assert(self@.notified_workspaces =~= old(self)@.notified_after_refresh(
                new,
                active_index,
            ));
        }
        let has_notifications = !self.notified_workspaces.is_empty();
        proof {
            use_type_invariant(&*self);
        }
        had_notifications != has_notifications
    }

    /// Saves the name and color of a popup under its paths key and rebuilds
    /// the entries from the workspaces of the window.
    pub fn save_customization(
        &mut self,
        event: EditWorkspacePopupEvent,
        snapshots: &Vec<WorkspaceSnapshot>,
    )
        ensures
            final(self)@.wf(),
            match event {
                EditWorkspacePopupEvent::Saved { paths_key, name, color } => {
                    &&& forall|k: Seq<char>| #[trigger]
                        final(self)@.customization(k) == (if k == paths_key@ {
                            Some(CustomizationView { custom_name: opt_view(name), custom_color: color })
                        } else {
                            old(self)@.customization(k)
                        })
                    &&& final(self)@.entries == built_entries(
                        snapshot_views(snapshots@),
                        final(self)@.customizations,
                        old(self)@.test_thread_statuses,
                    )
                    &&& final(self)@.active_workspace_index == old(self)@.active_workspace_index
                    &&& final(self)@.notified_workspaces == old(self)@.notified_workspaces
                    &&& final(self)@.test_thread_statuses == old(self)@.test_thread_statuses
                    &&& final(self)@.test_thread_titles == old(self)@.test_thread_titles
                },
            },
    {
        proof {
            use_type_invariant(&*self);
        }
        match event {
            EditWorkspacePopupEvent::Saved { paths_key, name, color } => {
                let ghost s = self@.customizations;
                let ghost c = CustomizationView { custom_name: opt_view(name), custom_color: color };
                let ghost key = paths_key@;
                let customization = WorkspaceCustomization { custom_name: name, custom_color: color };
                proof {
                    assert(s == store_view(self.customizations@));
                }
                let mut store: Vec<(String, WorkspaceCustomization)> = Vec::new();
                proof {
                    assert(store_view(store@) =~= Seq::empty());
                }
                std::mem::swap(&mut store, &mut self.customizations);
                insert_customization(&mut store, paths_key, customization);
                self.customizations = store;
                proof {
                    assert(self@.customizations == store_view(self.customizations@));
                }
                let ghost saved = self@;
                let entries = self.build_entries(snapshots);
                proof {
                    let built = entry_views(entries@);
                    assert forall|i: int| 0 <= i < built.len() implies #[trigger] built[i].index
                        == i by {
                        assert(built.len() == snapshots.len());
                    }
                }
                self.entries = entries;
                proof {
                    let new = self@.entries;
                    assert forall|i: int| 0 <= i < new.len() implies #[trigger] new[i].index == i by {
                assert(new.len() == snapshots.len());
            }
                    assert(self@.customizations == saved.customizations);
                    assert(saved.test_thread_statuses == old(self)@.test_thread_statuses);
                    assert(saved.notified_workspaces == old(self)@.notified_workspaces);
                    assert(saved.active_workspace_index == old(self)@.active_workspace_index);
                    assert forall|k: Seq<char>| #[trigger]
                        self@.customization(k) == (if k == key {
                            Some(c)
                        } else {
                            old(self)@.customization(k)
                        }) by {
                        assert(self@.customization(k) == saved.customization(k));
                    }
                    assert(self@.entries == built_entries(
                        snapshot_views(snapshots@),
                        self@.customizations,
                        old(self)@.test_thread_statuses,
                    ));
                }
            },
        }
    }

    /// The popup for editing workspace `index`, whose worktrees the host read
    /// into `workspace` (`None` when there is no workspace at `index`).
    pub fn edit_popup_for(&self, index: usize, workspace: Option<&WorkspaceSnapshot>) -> (res:
        Option<EditWorkspacePopup>)
        ensures
            workspace is None ==> res is None,
            workspace matches Some(w) ==> res matches Some(p) && {
                let key = paths_key(worktree_paths(w@.worktrees));
                &&& p@.paths_key == key
                &&& p@.original_name == (if index < self@.entries.len() {
                    self@.entries[index as int].label
                } else {
                    Seq::empty()
                })
                &&& p@.selected_color == (match self@.customization(key) {
                    Some(c) => c.custom_color,
                    None => None,
                })
            },
    {
        proof {
            use_type_invariant(&*self);
        }
        match workspace {
            None => None,
            Some(w) => {
                let key = snapshot_paths_key(w);
                let current_label = if index < self.entries.len() {
                    self.entries[index].label.clone()
                } else {
                    String::new()
                };
                let current_color = match self.customization(&key) {
                    Some(c) => c.custom_color,
                    None => None,
                };
                Some(EditWorkspacePopup::new(key, current_label.as_str(), current_color))
            },
        }
    }

    /// The items of the context menu of a workspace icon: removing is offered
    /// only when there is more than one workspace.
    pub fn context_menu_items(&self) -> (res: Vec<ContextMenuItem>)
        ensures
            res@ == (if self@.entries.len() > 1 {
                seq![ContextMenuItem::EditWorkspace, ContextMenuItem::RemoveWorkspace]
            } else {
                seq![ContextMenuItem::EditWorkspace]
            }),
    {
        proof {
            use_type_invariant(&*self);
        }
        let mut items: Vec<ContextMenuItem> = Vec::new();
        items.push(ContextMenuItem::EditWorkspace);
        if self.entries.len() > 1 {
            items.push(ContextMenuItem::RemoveWorkspace);
        }
        proof {
            if self@.entries.len() > 1 {
                assert(items@ =~= seq![
                    ContextMenuItem::EditWorkspace,
                    ContextMenuItem::RemoveWorkspace,
                ]);
            } else {
                assert(items@ =~= seq![ContextMenuItem::EditWorkspace]);
            }
        }
        items
    }

    /// What the icon of the entry at `position` shows.
    pub fn project_icon(&self, position: usize) -> (res: ProjectIcon)
        requires
            position < self@.entries.len(),
        ensures
            res@ == self@.icon(position as int),
            match self@.entries[position as int].custom_color {
                Some(c) => res@.color == IconColor::Custom(c),
                None => res@.color is Hue,
            },
    {
        proof {
            use_type_invariant(&*self);
        }
        let entry = &self.entries[position];
        let index = entry.index;
        let tooltip_meta = if entry.full_path.as_str().is_empty() {
            let s = "Not connected".to_owned();
            proof {
                reveal_strlit("Not connected");
                assert("Not connected"@ == not_connected());
            }
            s
        } else {
            entry.full_path.clone()
        };
        let color = match entry.custom_color {
            Some(c) => IconColor::Custom(c),
            None => IconColor::Hue(deterministic_hue(entry.label.as_str())),
        };
        ProjectIcon {
            index,
            is_active: index == self.active_workspace_index,
            has_notification: self.notified_workspaces.contains(&index),
            initials: entry.initials.clone(),
            label: entry.label.clone(),
            tooltip_meta,
            color,
        }
    }

    /// The icons of all entries, in order.
    pub fn project_icons(&self) -> (res: Vec<ProjectIcon>)
        ensures
            res@.len() == self@.entries.len(),
            forall|i: int| 0 <= i < res@.len() ==> (#[trigger] res@[i])@ == self@.icon(i),
            forall|i: int|
                0 <= i < res@.len() ==> match self@.entries[i].custom_color {
                    Some(c) => (#[trigger] res@[i])@.color == IconColor::Custom(c),
                    None => res@[i]@.color is Hue,
                },
    {
        proof {
            use_type_invariant(&*self);
        }
        let mut res: Vec<ProjectIcon> = Vec::new();
        let mut i: usize = 0;
        while i < self.entries.len()
            invariant
                i <= self.entries.len(),
                res@.len() == i,
                forall|k: int| 0 <= k < i ==> (#[trigger] res@[k])@ == self@.icon(k),
            decreases self.entries.len() - i,
        {
            proof {
                assert(self@.entries.len() == self.entries.len());
            }
            let icon = self.project_icon(i);
            res.push(icon);
            i = i + 1;
        }
        res
    }
}

/// A thread that was running in a background workspace and has completed
/// gives that workspace a notification, unless the refresh brings it into view.
pub proof fn lemma_background_completion_notifies(
    v: SidebarView,
    new: Seq<EntryView>,
    active: usize,
    i: usize,
)
    requires
        v.wf(),
        i < v.entries.len(),
        v.entries[i as int].thread_running,
        i < new.len(),
        new[i as int].index == i,
        new[i as int].has_thread,
        !new[i as int].thread_running,
        i != v.active_workspace_index,
        active != i,
    ensures
        v.notified_after_refresh(new, active).contains(i),
{
    assert(newly_notified(v.entries, new, v.active_workspace_index).contains(i)) by {
        assert(new[i as int].index == i);
    }
}

/// The workspace in view after a refresh never carries a notification: none
/// is raised for it, and switching to a workspace clears its notification.
pub proof fn lemma_active_workspace_never_notified(v: SidebarView, new: Seq<EntryView>, active: usize)
    requires
        v.wf(),
    ensures
        !v.notified_after_refresh(new, active).contains(active),
{
    if v.active_workspace_index == active {
        assert(!newly_notified(v.entries, new, v.active_workspace_index).contains(active));
    }
}

/// A thread that is still running, or a workspace without a thread, raises no
/// notification.
pub proof fn lemma_running_thread_does_not_notify(
    v: SidebarView,
    new: Seq<EntryView>,
    active: usize,
    i: usize,
)
    requires
        v.wf(),
        !v.notified_workspaces.contains(i),
        forall|j: int|
            0 <= j < new.len() && #[trigger] new[j].index == i ==> new[j].thread_running
                || !new[j].has_thread,
    ensures
        !v.notified_after_refresh(new, active).contains(i),
{
}

/// A notification stays until its workspace comes into view.
pub proof fn lemma_notification_persists(v: SidebarView, new: Seq<EntryView>, active: usize, i: usize)
    requires
        v.wf(),
        v.notified_workspaces.contains(i),
        i != active,
    ensures
        v.notified_after_refresh(new, active).contains(i),
{
}

/// Only a thread that was running at the last refresh can raise a
/// notification: a workspace whose thread was idle, finished or absent, and
/// that had no notification, has none after the next refresh, whatever the
/// new entries say.
pub proof fn lemma_only_running_threads_notify(
    v: SidebarView,
    new: Seq<EntryView>,
    active: usize,
    i: usize,
)
    requires
        v.wf(),
        !v.notified_workspaces.contains(i),
        i >= v.entries.len() || !v.entries[i as int].thread_running,
    ensures
        !v.notified_after_refresh(new, active).contains(i),
{
}

/// An icon is drawn in the color the user chose for its workspace; without
/// one, in a hue that depends on the label alone, so two workspaces with the
/// same label and no chosen color look alike.
pub proof fn lemma_icon_color(v: SidebarView, p: int, q: int)
    requires
        0 <= p < v.entries.len(),
        0 <= q < v.entries.len(),
    ensures
        v.entries[p].custom_color matches Some(c) ==> v.icon(p).color == IconColor::Custom(c),
        v.entries[p].custom_color is None ==> v.icon(p).color is Hue,
        v.entries[p].custom_color is None && v.entries[q].custom_color is None
            && v.entries[p].label == v.entries[q].label ==> v.icon(p).color == v.icon(q).color,
{
}

} // verus!
