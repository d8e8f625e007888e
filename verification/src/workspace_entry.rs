//! What the sidebar shows for one workspace: its label, initials, full path,
//! color and agent thread state, derived from what the host reads of the
//! workspace and from the user's saved customization.
use vstd::prelude::*;

use crate::text::{
    compute_initials, decimal, decimal_string, initials, join, join_strings,
    lemma_sorted_strings_order_independent, sort_strings, sorted_strings, views,
};

verus! {

/// The state of the agent thread of a workspace.
#[derive(Clone, Copy, Debug, PartialEq, Eq, Structural)]
pub enum AgentThreadStatus {
    Running,
    Completed,
}

/// The agent thread of a workspace, as shown in the sidebar.
#[derive(Debug)]
pub struct AgentThreadInfo {
    pub title: String,
    pub status: AgentThreadStatus,
}

impl AgentThreadInfo {
    /// A thread that is generating runs; an idle one has completed.
    pub fn status_of(generating: bool) -> (res: AgentThreadStatus)
        ensures
            res == (if generating {
                AgentThreadStatus::Running
            } else {
                AgentThreadStatus::Completed
            }),
    {
        if generating {
            AgentThreadStatus::Running
        } else {
            AgentThreadStatus::Completed
        }
    }
}

/// An HSLA color, held as the bit patterns of its four `f32` components.
#[derive(Clone, Copy, Debug, PartialEq, Eq, Structural)]
pub struct ColorBits {
    pub h: u32,
    pub s: u32,
    pub l: u32,
    pub a: u32,
}

/// A user's name and color for the workspace that has a given set of paths.
#[derive(Debug)]
pub struct WorkspaceCustomization {
    pub custom_name: Option<String>,
    pub custom_color: Option<ColorBits>,
}

pub struct CustomizationView {
    pub custom_name: Option<Seq<char>>,
    pub custom_color: Option<ColorBits>,
}

pub open spec fn opt_view(o: Option<String>) -> Option<Seq<char>> {
    match o {
        Some(s) => Some(s@),
        None => None,
    }
}

impl View for WorkspaceCustomization {
    type V = CustomizationView;

    open spec fn view(&self) -> CustomizationView {
        CustomizationView { custom_name: opt_view(self.custom_name), custom_color: self.custom_color }
    }
}

/// One visible worktree of a workspace: its absolute path and the last
/// component of that path, if it has one.
#[derive(Debug)]
pub struct WorktreeInfo {
    pub abs_path: String,
    pub file_name: Option<String>,
}

pub struct WorktreeView {
    pub abs_path: Seq<char>,
    pub file_name: Option<Seq<char>>,
}

impl View for WorktreeInfo {
    type V = WorktreeView;

    open spec fn view(&self) -> WorktreeView {
        WorktreeView { abs_path: self.abs_path@, file_name: opt_view(self.file_name) }
    }
}

/// What the host reads of one workspace for the sidebar.
#[derive(Debug)]
pub struct WorkspaceSnapshot {
    /// The visible worktrees, in the workspace's order.
    pub visible_worktrees: Vec<WorktreeInfo>,
    /// The active agent thread, if the workspace has one.
    pub thread: Option<AgentThreadInfo>,
}

pub struct SnapshotView {
    pub worktrees: Seq<WorktreeView>,
    pub thread_status: Option<AgentThreadStatus>,
}

impl View for WorkspaceSnapshot {
    type V = SnapshotView;

    open spec fn view(&self) -> SnapshotView {
        SnapshotView {
            worktrees: self.visible_worktrees@.map_values(|w: WorktreeInfo| w@),
            thread_status: match self.thread {
                Some(t) => Some(t.status),
                None => None,
            },
        }
    }
}

/// One workspace as the sidebar lists it.
#[derive(Debug)]
pub struct WorkspaceEntry {
    pub index: usize,
    pub label: String,
    pub initials: String,
    pub full_path: String,
    pub custom_color: Option<ColorBits>,
    pub has_thread: bool,
    pub thread_running: bool,
}

pub struct EntryView {
    pub index: usize,
    pub label: Seq<char>,
    pub initials: Seq<char>,
    pub full_path: Seq<char>,
    pub custom_color: Option<ColorBits>,
    pub has_thread: bool,
    pub thread_running: bool,
}

impl View for WorkspaceEntry {
    type V = EntryView;

    open spec fn view(&self) -> EntryView {
        EntryView {
            index: self.index,
            label: self.label@,
            initials: self.initials@,
            full_path: self.full_path@,
            custom_color: self.custom_color,
            has_thread: self.has_thread,
            thread_running: self.thread_running,
        }
    }
}

/// ", "
pub open spec fn comma_space() -> Seq<char> {
    seq![',', ' ']
}

/// "\n"
pub open spec fn newline() -> Seq<char> {
    seq!['\n']
}

/// "Workspace "
pub open spec fn workspace_prefix() -> Seq<char> {
    seq!['W', 'o', 'r', 'k', 's', 'p', 'a', 'c', 'e', ' ']
}

/// The absolute paths of the worktrees, in order.
pub open spec fn worktree_paths(wts: Seq<WorktreeView>) -> Seq<Seq<char>> {
    wts.map_values(|w: WorktreeView| w.abs_path)
}

/// The last path components of the worktrees that have one, in order.
pub open spec fn worktree_names(wts: Seq<WorktreeView>) -> Seq<Seq<char>>
    decreases wts.len(),
{
    if wts.len() == 0 {
        Seq::empty()
    } else {
        let rest = worktree_names(wts.drop_last());
        match wts.last().file_name {
            Some(n) => rest.push(n),
            None => rest,
        }
    }
}

/// The key under which a workspace's customization is saved: its worktree
/// paths in sorted order, one per line.
pub open spec fn paths_key(paths: Seq<Seq<char>>) -> Seq<char> {
    join(sorted_strings(paths), newline())
}

/// The label a workspace gets without a custom name: its worktree names
/// separated by ", ", or "Workspace N" (counting from 1) when it has none.
pub open spec fn derived_label(index: nat, names: Seq<Seq<char>>) -> Seq<char> {
    if names.len() == 0 {
        workspace_prefix() + decimal(index + 1)
    } else {
        join(names, comma_space())
    }
}

/// The custom name if one is saved, else the derived label.
pub open spec fn entry_label(
    index: nat,
    names: Seq<Seq<char>>,
    customization: Option<CustomizationView>,
) -> Seq<char> {
    match customization {
        Some(c) => match c.custom_name {
            Some(n) => n,
            None => derived_label(index, names),
        },
        None => derived_label(index, names),
    }
}

/// The entry for the workspace at `index`.
pub open spec fn entry_of(
    index: usize,
    snapshot: SnapshotView,
    customization: Option<CustomizationView>,
) -> EntryView {
    let label = entry_label(index as nat, worktree_names(snapshot.worktrees), customization);
    EntryView {
        index: index,
        label: label,
        initials: initials(label),
        full_path: join(worktree_paths(snapshot.worktrees), newline()),
        custom_color: match customization {
            Some(c) => c.custom_color,
            None => None,
        },
        has_thread: snapshot.thread_status is Some,
        thread_running: snapshot.thread_status == Some(AgentThreadStatus::Running),
    }
}

/// The absolute paths of the worktrees, in order.
fn worktree_path_strings(wts: &Vec<WorktreeInfo>) -> (res: Vec<String>)
    ensures
        views(res@) == worktree_paths(wts@.map_values(|w: WorktreeInfo| w@)),
{
    let ghost wv = wts@.map_values(|w: WorktreeInfo| w@);
    let mut res: Vec<String> = Vec::new();
    let mut i: usize = 0;
    while i < wts.len()
        invariant
            i <= wts.len(),
            wv == wts@.map_values(|w: WorktreeInfo| w@),
            views(res@) == worktree_paths(wv.take(i as int)),
        decreases wts.len() - i,
    {
        let ghost before = res@;
        let p = wts[i].abs_path.clone();
        res.push(p);
        proof {
            assert(wv[i as int] == wts@[i as int]@);
            assert(res@ == before.push(p));
            assert(views(res@) =~= views(before).push(p@));
            assert(wv.take(i + 1) == wv.take(i as int).push(wv[i as int]));
            assert(views(res@) =~= worktree_paths(wv.take(i + 1)));
        }
        i = i + 1;
    }
    proof {
        assert(wv.take(wts.len() as int) == wv);
    }
    res
}

/// The last path components of the worktrees that have one, in order.
fn worktree_name_strings(wts: &Vec<WorktreeInfo>) -> (res: Vec<String>)
    ensures
        views(res@) == worktree_names(wts@.map_values(|w: WorktreeInfo| w@)),
{
    let ghost wv = wts@.map_values(|w: WorktreeInfo| w@);
    let mut res: Vec<String> = Vec::new();
    let mut i: usize = 0;
    while i < wts.len()
        invariant
            i <= wts.len(),
            wv == wts@.map_values(|w: WorktreeInfo| w@),
            views(res@) == worktree_names(wv.take(i as int)),
        decreases wts.len() - i,
    {
        proof {
            assert(wv.take(i + 1).drop_last() == wv.take(i as int));
            assert(wv.take(i + 1).last() == wts@[i as int]@);
        }
        match &wts[i].file_name {
            Some(name) => {
                res.push(name.clone());
                proof {
                    assert(views(res@) =~= worktree_names(wv.take(i as int)).push(name@));
                }
            },
            None => {},
        }
        i = i + 1;
    }
    proof {
        assert(wv.take(wts.len() as int) == wv);
    }
    res
}

/// The key under which the customization of a workspace with these worktree
/// paths is saved: the paths sorted, one per line.
pub fn workspace_paths_key(paths: &Vec<String>) -> (res: String)
    ensures
        res@ == paths_key(views(paths@)),
{
    let sorted = sort_strings(paths);
    let res = join_strings(&sorted, "\n");
    proof {
        reveal_strlit("\n");
        assert("\n"@ == newline());
    }
    res
}

/// The key of a workspace as the host reads it.
pub fn snapshot_paths_key(snapshot: &WorkspaceSnapshot) -> (res: String)
    ensures
        res@ == paths_key(worktree_paths(snapshot@.worktrees)),
{
    let paths = worktree_path_strings(&snapshot.visible_worktrees);
    workspace_paths_key(&paths)
}

impl WorkspaceEntry {
    /// The entry for the workspace at `index`, with the customization saved
    /// under its paths key, if any.
    pub fn new(
        index: usize,
        snapshot: &WorkspaceSnapshot,
        customization: Option<&WorkspaceCustomization>,
    ) -> (res: Self)
        ensures
            res@ == entry_of(
                index,
                snapshot@,
                match customization {
                    Some(c) => Some(c@),
                    None => None,
                },
            ),
    {
        let names = worktree_name_strings(&snapshot.visible_worktrees);
        let paths = worktree_path_strings(&snapshot.visible_worktrees);
        let derived = if names.len() == 0 {
            let mut s = "Workspace ".to_owned();
            let n = decimal_string(index as u128 + 1);
            s.append(n.as_str());
            proof {
                reveal_strlit("Workspace ");
                assert("Workspace "@ == workspace_prefix());
            }
            s
        } else {
            let s = join_strings(&names, ", ");
            proof {
                reveal_strlit(", ");
                assert(", "@ == comma_space());
            }
            s
        };
        let label = match customization {
            Some(c) => match &c.custom_name {
                Some(n) => n.clone(),
                None => derived,
            },
            None => derived,
        };
        let full_path = join_strings(&paths, "\n");
        proof {
            reveal_strlit("\n");
            assert("\n"@ == newline());
        }
        let initials = compute_initials(label.as_str());
        let custom_color = match customization {
            Some(c) => c.custom_color,
            None => None,
        };
        let has_thread = snapshot.thread.is_some();
        let thread_running = match &snapshot.thread {
            Some(info) => info.status == AgentThreadStatus::Running,
            None => false,
        };
        WorkspaceEntry {
            index,
            label,
            initials,
            full_path,
            custom_color,
            has_thread,
            thread_running,
        }
    }
}

/// The 31-multiplicative hash of `bytes`, modulo 2^32, folded from the left.
pub open spec fn name_hash(bytes: Seq<u8>) -> nat
    decreases bytes.len(),
{
    if bytes.len() == 0 {
        0
    } else {
        ((name_hash(bytes.drop_last()) * 31 + bytes.last()) % 0x1_0000_0000) as nat
    }
}

/// The hue, in whole degrees, of the color a workspace named `name` gets
/// when it has no custom color: the hash of its UTF-8 bytes modulo 360.
pub fn deterministic_hue(name: &str) -> (res: u32)
    ensures
        res as nat == name_hash(vstd::utf8::encode_utf8(name@)) % 360,
{
    let bytes = name.as_bytes();
    let ghost bs = vstd::utf8::encode_utf8(name@);
    let mut hash: u32 = 0;
    let mut i: usize = 0;
    while i < bytes.len()
        invariant
            bytes@ == bs,
            i <= bytes.len(),
            hash as nat == name_hash(bs.take(i as int)),
        decreases bytes.len() - i,
    {
        let b = bytes[i];
        let ghost h = hash as int;
        let next = hash.wrapping_mul(31).wrapping_add(b as u32);
        proof {
            let t = bs.take(i + 1);
            assert(t.drop_last() == bs.take(i as int));
            assert(t.last() == b);
            lemma_hash_step(h, b as int);
        }
        hash = next;
        i = i + 1;
    }
    proof {
        assert(bs.take(bytes.len() as int) == bs);
    }
    hash % 360
}

proof fn lemma_hash_step(h: int, b: int)
    requires
        0 <= h < 0x1_0000_0000,
        0 <= b < 256,
    ensures
        ({
            let m = (h * 31) % 0x1_0000_0000;
            let s = if m + b > u32::MAX { m + b - 0x1_0000_0000 } else { m + b };
            s == (h * 31 + b) % 0x1_0000_0000
        }),
{
    let big: int = 0x1_0000_0000;
    let m = (h * 31) % big;
    vstd::arithmetic::div_mod::lemma_add_mod_noop(h * 31, b, big);
    vstd::arithmetic::div_mod::lemma_small_mod(b as nat, big as nat);
    vstd::arithmetic::div_mod::lemma_mod_bound(h * 31, big);
    if m + b >= big {
        vstd::arithmetic::div_mod::lemma_mod_add_multiples_vanish(m + b - big, big);
        vstd::arithmetic::div_mod::lemma_small_mod((m + b - big) as nat, big as nat);
    } else {
        vstd::arithmetic::div_mod::lemma_small_mod((m + b) as nat, big as nat);
    }
}

/// The key a workspace's customization is saved under does not depend on the
/// order in which its worktrees are listed.
pub proof fn lemma_paths_key_order_independent(p: Seq<Seq<char>>, q: Seq<Seq<char>>)
    requires
        p.to_multiset() == q.to_multiset(),
    ensures
        paths_key(p) == paths_key(q),
{
    lemma_sorted_strings_order_independent(p, q);
}

/// Whether a customization leaves the label to be derived from the worktrees.
pub open spec fn keeps_derived_label(customization: Option<CustomizationView>) -> bool {
    match customization {
        Some(c) => c.custom_name is None,
        None => true,
    }
}

/// Without a custom name, a workspace with one named worktree is labelled
/// with that name.
pub proof fn lemma_label_of_one_worktree(
    index: usize,
    s: SnapshotView,
    w: WorktreeView,
    n: Seq<char>,
    customization: Option<CustomizationView>,
)
    requires
        s.worktrees == seq![w],
        w.file_name == Some(n),
        keeps_derived_label(customization),
    ensures
        entry_of(index, s, customization).label == n,
{
    assert(s.worktrees.drop_last() =~= Seq::<WorktreeView>::empty());
    assert(worktree_names(Seq::<WorktreeView>::empty()) == Seq::<Seq<char>>::empty());
    assert(s.worktrees.last() == w);
    assert(worktree_names(s.worktrees) == Seq::<Seq<char>>::empty().push(n));
    assert(worktree_names(s.worktrees) =~= seq![n]);
}

/// Without a custom name, the label lists every worktree name in order,
/// separated by ", ": one more named worktree appends ", " and its name.
pub proof fn lemma_label_lists_worktree_names(
    index: usize,
    s: SnapshotView,
    w: WorktreeView,
    n: Seq<char>,
    customization: Option<CustomizationView>,
)
    requires
        worktree_names(s.worktrees).len() > 0,
        w.file_name == Some(n),
        keeps_derived_label(customization),
    ensures
        entry_of(index, SnapshotView { worktrees: s.worktrees.push(w), ..s }, customization).label
            == entry_of(index, s, customization).label + seq![',', ' '] + n,
{
    let names = worktree_names(s.worktrees);
    assert(s.worktrees.push(w).drop_last() =~= s.worktrees);
    assert(worktree_names(s.worktrees.push(w)) == names.push(n));
    assert(names.push(n).drop_last() =~= names);
    assert(names.push(n).len() > 1);
}

} // verus!
