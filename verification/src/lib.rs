//! The state and rules of a window that holds several workspaces and of the
//! sidebar that switches between them, verified with Verus.
//!
//! - `multi_workspace`: which workspaces the window holds, which one is
//!   active, the sidebar's open state, and the effects each change asks for.
//! - `sidebar`: the sidebar's entries, notifications, customizations, edit
//!   popup and icons.
//! - `workspace_entry`: what the sidebar shows for one workspace.
//! - `text`: words, initials, trimming, joining and the byte order of strings.

pub mod multi_workspace;
pub mod sidebar;
pub mod text;
pub mod workspace_entry;
