# workspace_sidebar

The state and rules behind a window that holds several workspaces and the
sidebar that switches between them, written in Verus and verified.

- `src/multi_workspace.rs`: the workspaces of a window, the active one, the
  crossfade between them, the sidebar's open state, and the effects every
  change asks the host to perform (focus, persistence, redraw, flags on the
  workspaces).
- `src/sidebar.rs`: the sidebar's entries, the notifications raised when an
  agent thread finishes in a workspace the user is not looking at, the user's
  names and colors for workspaces, the edit popup, the context menu and the
  icons.
- `src/workspace_entry.rs`: what the sidebar shows for one workspace (label,
  initials, full path, color, thread state) and the key its customization is
  saved under.
- `src/text.rs`: whitespace words, initials, trimming, joining, and the byte
  order of strings.
- `app/`: the views that draw all this with the editor's UI toolkit, read the
  workspaces into plain values, and store customizations as JSON.
- `tests/`: scenarios run against the compiled library.
