//! State of the interactive file browser: the file list and selection
//! cursor, the status line, the upload mode, and the mapping from key
//! presses to actions.  Rendering and terminal I/O live outside; this state
//! is what they read.

use vstd::prelude::*;

use crate::entries::FileEntry;
use vstd::string::StringExecFns;

verus! {

/// The browser's two modes: navigating the listing, or waiting on the
/// external file picker during an upload.
#[derive(Debug, PartialEq, Eq, Structural)]
pub enum AppMode {
    Normal,
    Uploading,
}

impl Clone for AppMode {
    /// Clones preserve the mode.
    fn clone(&self) -> (r: Self)
        ensures
            r == *self,
    {
        match self {
            AppMode::Normal => AppMode::Normal,
            AppMode::Uploading => AppMode::Uploading,
        }
    }
}

/// What one key press asks of the event loop.
#[derive(Debug, Clone, Copy, PartialEq, Eq, Structural)]
pub enum UiAction {
    SelectNext,
    SelectPrev,
    Refresh,
    Delete,
    Download,
    Upload,
    Quit,
    Idle,
}

/// The action bound to a key: `j`/`k` move the selection, `r` refreshes,
/// `X` deletes, `d` downloads, `U` uploads, `q` quits, and every other key
/// does nothing.
pub open spec fn spec_key_action(c: char) -> UiAction {
    if c == 'j' {
        UiAction::SelectNext
    } else if c == 'k' {
        UiAction::SelectPrev
    } else if c == 'r' {
        UiAction::Refresh
    } else if c == 'X' {
        UiAction::Delete
    } else if c == 'd' {
        UiAction::Download
    } else if c == 'U' {
        UiAction::Upload
    } else if c == 'q' {
        UiAction::Quit
    } else {
        UiAction::Idle
    }
}

/// Maps a pressed character key to its action.
pub fn key_action(c: char) -> (r: UiAction)
    ensures
        r == spec_key_action(c),
{
    if c == 'j' {
        UiAction::SelectNext
    } else if c == 'k' {
        UiAction::SelectPrev
    } else if c == 'r' {
        UiAction::Refresh
    } else if c == 'X' {
        UiAction::Delete
    } else if c == 'd' {
        UiAction::Download
    } else if c == 'U' {
        UiAction::Upload
    } else if c == 'q' {
        UiAction::Quit
    } else {
        UiAction::Idle
    }
}

/// The browser state: the listed files, the selection cursor, an optional
/// status message, the mode, and the local path picked for upload.
pub struct App {
    files: Vec<FileEntry>,
    selected_index: usize,
    status_message: Option<String>,
    mode: AppMode,
    selected_file_path: Option<String>,
}

impl App {
    /// The listed files.
    pub closed spec fn spec_files(&self) -> Seq<FileEntry> {
        self.files@
    }

    /// The selection cursor.
    pub closed spec fn spec_selected(&self) -> usize {
        self.selected_index
    }

    /// The status line, when one is shown.
    pub closed spec fn spec_status(&self) -> Option<String> {
        self.status_message
    }

    /// The mode.
    pub closed spec fn spec_mode(&self) -> AppMode {
        self.mode
    }

    /// The local path picked for upload, while one is pending.
    pub closed spec fn spec_file_path(&self) -> Option<String> {
        self.selected_file_path
    }

    /// The cursor always rests on a file: within the list when there is
    /// one, and at zero over an empty list.
    pub open spec fn wf(&self) -> bool {
        if self.spec_files().len() == 0 {
            self.spec_selected() == 0
        } else {
            self.spec_selected() < self.spec_files().len()
        }
    }

    /// A fresh browser: no files, cursor at zero, normal mode, no pending
    /// upload, and a hint to refresh as the status line.
    pub fn new() -> (r: App)
        ensures
            r.wf(),
            r.spec_files().len() == 0,
            r.spec_selected() == 0,
            r.spec_mode() == AppMode::Normal,
            r.spec_file_path() is None,
            match r.spec_status() {
                Some(m) => m@ == "Press r to refresh"@,
                None => false,
            },
    {
        App {
            files: Vec::new(),
            selected_index: 0,
            status_message: Some(String::from_str("Press r to refresh")),
            mode: AppMode::Normal,
            selected_file_path: None,
        }
    }

    /// Moves the cursor one file down, wrapping to the top; an empty list
    /// leaves everything unchanged.
    pub fn select_next(&mut self)
        requires
            old(self).wf(),
        ensures
            final(self).wf(),
            final(self).spec_files() == old(self).spec_files(),
            final(self).spec_status() == old(self).spec_status(),
            final(self).spec_mode() == old(self).spec_mode(),
            final(self).spec_file_path() == old(self).spec_file_path(),
            final(self).spec_selected() == if old(self).spec_files().len() == 0 {
                0usize
            } else {
                (((old(self).spec_selected() + 1) as int) % (old(self).spec_files().len() as int))
                    as usize
            },
    {
        if !self.files.is_empty() {
            let len = self.files.len();
            self.selected_index = (self.selected_index + 1) % len;
        }
    }

    /// Moves the cursor one file up, wrapping to the bottom; an empty list
    /// leaves everything unchanged.
    pub fn select_prev(&mut self)
        requires
            old(self).wf(),
        ensures
            final(self).wf(),
            final(self).spec_files() == old(self).spec_files(),
            final(self).spec_status() == old(self).spec_status(),
            final(self).spec_mode() == old(self).spec_mode(),
            final(self).spec_file_path() == old(self).spec_file_path(),
            final(self).spec_selected() == if old(self).spec_files().len() == 0 {
                0usize
            } else if old(self).spec_selected() == 0 {
                (old(self).spec_files().len() - 1) as usize
            } else {
                (old(self).spec_selected() - 1) as usize
            },
    {
        if !self.files.is_empty() {
            match self.selected_index {
                0 => self.selected_index = self.files.len() - 1,
                _ => self.selected_index = self.selected_index - 1,
            }
        }
    }

    /// Replaces the file list with a fresh listing; the cursor keeps its
    /// place when it still points into the new list, and otherwise moves to
    /// the last file (or to zero when the new list is empty).
    pub fn update_files(&mut self, new_files: Vec<FileEntry>)
        requires
            old(self).wf(),
        ensures
            final(self).wf(),
            final(self).spec_files() == new_files@,
            final(self).spec_status() == old(self).spec_status(),
            final(self).spec_mode() == old(self).spec_mode(),
            final(self).spec_file_path() == old(self).spec_file_path(),
            final(self).spec_selected() == if old(self).spec_selected() < new_files@.len() {
                old(self).spec_selected()
            } else if new_files@.len() == 0 {
                0usize
            } else {
                (new_files@.len() - 1) as usize
            },
    {
        self.files = new_files;
        if self.selected_index >= self.files.len() {
            if self.files.is_empty() {
                self.selected_index = 0;
            } else {
                self.selected_index = self.files.len() - 1;
            }
        }
    }

    /// Shows a status message.
    pub fn set_status(&mut self, message: String)
        ensures
            final(self).spec_status() == Some(message),
            final(self).spec_files() == old(self).spec_files(),
            final(self).spec_selected() == old(self).spec_selected(),
            final(self).spec_mode() == old(self).spec_mode(),
            final(self).spec_file_path() == old(self).spec_file_path(),
            old(self).wf() ==> final(self).wf(),
    {
        self.status_message = Some(message);
    }

    /// Clears the status line.
    pub fn clear_status(&mut self)
        ensures
            final(self).spec_status() is None,
            final(self).spec_files() == old(self).spec_files(),
            final(self).spec_selected() == old(self).spec_selected(),
            final(self).spec_mode() == old(self).spec_mode(),
            final(self).spec_file_path() == old(self).spec_file_path(),
            old(self).wf() ==> final(self).wf(),
    {
        self.status_message = None;
    }

    /// The listed files.
    pub fn files(&self) -> (r: &Vec<FileEntry>)
        ensures
            r@ == self.spec_files(),
    {
        &self.files
    }

    /// The selection cursor.
    pub fn selected_index(&self) -> (r: usize)
        ensures
            r == self.spec_selected(),
    {
        self.selected_index
    }

    /// The status line, when one is shown.
    pub fn status_message(&self) -> (r: &Option<String>)
        ensures
            *r == self.spec_status(),
    {
        &self.status_message
    }

    /// The file under the cursor: present exactly when the list is
    /// non-empty.
    pub fn selected_file(&self) -> (r: Option<&FileEntry>)
        requires
            self.wf(),
        ensures
            match r {
                Some(e) => self.spec_files().len() > 0 && *e == self.spec_files()[self.spec_selected() as int],
                None => self.spec_files().len() == 0,
            },
    {
        if self.selected_index < self.files.len() {
            Some(&self.files[self.selected_index])
        } else {
            None
        }
    }

    /// Remembers the local path picked for upload.
    pub fn set_file_for_upload(&mut self, path: String)
        ensures
            final(self).spec_file_path() == Some(path),
            final(self).spec_files() == old(self).spec_files(),
            final(self).spec_selected() == old(self).spec_selected(),
            final(self).spec_status() == old(self).spec_status(),
            final(self).spec_mode() == old(self).spec_mode(),
            old(self).wf() ==> final(self).wf(),
    {
        self.selected_file_path = Some(path);
    }

    /// Forgets the picked upload path.
    pub fn clear_file_path(&mut self)
        ensures
            final(self).spec_file_path() is None,
            final(self).spec_files() == old(self).spec_files(),
            final(self).spec_selected() == old(self).spec_selected(),
            final(self).spec_status() == old(self).spec_status(),
            final(self).spec_mode() == old(self).spec_mode(),
            old(self).wf() ==> final(self).wf(),
    {
        self.selected_file_path = None;
    }

    /// The picked upload path, while one is pending.
    pub fn selected_file_path(&self) -> (r: &Option<String>)
        ensures
            *r == self.spec_file_path(),
    {
        &self.selected_file_path
    }

    /// The mode.
    pub fn mode(&self) -> (r: &AppMode)
        ensures
            *r == self.spec_mode(),
    {
        &self.mode
    }

    /// Switches the mode.
    pub fn set_mode(&mut self, mode: AppMode)
        ensures
            final(self).spec_mode() == mode,
            final(self).spec_files() == old(self).spec_files(),
            final(self).spec_selected() == old(self).spec_selected(),
            final(self).spec_status() == old(self).spec_status(),
            final(self).spec_file_path() == old(self).spec_file_path(),
            old(self).wf() ==> final(self).wf(),
    {
        self.mode = mode;
    }

    /// Whether an upload's file picker is pending.
    pub fn is_uploading(&self) -> (r: bool)
        ensures
            r == (self.spec_mode() == AppMode::Uploading),
    {
        matches!(self.mode, AppMode::Uploading)
    }
}

} // verus!
