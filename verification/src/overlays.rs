//! The dialogs and overlays that can stand over the main screens, and
//! which of them the Escape key closes.

use crate::model::ViewMode;
use vstd::prelude::*;

verus! {

/// One of the overlays, in the order the screen stacks them: the first
/// open one in this order is the one drawn, on top.
#[derive(Debug, Clone, Copy, PartialEq, Eq, Structural)]
pub enum Overlay {
    TagEditing,
    Detail,
    PermanentDelete,
    ImportBackup,
    Import,
    TagDelete,
}

/// Which overlays are open.
pub struct Overlays {
    /// The gif whose tags are being edited in the detail view.
    pub editing_tags_for: Option<i64>,
    /// The gif shown in the detail view.
    pub detail_gif_id: Option<i64>,
    /// The backup archive waiting for the user to confirm restoring it.
    pub pending_import_zip: Option<String>,
    /// Whether the import dialog is open.
    pub show_import_modal: bool,
    /// The gif waiting for the user to confirm deleting it for good.
    pub pending_permanent_delete: Option<i64>,
    /// The tag waiting for the user to confirm deleting it outright.
    pub pending_tag_delete: Option<String>,
}

impl Overlays {
    /// The overlay on top, if any: see [`Overlay`].
    pub open spec fn topmost(&self) -> Option<Overlay> {
        if self.editing_tags_for is Some {
            Some(Overlay::TagEditing)
        } else if self.detail_gif_id is Some {
            Some(Overlay::Detail)
        } else if self.pending_permanent_delete is Some {
            Some(Overlay::PermanentDelete)
        } else if self.pending_import_zip is Some {
            Some(Overlay::ImportBackup)
        } else if self.show_import_modal {
            Some(Overlay::Import)
        } else if self.pending_tag_delete is Some {
            Some(Overlay::TagDelete)
        } else {
            None
        }
    }

    /// Nothing open.
    pub fn new() -> (r: Overlays)
        ensures
            r.topmost() is None,
            r.editing_tags_for is None,
    {
        Overlays {
            editing_tags_for: None,
            detail_gif_id: None,
            pending_import_zip: None,
            show_import_modal: false,
            pending_permanent_delete: None,
            pending_tag_delete: None,
        }
    }

    /// Whether a dialog that takes the keyboard is open: the detail view,
    /// the backup confirmation, the import dialog or one of the delete
    /// confirmations. (Tag editing happens inside the detail view.)
    pub fn any_modal_open(&self) -> (r: bool)
        ensures
            r == (self.detail_gif_id is Some || self.pending_import_zip is Some
                || self.show_import_modal || self.pending_permanent_delete is Some
                || self.pending_tag_delete is Some),
    {
        self.detail_gif_id.is_some() || self.pending_import_zip.is_some() || self.show_import_modal
            || self.pending_permanent_delete.is_some() || self.pending_tag_delete.is_some()
    }

    /// Closes the overlay on top and returns which it was; the others stay
    /// as they were. Nothing changes when none is open.
    pub fn close_topmost_modal(&mut self) -> (closed: Option<Overlay>)
        ensures
            closed == old(self).topmost(),
            closed == Some(Overlay::TagEditing) ==> *final(self) == (Overlays {
                editing_tags_for: None,
                ..*old(self)
            }),
            closed == Some(Overlay::Detail) ==> *final(self) == (Overlays {
                detail_gif_id: None,
                ..*old(self)
            }),
            closed == Some(Overlay::ImportBackup) ==> *final(self) == (Overlays {
                pending_import_zip: None,
                ..*old(self)
            }),
            closed == Some(Overlay::Import) ==> *final(self) == (Overlays {
                show_import_modal: false,
                ..*old(self)
            }),
            closed == Some(Overlay::PermanentDelete) ==> *final(self) == (Overlays {
                pending_permanent_delete: None,
                ..*old(self)
            }),
            closed == Some(Overlay::TagDelete) ==> *final(self) == (Overlays {
                pending_tag_delete: None,
                ..*old(self)
            }),
            closed is None ==> *final(self) == *old(self),
    {
        if self.editing_tags_for.is_some() {
            self.editing_tags_for = None;
            Some(Overlay::TagEditing)
        } else if self.detail_gif_id.is_some() {
            self.detail_gif_id = None;
            Some(Overlay::Detail)
        } else if self.pending_permanent_delete.is_some() {
            self.pending_permanent_delete = None;
            Some(Overlay::PermanentDelete)
        } else if self.pending_import_zip.is_some() {
            self.pending_import_zip = None;
            Some(Overlay::ImportBackup)
        } else if self.show_import_modal {
            self.show_import_modal = false;
            Some(Overlay::Import)
        } else if self.pending_tag_delete.is_some() {
            self.pending_tag_delete = None;
            Some(Overlay::TagDelete)
        } else {
            None
        }
    }
}

/// The events the app listens to.
#[derive(Debug, Clone, Copy, PartialEq, Eq, Structural)]
pub struct Subscriptions {
    /// The animation and toast clock.
    pub tick: bool,
    /// The Tab key, to accept a suggested tag.
    pub tab_key: bool,
    /// The Escape key, to close the overlay on top.
    pub escape_key: bool,
}

/// What to listen to: the clock only while gifs are animating on the
/// library screen or a toast is showing, so nothing redraws in the
/// background; Tab only while there is a suggestion to accept (in the open
/// tag editor, or else in the library's search box with no dialog open),
/// so Tab otherwise moves focus as usual; Escape while a dialog is open.
pub fn wanted_subscriptions(
    view_mode: ViewMode,
    visible_count: usize,
    toast_showing: bool,
    tag_editor_open: bool,
    editor_suggestion: bool,
    search_suggestion: bool,
    modal_open: bool,
) -> (r: Subscriptions)
    ensures
        r.tick == ((view_mode == ViewMode::Library && visible_count > 0) || toast_showing),
        r.tab_key == if tag_editor_open {
            editor_suggestion
        } else {
            view_mode == ViewMode::Library && !modal_open && search_suggestion
        },
        r.escape_key == modal_open,
{
    let animating = view_mode == ViewMode::Library && visible_count > 0;
    let tab_key = if tag_editor_open {
        editor_suggestion
    } else {
        view_mode == ViewMode::Library && !modal_open && search_suggestion
    };
    Subscriptions { tick: animating || toast_showing, tab_key, escape_key: modal_open }
}

/// How long a toast message stays on screen, in milliseconds.
pub const TOAST_DURATION_MS: u64 = 2200;

/// Whether the toast goes away on this tick: `shown_for_ms` is how long the
/// current toast has been on screen (`None` when there is none), and it
/// goes once it has been shown for [`TOAST_DURATION_MS`] or longer.
pub fn toast_expired(shown_for_ms: Option<u64>) -> (expired: bool)
    ensures
        expired == (shown_for_ms matches Some(ms) && ms >= TOAST_DURATION_MS),
{
    match shown_for_ms {
        Some(ms) => ms >= TOAST_DURATION_MS,
        None => false,
    }
}

} // verus!
