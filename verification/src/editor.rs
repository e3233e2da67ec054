//! The tag editor shared by the import dialog, the detail view and bulk
//! tagging: the staged pills, the draft being typed, and the autocomplete
//! suggestion for it.

use crate::tags::{self, is_suggestion, stage_tag, stage_tags, stat_views, staged_ok, text_option};
use crate::text;
use vstd::prelude::*;
use vstd::string::*;

verus! {

broadcast use vstd::string::group_string_axioms;

/// The tag editor's state.
pub struct TagEditor {
    /// The tags staged as pills, in the order they were added.
    pub staged: Vec<String>,
    /// What is typed in the tag box and not yet staged.
    pub draft: String,
    /// The completion offered for the draft, if any.
    pub suggestion: Option<String>,
}

impl TagEditor {
    pub open spec fn staged_view(&self) -> Seq<Seq<char>> {
        text::views(self.staged@)
    }

    /// The suggestion is the right one for the draft, given the known tags.
    pub open spec fn suggests_for(&self, stats: Seq<(String, i64)>) -> bool {
        is_suggestion(stat_views(stats), self.staged_view(), self.draft@, text_option(self.suggestion))
    }

    /// An empty editor: no pills, no draft, no suggestion.
    pub fn new() -> (r: TagEditor)
        ensures
            r.staged@.len() == 0,
            r.draft@.len() == 0,
            r.suggestion is None,
    {
        TagEditor { staged: Vec::new(), draft: String::new(), suggestion: None }
    }

    /// Clears the editor, as when a dialog closes.
    pub fn reset(&mut self)
        ensures
            final(self).staged@.len() == 0,
            final(self).draft@.len() == 0,
            final(self).suggestion is None,
    {
        self.staged = Vec::new();
        self.draft = String::new();
        self.suggestion = None;
    }

    /// Recomputes the suggestion for the current draft: the most used known
    /// tag (then the first by name) whose lower-cased name starts with the
    /// trimmed, lower-cased draft and that is not staged yet.
    pub fn update_suggestion(&mut self, stats: &[(String, i64)])
        ensures
            final(self).staged == old(self).staged,
            final(self).draft == old(self).draft,
            final(self).suggests_for(stats@),
    {
        self.suggestion = tags::suggest_tag(stats, &self.staged, self.draft.as_str());
    }

    /// Typing into the tag box: every piece before the last comma is staged
    /// as a pill (trimmed; blank pieces and case-insensitive repeats
    /// skipped), the rest stays as the draft, and the suggestion follows
    /// the new draft. Well-formed pills stay well formed.
    pub fn draft_changed(&mut self, value: &str, stats: &[(String, i64)])
        ensures
            final(self).staged_view() == stage_tags(
                old(self).staged_view(),
                text::split(value@, ',').drop_last(),
            ),
            final(self).draft@ == text::split(value@, ',').last(),
            final(self).suggests_for(stats@),
            staged_ok(old(self).staged_view()) ==> staged_ok(final(self).staged_view()),
    {
        let ghost before = self.staged_view();
        let draft = tags::apply_tag_input(&mut self.staged, value);
        self.draft = draft;
        proof {
            if staged_ok(before) {
                tags::lemma_stage_tags_ok(before, text::split(value@, ',').drop_last());
            }
        }
        self.update_suggestion(stats);
    }

    /// Typing into the bulk-tag box: the value becomes the draft as it is,
    /// and the suggestion follows it.
    pub fn bulk_draft_changed(&mut self, value: String, stats: &[(String, i64)])
        ensures
            final(self).staged == old(self).staged,
            final(self).draft == value,
            final(self).suggests_for(stats@),
    {
        self.draft = value;
        self.update_suggestion(stats);
    }

    /// Stages whatever is typed as a pill (trimmed; nothing when blank or
    /// already staged ignoring ASCII case), then clears the draft and the
    /// suggestion. Well-formed pills stay well formed.
    pub fn commit_draft(&mut self)
        ensures
            final(self).staged_view() == stage_tag(old(self).staged_view(), old(self).draft@),
            final(self).draft@.len() == 0,
            final(self).suggestion is None,
            staged_ok(old(self).staged_view()) ==> staged_ok(final(self).staged_view()),
    {
        let mut draft = String::new();
        std::mem::swap(&mut draft, &mut self.draft);
        proof {
            if staged_ok(self.staged_view()) {
                tags::lemma_stage_tag_ok(self.staged_view(), draft@);
            }
        }
        tags::push_staged_tag(&mut self.staged, draft.as_str());
        self.suggestion = None;
    }

    /// Removes the pill at `index`; an index past the last pill changes
    /// nothing.
    pub fn remove_staged(&mut self, index: usize)
        ensures
            index < old(self).staged@.len() ==> final(self).staged@ == old(self).staged@.remove(
                index as int,
            ),
            index >= old(self).staged@.len() ==> final(self).staged == old(self).staged,
            final(self).draft == old(self).draft,
            final(self).suggestion == old(self).suggestion,
            staged_ok(old(self).staged_view()) ==> staged_ok(final(self).staged_view()),
    {
        if index < self.staged.len() {
            let ghost before = self.staged_view();
            self.staged.remove(index);
            assert(self.staged_view() =~= before.remove(index as int));
            proof {
                let after = self.staged_view();
                assert forall|i: int| 0 <= i < after.len() implies #[trigger] after[i] == before[if i
                    < index {
                    i
                } else {
                    i + 1
                }] by {}
                if staged_ok(before) {
                    assert forall|i: int, j: int| 0 <= i < j < after.len() implies !text::eq_ignore_ascii_case(
                        #[trigger] after[i],
                        #[trigger] after[j],
                    ) by {
                        let bi = if i < index {
                            i
                        } else {
                            i + 1
                        };
                        let bj = if j < index {
                            j
                        } else {
                            j + 1
                        };
                        assert(after[i] == before[bi] && after[j] == before[bj]);
                    }
                    assert forall|i: int| 0 <= i < after.len() implies text::trim(#[trigger] after[i])
                        == after[i] && after[i].len() > 0 by {
                        let bi = if i < index {
                            i
                        } else {
                            i + 1
                        };
                        assert(after[i] == before[bi]);
                    }
                }
            }
        }
    }

    /// Accepts the suggestion (the Tab key): it becomes the draft and the
    /// suggestion is recomputed. Returns whether there was one.
    pub fn accept_suggestion(&mut self, stats: &[(String, i64)]) -> (accepted: bool)
        ensures
            accepted == (old(self).suggestion is Some),
            accepted ==> final(self).draft == old(self).suggestion->0 && final(self).suggests_for(
                stats@,
            ),
            !accepted ==> *final(self) == *old(self),
            final(self).staged == old(self).staged,
    {
        match self.suggestion.clone() {
            Some(suggestion) => {
                self.draft = suggestion;
                self.update_suggestion(stats);
                true
            },
            None => false,
        }
    }

    /// Starts editing a gif's tags: its tags become the pills, with an
    /// empty draft and no suggestion.
    pub fn load(&mut self, tags: &Vec<String>)
        ensures
            final(self).staged_view() == text::views(tags@),
            final(self).draft@.len() == 0,
            final(self).suggestion is None,
    {
        self.staged = tags.clone();
        assert(self.staged_view() =~= text::views(tags@));
        self.draft = String::new();
        self.suggestion = None;
    }

    /// Takes the draft as the tag to apply to a selection: returns it
    /// trimmed, and clears the draft and the suggestion.
    pub fn take_bulk_tag(&mut self) -> (tag: String)
        ensures
            tag@ == text::trim(old(self).draft@),
            final(self).staged == old(self).staged,
            final(self).draft@.len() == 0,
            final(self).suggestion is None,
    {
        let tag = text::trimmed(self.draft.as_str());
        self.draft = String::new();
        self.suggestion = None;
        tag
    }
}

} // verus!
