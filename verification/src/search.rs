//! The library's search box: tag pills that all have to match, plus what
//! is being typed, which filters live.

use crate::library::{entry_matches, filtered_indices, matches_filter, shown_before, tags_of, GifEntry};
use crate::model::SortMode;
use crate::tags::{self, is_suggestion, stage_tags, stat_views, text_option};
use crate::text;
use vstd::prelude::*;
use vstd::string::*;

verus! {

broadcast use vstd::string::group_string_axioms;

/// The search box's state.
pub struct Search {
    /// The criteria added as pills; a gif is shown only when it matches
    /// every one.
    pub criteria: Vec<String>,
    /// What is typed and not yet a pill; it filters as it is typed.
    pub draft: String,
}

/// A gif's tags match a search text: the text, trimmed and lower-cased, is
/// empty or occurs in one of the tags, lower-cased.
pub open spec fn text_matches(tags: Seq<Seq<char>>, query: Seq<char>) -> bool {
    let f = text::lowercase(text::trim(query));
    f.len() == 0 || matches_filter(tags, f)
}

/// A gif's tags match every criterion.
pub open spec fn matches_all(tags: Seq<Seq<char>>, criteria: Seq<Seq<char>>) -> bool {
    forall|c: int| 0 <= c < criteria.len() ==> text_matches(tags, #[trigger] criteria[c])
}

impl Search {
    pub open spec fn criteria_view(&self) -> Seq<Seq<char>> {
        text::views(self.criteria@)
    }

    /// An empty search: no pills, nothing typed.
    pub fn new() -> (r: Search)
        ensures
            r.criteria@.len() == 0,
            r.draft@.len() == 0,
    {
        Search { criteria: Vec::new(), draft: String::new() }
    }

    /// Clears the search, as the "Reset filters" button does.
    pub fn reset(&mut self)
        ensures
            final(self).criteria@.len() == 0,
            final(self).draft@.len() == 0,
    {
        self.criteria = Vec::new();
        self.draft = String::new();
    }

    /// Typing into the search box: every word before the last space
    /// becomes a pill (trimmed; blank words and case-insensitive repeats
    /// skipped) and the rest stays typed.
    pub fn draft_changed(&mut self, value: &str)
        ensures
            final(self).criteria_view() == stage_tags(
                old(self).criteria_view(),
                text::split(value@, ' ').drop_last(),
            ),
            final(self).draft@ == text::split(value@, ' ').last(),
    {
        self.draft = tags::stage_pieces(&mut self.criteria, value, ' ');
    }

    /// Removes the pill at `index`; an index past the last pill changes
    /// nothing.
    pub fn remove_criterion(&mut self, index: usize)
        ensures
            index < old(self).criteria@.len() ==> final(self).criteria@ == old(self).criteria@.remove(
                index as int,
            ),
            index >= old(self).criteria@.len() ==> final(self).criteria == old(self).criteria,
            final(self).draft == old(self).draft,
    {
        if index < self.criteria.len() {
            self.criteria.remove(index);
        }
    }

    /// The completion offered for what is typed: the best known tag that
    /// the trimmed, lower-cased text starts and that is not a pill yet (see
    /// [`tags::is_suggestion`]).
    pub fn suggestion(&self, stats: &[(String, i64)]) -> (r: Option<String>)
        ensures
            is_suggestion(stat_views(stats@), self.criteria_view(), self.draft@, text_option(r)),
    {
        tags::suggest_tag(stats, &self.criteria, self.draft.as_str())
    }

    /// Accepts the completion (the Tab key): the suggested tag becomes a
    /// pill and nothing stays typed. Returns whether there was one.
    pub fn accept_suggestion(&mut self, stats: &[(String, i64)]) -> (accepted: bool)
        ensures
            accepted == tags::has_completion(
                stat_views(stats@),
                old(self).criteria_view(),
                old(self).draft@,
            ),
            !accepted ==> *final(self) == *old(self),
            accepted ==> final(self).draft@.len() == 0 && exists|s: Seq<char>|
                is_suggestion(stat_views(stats@), old(self).criteria_view(), old(self).draft@, Some(s))
                    && final(self).criteria_view() == tags::stage_tag(old(self).criteria_view(), s),
    {
        match self.suggestion(stats) {
            Some(s) => {
                tags::push_staged_tag(&mut self.criteria, s.as_str());
                self.draft = String::new();
                true
            },
            None => false,
        }
    }

    /// Whether `tag` alone is the search: it is the only pill and nothing
    /// is typed. Its popular-tag chip is then highlighted.
    pub open spec fn only_tag(&self, tag: Seq<char>) -> bool {
        self.criteria_view() == seq![tag] && self.draft@.len() == 0
    }

    /// Whether `tag` alone is the search: see [`Search::only_tag`].
    pub fn is_only(&self, tag: &str) -> (r: bool)
        ensures
            r == self.only_tag(tag@),
    {
        if self.criteria.len() != 1 || !self.draft.as_str().is_empty() {
            assert(self.criteria_view().len() == self.criteria@.len());
            return false;
        }
        let t = String::from_str(tag);
        let r = self.criteria[0] == t;
        assert(self.criteria_view()[0] == self.criteria@[0]@);
        if r {
            assert(self.criteria_view() =~= seq![tag@]);
        }
        r
    }

    /// Clicking a popular-tag chip: the search becomes that tag alone, or,
    /// when it already is, is cleared.
    pub fn popular_clicked(&mut self, tag: &str)
        ensures
            old(self).only_tag(tag@) ==> final(self).criteria@.len() == 0 && final(self).draft@.len()
                == 0,
            !old(self).only_tag(tag@) ==> final(self).criteria_view() == seq![tag@]
                && final(self).draft@.len() == 0,
    {
        if self.is_only(tag) {
            self.reset();
        } else {
            let mut criteria: Vec<String> = Vec::new();
            criteria.push(String::from_str(tag));
            self.criteria = criteria;
            self.draft = String::new();
            assert(self.criteria_view() =~= seq![tag@]);
        }
    }

    /// The grid's entries, as positions in `entries`: those whose tags
    /// match what is typed and every pill (see [`text_matches`]), each
    /// once, ordered by `sort_mode` (see [`shown_before`]).
    pub fn search_indices<F>(&self, entries: &Vec<GifEntry<F>>, sort_mode: SortMode) -> (out: Vec<usize>)
        ensures
            forall|i: int|
                0 <= i < entries@.len() ==> (out@.contains(i as usize) <==> (text_matches(
                    tags_of(entries@, i),
                    self.draft@,
                ) && matches_all(tags_of(entries@, i), self.criteria_view()))),
            forall|k: int| 0 <= k < out@.len() ==> (#[trigger] out@[k]) < entries@.len(),
            out@.no_duplicates(),
            forall|a: int, b: int|
                0 <= a < b < out@.len() ==> shown_before(
                    entries@,
                    sort_mode,
                    #[trigger] out@[a] as int,
                    #[trigger] out@[b] as int,
                ),
    {
        let count = entries.len();
        assert(entries@.len() == count);
        let base = filtered_indices(entries, self.draft.as_str(), sort_mode);
        let ghost cv = self.criteria_view();
        let mut filters: Vec<Vec<char>> = Vec::new();
        let mut c: usize = 0;
        while c < self.criteria.len()
            invariant
                c <= self.criteria@.len(),
                cv == self.criteria_view(),
                filters@.len() == c,
                forall|m: int|
                    0 <= m < c ==> (#[trigger] filters@[m])@ == text::lowercase(text::trim(cv[m])),
            decreases self.criteria@.len() - c,
        {
            let trimmed = text::trimmed(self.criteria[c].as_str());
            let lowered = text::to_lowercase(trimmed.as_str());
            assert(cv[c as int] == self.criteria@[c as int]@);
            filters.push(text::chars_of(lowered.as_str()));
            c = c + 1;
        }
        let mut out: Vec<usize> = Vec::new();
        let ghost mut pos: Seq<int> = seq![];
        let mut k: usize = 0;
        while k < base.len()
            invariant
                k <= base@.len(),
                cv == self.criteria_view(),
                filters@.len() == cv.len(),
                forall|m: int|
                    0 <= m < cv.len() ==> (#[trigger] filters@[m])@ == text::lowercase(text::trim(cv[m])),
                forall|q: int| 0 <= q < base@.len() ==> (#[trigger] base@[q]) < entries@.len(),
                base@.no_duplicates(),
                pos.len() == out@.len(),
                forall|q: int| 0 <= q < pos.len() ==> 0 <= #[trigger] pos[q] < k,
                forall|q: int| 0 <= q < pos.len() ==> #[trigger] out@[q] == base@[pos[q]],
                forall|a: int, b: int| 0 <= a < b < pos.len() ==> #[trigger] pos[a] < #[trigger] pos[b],
                forall|q: int|
                    0 <= q < k ==> (out@.contains(#[trigger] base@[q]) <==> matches_all(
                        tags_of(entries@, base@[q] as int),
                        cv,
                    )),
            decreases base@.len() - k,
        {
            let index = base[k];
            let tags = &entries[index].tags;
            let mut all = true;
            let mut m: usize = 0;
            while m < filters.len()
                invariant
                    m <= filters@.len(),
                    filters@.len() == cv.len(),
                    forall|x: int|
                        0 <= x < cv.len() ==> (#[trigger] filters@[x])@ == text::lowercase(
                            text::trim(cv[x]),
                        ),
                    tags == &entries@[index as int].tags,
                    all == (forall|x: int|
                        0 <= x < m ==> text_matches(tags_of(entries@, index as int), #[trigger] cv[x])),
                decreases filters@.len() - m,
            {
                let ok = filters[m].len() == 0 || entry_matches(tags, &filters[m]);
                proof {
                    assert(ok == text_matches(tags_of(entries@, index as int), cv[m as int]));
                    if !ok {
                        assert(!text_matches(tags_of(entries@, index as int), cv[m as int]));
                    }
                }
                all = all && ok;
                m = m + 1;
            }
            let ghost before = out@;
            let ghost before_pos = pos;
            if all {
                out.push(index);
                proof {
                    pos = pos.push(k as int);
                }
            }
            proof {
                assert forall|q: int| 0 <= q < k + 1 implies (out@.contains(#[trigger] base@[q])
                    <==> matches_all(tags_of(entries@, base@[q] as int), cv)) by {
                    if q < k {
                        assert(before.contains(base@[q]) ==> out@.contains(base@[q])) by {
                            if before.contains(base@[q]) {
                                let w = choose|w: int| 0 <= w < before.len() && before[w] == base@[q];
                                assert(out@[w] == base@[q]);
                            }
                        }
                        if out@.contains(base@[q]) {
                            let w = choose|w: int| 0 <= w < out@.len() && out@[w] == base@[q];
                            if w < before.len() {
                                assert(before[w] == base@[q]);
                            } else {
                                assert(out@[w] == index);
                                assert(base@[k as int] == base@[q]);
                            }
                        }
                    } else {
                        if out@.contains(base@[q]) && !all {
                            let w = choose|w: int| 0 <= w < out@.len() && out@[w] == base@[q];
                            assert(before[w] == base@[before_pos[w]]);
                            assert(before_pos[w] < k);
                        }
                        if all {
                            assert(out@[out@.len() - 1] == base@[q]);
                        }
                    }
                }
            }
            k = k + 1;
        }
        proof {
            assert forall|i: int|
                0 <= i < entries@.len() implies (out@.contains(i as usize) <==> (text_matches(
                tags_of(entries@, i),
                self.draft@,
            ) && matches_all(tags_of(entries@, i), self.criteria_view()))) by {
                let x = i as usize;
                if out@.contains(x) {
                    let w = choose|w: int| 0 <= w < out@.len() && out@[w] == x;
                    let q = pos[w];
                    assert(0 <= q < base@.len());
                    assert(base@[q] == x);
                    assert(base@.contains(x));
                    assert(out@.contains(base@[q]));
                    assert(matches_all(tags_of(entries@, base@[q] as int), cv));
                    assert(base@[q] as int == i);
                }
                if base@.contains(x) && matches_all(tags_of(entries@, i), cv) {
                    let q = choose|q: int| 0 <= q < base@.len() && base@[q] == x;
                    assert(base@[q] as int == i);
                    assert(out@.contains(base@[q]));
                }
            }
            assert forall|a: int, b: int| 0 <= a < b < out@.len() implies shown_before(
                entries@,
                sort_mode,
                #[trigger] out@[a] as int,
                #[trigger] out@[b] as int,
            ) by {
                assert(pos[a] < pos[b]);
                assert(out@[a] == base@[pos[a]] && out@[b] == base@[pos[b]]);
            }
            assert forall|a: int, b: int| 0 <= a < out@.len() && 0 <= b < out@.len() && a != b
                implies out@[a] != out@[b] by {
                assert(out@[a] == base@[pos[a]] && out@[b] == base@[pos[b]]);
                if a < b {
                    assert(pos[a] < pos[b]);
                } else {
                    assert(pos[b] < pos[a]);
                }
            }
        }
        out
    }
}

} // verus!
