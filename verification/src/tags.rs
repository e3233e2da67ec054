//! Tag text: parsing a comma-separated tag list, the staged-tag editor
//! (pills, drafts, suggestions) and tag lists on library entries.

use crate::order::{self, IndexOrder};
use crate::text;
use vstd::prelude::*;
use vstd::string::*;

verus! {

broadcast use vstd::string::group_string_axioms;

/// Trimmed pieces, empty ones dropped, in order.
pub open spec fn clean_tags(pieces: Seq<Seq<char>>) -> Seq<Seq<char>>
    decreases pieces.len(),
{
    if pieces.len() == 0 {
        seq![]
    } else {
        let init = clean_tags(pieces.drop_last());
        let t = text::trim(pieces.last());
        if t.len() == 0 {
            init
        } else {
            init.push(t)
        }
    }
}

/// The tags named by a comma-separated list: each piece between commas,
/// trimmed, empty pieces skipped, in order (repeats kept).
pub open spec fn parse_tag_list(input: Seq<char>) -> Seq<Seq<char>> {
    clean_tags(text::split(input, ','))
}

/// The tags of a list of pieces: each trimmed, empty ones skipped, in
/// order (see [`clean_tags`]).
pub fn clean_tag_list(pieces: &[String]) -> (out: Vec<String>)
    ensures
        text::views(out@) == clean_tags(text::views(pieces@)),
{
    let mut out: Vec<String> = Vec::new();
    let mut i: usize = 0;
    while i < pieces.len()
        invariant
            i <= pieces@.len(),
            text::views(out@) == clean_tags(text::views(pieces@).take(i as int)),
        decreases pieces@.len() - i,
    {
        let ghost before = text::views(out@);
        let t = text::trimmed(pieces[i].as_str());
        let ghost taken = text::views(pieces@).take(i + 1);
        assert(taken.drop_last() =~= text::views(pieces@).take(i as int));
        assert(taken.last() == pieces@[i as int]@);
        if !t.as_str().is_empty() {
            out.push(t);
            assert(text::views(out@) =~= before.push(t@));
        }
        i = i + 1;
    }
    assert(text::views(pieces@).take(pieces@.len() as int) =~= text::views(pieces@));
    out
}

/// The tags named by a comma-separated list: see [`parse_tag_list`].
pub fn parse_tags(input: &str) -> (out: Vec<String>)
    ensures
        text::views(out@) == parse_tag_list(input@),
{
    let pieces = text::split_on(input, ',');
    clean_tag_list(pieces.as_slice())
}

/// A tag as the editor keeps it: trimmed, non-empty and free of commas.
pub open spec fn is_clean_tag(t: Seq<char>) -> bool {
    &&& text::trim(t) == t
    &&& t.len() > 0
    &&& !t.contains(',')
}

pub proof fn lemma_clean_tags_of_clean(tags: Seq<Seq<char>>)
    requires
        forall|i: int| 0 <= i < tags.len() ==> is_clean_tag(#[trigger] tags[i]),
    ensures
        clean_tags(tags) == tags,
    decreases tags.len(),
{
    if tags.len() > 0 {
        let init = tags.drop_last();
        assert forall|i: int| 0 <= i < init.len() implies is_clean_tag(#[trigger] init[i]) by {
            assert(init[i] == tags[i]);
        }
        lemma_clean_tags_of_clean(init);
        assert(is_clean_tag(tags[tags.len() - 1]));
        assert(init.push(tags.last()) =~= tags);
    } else {
        assert(tags =~= seq![]);
    }
}

/// Joining clean tags with commas and parsing the result gives the tags
/// back, so replacing a gif's tags by a joined list stores exactly them.
pub proof fn lemma_parse_joined_tags(tags: Seq<Seq<char>>)
    requires
        forall|i: int| 0 <= i < tags.len() ==> is_clean_tag(#[trigger] tags[i]),
    ensures
        parse_tag_list(text::join(tags, seq![','])) == tags,
{
    if tags.len() == 0 {
        let pieces = text::split(text::join(tags, seq![',']), ',');
        assert(text::join(tags, seq![',']) =~= seq![]);
        assert(pieces =~= seq![seq![]]);
        assert(text::trim(seq![]) =~= seq![]);
        assert(pieces.drop_last() =~= seq![]);
        assert(pieces.last() =~= Seq::<char>::empty());
        assert(text::trim_start(Seq::<char>::empty()) =~= Seq::<char>::empty());
        assert(text::trim(pieces.last()).len() == 0);
        assert(clean_tags(pieces.drop_last()) =~= seq![]);
        assert(clean_tags(pieces) =~= seq![]);
        assert(tags =~= seq![]);
    } else {
        assert forall|i: int| 0 <= i < tags.len() implies !(#[trigger] tags[i]).contains(',') by {
            assert(is_clean_tag(tags[i]));
        }
        text::lemma_split_join(tags, ',');
        lemma_clean_tags_of_clean(tags);
    }
}


/// Some tag in `tags` equals `t` ignoring ASCII case.
pub open spec fn has_tag_ignoring_case(tags: Seq<Seq<char>>, t: Seq<char>) -> bool {
    exists|i: int| 0 <= i < tags.len() && text::eq_ignore_ascii_case(#[trigger] tags[i], t)
}

/// The staged tags after offering `raw` as a new pill: it is trimmed, and
/// added at the end unless it is empty or already staged ignoring ASCII
/// case.
pub open spec fn stage_tag(staged: Seq<Seq<char>>, raw: Seq<char>) -> Seq<Seq<char>> {
    let t = text::trim(raw);
    if t.len() == 0 || has_tag_ignoring_case(staged, t) {
        staged
    } else {
        staged.push(t)
    }
}

/// The staged tags after offering each of `raws` in turn.
pub open spec fn stage_tags(staged: Seq<Seq<char>>, raws: Seq<Seq<char>>) -> Seq<Seq<char>>
    decreases raws.len(),
{
    if raws.len() == 0 {
        staged
    } else {
        stage_tag(stage_tags(staged, raws.drop_last()), raws.last())
    }
}

/// Whether some tag in `tags` equals `t` ignoring ASCII case.
pub fn contains_ignoring_case(tags: &Vec<String>, t: &str) -> (r: bool)
    ensures
        r == has_tag_ignoring_case(text::views(tags@), t@),
{
    let mut i: usize = 0;
    while i < tags.len()
        invariant
            i <= tags@.len(),
            forall|k: int|
                0 <= k < i ==> !text::eq_ignore_ascii_case(#[trigger] tags@[k]@, t@),
        decreases tags@.len() - i,
    {
        if text::equal_ignoring_ascii_case(tags[i].as_str(), t) {
            assert(text::views(tags@)[i as int] == tags@[i as int]@);
            return true;
        }
        i = i + 1;
    }
    assert forall|k: int| 0 <= k < tags@.len() implies !text::eq_ignore_ascii_case(
        #[trigger] text::views(tags@)[k],
        t@,
    ) by {
        assert(text::views(tags@)[k] == tags@[k]@);
    }
    false
}

/// Offers `tag` as a new staged pill: see [`stage_tag`].
pub fn push_staged_tag(staged: &mut Vec<String>, tag: &str)
    ensures
        text::views(final(staged)@) == stage_tag(text::views(old(staged)@), tag@),
{
    let t = text::trimmed(tag);
    if t.as_str().is_empty() {
        return;
    }
    if contains_ignoring_case(staged, t.as_str()) {
        return;
    }
    let ghost before = text::views(staged@);
    staged.push(t);
    assert(text::views(staged@) =~= before.push(t@));
}

/// What typing `value` into a pill box does: every piece before its last
/// `sep` is offered as a pill in order, and the piece after the last `sep`
/// (all of `value` when it has none) is left as the draft, which is
/// returned.
pub fn stage_pieces(staged: &mut Vec<String>, value: &str, sep: char) -> (draft: String)
    ensures
        text::views(final(staged)@) == stage_tags(
            text::views(old(staged)@),
            text::split(value@, sep).drop_last(),
        ),
        draft@ == text::split(value@, sep).last(),
{
    let parts = text::split_on(value, sep);
    proof {
        text::lemma_split_nonempty(value@, sep);
    }
    let last = parts.len() - 1;
    let ghost start = text::views(staged@);
    let mut i: usize = 0;
    while i < last
        invariant
            last == parts@.len() - 1,
            i <= last,
            text::views(parts@) == text::split(value@, sep),
            text::views(staged@) == stage_tags(start, text::views(parts@).take(i as int)),
        decreases last - i,
    {
        push_staged_tag(staged, parts[i].as_str());
        let ghost taken = text::views(parts@).take(i + 1);
        assert(taken.drop_last() =~= text::views(parts@).take(i as int));
        assert(taken.last() == parts@[i as int]@);
        i = i + 1;
    }
    assert(text::views(parts@).take(last as int) =~= text::split(value@, sep).drop_last());
    assert(text::views(parts@)[last as int] == parts@[last as int]@);
    let draft = parts[last].clone();
    draft
}

/// What typing `value` into the tag box does: every piece before its last
/// comma is offered as a pill in order, and the piece after the last comma
/// (all of `value` when it has none) is left as the draft, which is
/// returned.
pub fn apply_tag_input(staged: &mut Vec<String>, value: &str) -> (draft: String)
    ensures
        text::views(final(staged)@) == stage_tags(
            text::views(old(staged)@),
            text::split(value@, ',').drop_last(),
        ),
        draft@ == text::split(value@, ',').last(),
{
    stage_pieces(staged, value, ',')
}


/// The staged pills are well formed: each is trimmed and non-empty, and no
/// two are equal ignoring ASCII case.
pub open spec fn staged_ok(staged: Seq<Seq<char>>) -> bool {
    &&& forall|i: int|
        0 <= i < staged.len() ==> text::trim(#[trigger] staged[i]) == staged[i] && staged[i].len()
            > 0
    &&& forall|i: int, j: int|
        0 <= i < j < staged.len() ==> !text::eq_ignore_ascii_case(
            #[trigger] staged[i],
            #[trigger] staged[j],
        )
}

/// Offering a pill keeps the staged pills well formed.
pub proof fn lemma_stage_tag_ok(staged: Seq<Seq<char>>, raw: Seq<char>)
    requires
        staged_ok(staged),
    ensures
        staged_ok(stage_tag(staged, raw)),
{
    let t = text::trim(raw);
    text::lemma_trim_idempotent(raw);
    if !(t.len() == 0 || has_tag_ignoring_case(staged, t)) {
        let s2 = staged.push(t);
        assert forall|i: int, j: int| 0 <= i < j < s2.len() implies !text::eq_ignore_ascii_case(
            #[trigger] s2[i],
            #[trigger] s2[j],
        ) by {
            if j == staged.len() {
                assert(s2[i] == staged[i]);
                assert(!text::eq_ignore_ascii_case(staged[i], t));
            } else {
                assert(s2[i] == staged[i] && s2[j] == staged[j]);
            }
        }
        assert forall|i: int| 0 <= i < s2.len() implies text::trim(#[trigger] s2[i]) == s2[i]
            && s2[i].len() > 0 by {
            if i < staged.len() {
                assert(s2[i] == staged[i]);
            }
        }
    }
}

/// Offering any sequence of pills keeps the staged pills well formed, so
/// typing into the tag box never stages a blank pill or a case-insensitive
/// repeat.
pub proof fn lemma_stage_tags_ok(staged: Seq<Seq<char>>, raws: Seq<Seq<char>>)
    requires
        staged_ok(staged),
    ensures
        staged_ok(stage_tags(staged, raws)),
    decreases raws.len(),
{
    if raws.len() > 0 {
        lemma_stage_tags_ok(staged, raws.drop_last());
        lemma_stage_tag_ok(stage_tags(staged, raws.drop_last()), raws.last());
    }
}


/// The view of a list of `(tag name, use count)` pairs.
pub open spec fn stat_views(stats: Seq<(String, i64)>) -> Seq<(Seq<char>, i64)> {
    stats.map_values(|p: (String, i64)| (p.0@, p.1))
}

/// Tag `i` ranks before tag `j`: used by more gifs, then by name, then by
/// position (a stable sort's order).
pub open spec fn ranks_before(stats: Seq<(Seq<char>, i64)>, i: int, j: int) -> bool {
    ||| stats[j].1 < stats[i].1
    ||| stats[j].1 == stats[i].1 && text::text_lt(stats[i].0, stats[j].0)
    ||| stats[j].1 == stats[i].1 && stats[i].0 == stats[j].0 && i < j
}

/// Tag names (as characters) and use counts, ranked by [`ranks_before`].
pub struct TagRank {
    pub names: Vec<Vec<char>>,
    pub counts: Vec<i64>,
}

impl TagRank {
    pub open spec fn stats(&self) -> Seq<(Seq<char>, i64)> {
        Seq::new(self.names@.len(), |i: int| (self.names@[i]@, self.counts@[i]))
    }

    pub fn new(stats: &[(String, i64)]) -> (r: TagRank)
        ensures
            r.names@.len() == r.counts@.len(),
            r.stats() == stat_views(stats@),
    {
        let mut names: Vec<Vec<char>> = Vec::new();
        let mut counts: Vec<i64> = Vec::new();
        let mut i: usize = 0;
        while i < stats.len()
            invariant
                i <= stats@.len(),
                names@.len() == i,
                counts@.len() == i,
                forall|k: int|
                    0 <= k < i ==> (#[trigger] names@[k])@ == stats@[k].0@ && counts@[k]
                        == stats@[k].1,
            decreases stats@.len() - i,
        {
            names.push(text::chars_of(stats[i].0.as_str()));
            counts.push(stats[i].1);
            i = i + 1;
        }
        let r = TagRank { names, counts };
        assert(r.stats() =~= stat_views(stats@));
        r
    }
}

impl TagRank {
    pub proof fn lemma_precedes_ranks(&self, i: int, j: int)
        requires
            0 <= i < self.names@.len(),
            0 <= j < self.names@.len(),
            self.names@.len() == self.counts@.len(),
        ensures
            self.precedes(i, j) == ranks_before(self.stats(), i, j),
    {
        assert(self.stats()[i] == (self.names@[i]@, self.counts@[i]));
        assert(self.stats()[j] == (self.names@[j]@, self.counts@[j]));
    }
}

impl IndexOrder for TagRank {
    open spec fn size(&self) -> nat {
        if self.names@.len() <= self.counts@.len() {
            self.names@.len()
        } else {
            self.counts@.len()
        }
    }

    open spec fn precedes(&self, i: int, j: int) -> bool {
        ||| self.counts@[j] < self.counts@[i]
        ||| self.counts@[j] == self.counts@[i] && text::text_lt(self.names@[i]@, self.names@[j]@)
        ||| self.counts@[j] == self.counts@[i] && self.names@[i]@ == self.names@[j]@ && i < j
    }

    proof fn lemma_order(&self, i: int, j: int, k: int) {
        let (a, b, c) = (self.names@[i]@, self.names@[j]@, self.names@[k]@);
        text::lemma_text_lt_order(a, b, c);
        text::lemma_text_lt_order(b, a, c);
        text::lemma_text_lt_order(a, c, b);
        text::lemma_text_lt_order(b, c, a);
        text::lemma_text_lt_order(c, a, b);
        text::lemma_text_lt_order(a, b, b);
        text::lemma_text_lt_order(b, b, b);
    }

    fn index_precedes(&self, i: usize, j: usize) -> (r: bool) {
        if self.counts[j] != self.counts[i] {
            self.counts[j] < self.counts[i]
        } else if text::text_less(&self.names[i], &self.names[j]) {
            true
        } else if text::text_less(&self.names[j], &self.names[i]) {
            proof {
                text::lemma_text_lt_order(self.names@[i as int]@, self.names@[j as int]@, self.names@[j as int]@);
            }
            false
        } else {
            proof {
                text::lemma_text_lt_order(self.names@[i as int]@, self.names@[j as int]@, self.names@[j as int]@);
            }
            i < j
        }
    }
}

/// `chosen` is the first up to `limit` tags, by rank, among those with a
/// use count above zero.
pub open spec fn top_tags(stats: Seq<(Seq<char>, i64)>, chosen: Seq<usize>, limit: nat) -> bool {
    &&& chosen.len() <= limit
    &&& chosen.no_duplicates()
    &&& forall|k: int|
        0 <= k < chosen.len() ==> (#[trigger] chosen[k]) < stats.len() && stats[chosen[k] as int].1
            > 0
    &&& forall|a: int, b: int|
        0 <= a < b < chosen.len() ==> ranks_before(
            stats,
            #[trigger] chosen[a] as int,
            #[trigger] chosen[b] as int,
        )
    &&& forall|e: int|
        0 <= e < stats.len() && stats[e].1 > 0 && !chosen.contains(e as usize) ==> {
            &&& chosen.len() == limit
            &&& forall|k: int| 0 <= k < chosen.len() ==> ranks_before(stats, #[trigger] chosen[k] as int, e)
        }
}

/// How many tags the popular-tag quick filters show.
pub const POPULAR_TAGS_LIMIT: usize = 8;

/// The most used tags for the quick-filter chips: the names of the first
/// [`POPULAR_TAGS_LIMIT`] tags in use, by rank (see [`top_tags`]).
pub fn popular_tags(stats: &[(String, i64)]) -> (out: Vec<String>)
    ensures
        exists|chosen: Seq<usize>|
            top_tags(stat_views(stats@), chosen, POPULAR_TAGS_LIMIT as nat) && text::views(out@)
                == chosen.map_values(|i: usize| stat_views(stats@)[i as int].0),
{
    let rank = TagRank::new(stats);
    let ghost sv = stat_views(stats@);
    let mut eligible: Vec<usize> = Vec::new();
    let mut i: usize = 0;
    while i < stats.len()
        invariant
            i <= stats@.len(),
            rank.names@.len() == rank.counts@.len(),
            rank.stats() == sv,
            sv == stat_views(stats@),
            eligible@.no_duplicates(),
            forall|k: int| 0 <= k < eligible@.len() ==> (#[trigger] eligible@[k]) < i,
            forall|e: int|
                0 <= e < i ==> (sv[e].1 > 0 <==> #[trigger] eligible@.contains(e as usize)),
        decreases stats@.len() - i,
    {
        assert(sv[i as int].1 == stats@[i as int].1);
        let ghost before = eligible@;
        if stats[i].1 > 0 {
            eligible.push(i);
            proof {
                assert(eligible@[before.len() as int] == i);
                assert forall|e: int| 0 <= e < i implies (before.contains(e as usize)
                    <==> #[trigger] eligible@.contains(e as usize)) by {
                    if eligible@.contains(e as usize) {
                        let q = choose|q: int| 0 <= q < eligible@.len() && eligible@[q] == e as usize;
                        if q < before.len() {
                            assert(before[q] == e as usize);
                        }
                    }
                    if before.contains(e as usize) {
                        let q = choose|q: int| 0 <= q < before.len() && before[q] == e as usize;
                        assert(eligible@[q] == e as usize);
                    }
                }
                assert forall|a: int, b: int|
                    0 <= a < eligible@.len() && 0 <= b < eligible@.len() && a != b implies eligible@[a]
                    != eligible@[b] by {
                    if a < before.len() && b < before.len() {
                        assert(eligible@[a] == before[a] && eligible@[b] == before[b]);
                    } else if a < before.len() {
                        assert(eligible@[a] == before[a]);
                    } else {
                        assert(eligible@[b] == before[b]);
                    }
                }
            }
        } else {
            assert(!eligible@.contains(i)) by {
                if eligible@.contains(i) {
                    let q = choose|q: int| 0 <= q < eligible@.len() && eligible@[q] == i;
                }
            }
        }
        i = i + 1;
    }
    assert(rank.stats().len() == rank.names@.len());
    assert(sv.len() == stats@.len());
    assert(rank.names@.len() == stats@.len());
    let sorted = order::sort_indices(&rank, &eligible);
    let limit = if sorted.len() < POPULAR_TAGS_LIMIT {
        sorted.len()
    } else {
        POPULAR_TAGS_LIMIT
    };
    let mut out: Vec<String> = Vec::new();
    let mut k: usize = 0;
    while k < limit
        invariant
            limit <= sorted@.len(),
            k <= limit,
            rank.stats() == sv,
            rank.names@.len() == rank.counts@.len(),
            sv == stat_views(stats@),
            sorted@.to_set() == eligible@.to_set(),
            forall|m: int| 0 <= m < eligible@.len() ==> (#[trigger] eligible@[m]) < stats@.len(),
            forall|e: int|
                0 <= e < stats@.len() ==> (sv[e].1 > 0 <==> #[trigger] eligible@.contains(
                    e as usize,
                )),
            sv.len() == stats@.len(),
            text::views(out@) == sorted@.take(k as int).map_values(|i: usize| sv[i as int].0),
        decreases limit - k,
    {
        let idx = sorted[k];
        assert(sorted@.to_set().contains(idx));
        let name = stats[idx].0.clone();
        let ghost before = text::views(out@);
        out.push(name);
        assert(sv[idx as int].0 == stats@[idx as int].0@);
        assert(sorted@.take(k + 1) =~= sorted@.take(k as int).push(idx));
        assert(text::views(out@) =~= before.push(name@));
        assert(text::views(out@) =~= sorted@.take(k + 1).map_values(|i: usize| sv[i as int].0));
        k = k + 1;
    }
    let ghost chosen = sorted@.take(limit as int);
    proof {
        assert forall|a: int, b: int| 0 <= a < b < chosen.len() implies ranks_before(
            sv,
            #[trigger] chosen[a] as int,
            #[trigger] chosen[b] as int,
        ) by {
            assert(rank.precedes(sorted@[a] as int, sorted@[b] as int));
            assert(sorted@.to_set().contains(sorted@[a]));
            assert(sorted@.to_set().contains(sorted@[b]));
            let qa = choose|q: int| 0 <= q < eligible@.len() && eligible@[q] == sorted@[a];
            let qb = choose|q: int| 0 <= q < eligible@.len() && eligible@[q] == sorted@[b];
            rank.lemma_precedes_ranks(sorted@[a] as int, sorted@[b] as int);
        }
        assert forall|m: int| 0 <= m < chosen.len() implies (#[trigger] chosen[m]) < sv.len()
            && sv[chosen[m] as int].1 > 0 by {
            assert(sorted@.to_set().contains(sorted@[m]));
            assert(eligible@.to_set().contains(sorted@[m]));
            let q = choose|q: int| 0 <= q < eligible@.len() && eligible@[q] == sorted@[m];
            assert(eligible@.contains(sorted@[m]));
            let e = sorted@[m] as int;
            assert(eligible@.contains(e as usize));
        }
        assert forall|e: int|
            0 <= e < sv.len() && sv[e].1 > 0 && !chosen.contains(e as usize) implies {
            &&& chosen.len() == POPULAR_TAGS_LIMIT as nat
            &&& forall|m: int| 0 <= m < chosen.len() ==> ranks_before(sv, #[trigger] chosen[m] as int, e)
        } by {
            assert(eligible@.contains(e as usize));
            assert(eligible@.to_set().contains(e as usize));
            assert(sorted@.to_set().contains(e as usize));
            let q = choose|q: int| 0 <= q < sorted@.len() && sorted@[q] == e as usize;
            if q < limit {
                assert(chosen[q] == e as usize);
            }
            assert forall|m: int| 0 <= m < chosen.len() implies ranks_before(
                sv,
                #[trigger] chosen[m] as int,
                e,
            ) by {
                assert(rank.precedes(sorted@[m] as int, sorted@[q] as int));
                assert(sorted@.to_set().contains(sorted@[m]));
                let qm = choose|p: int| 0 <= p < eligible@.len() && eligible@[p] == sorted@[m];
                rank.lemma_precedes_ranks(sorted@[m] as int, e);
            }
        }
        assert(chosen.no_duplicates()) by {
            assert forall|a: int, b: int| 0 <= a < chosen.len() && 0 <= b < chosen.len() && a != b
                implies chosen[a] != chosen[b] by {
                assert(sorted@[a] != sorted@[b]);
            }
        }
        assert(top_tags(sv, chosen, POPULAR_TAGS_LIMIT as nat));
    }
    out
}


/// Tag `i` may complete the (trimmed, lower-cased) draft `d`: its
/// lower-cased name starts with `d` and it is not already staged, ignoring
/// ASCII case.
pub open spec fn completes(
    stats: Seq<(Seq<char>, i64)>,
    staged: Seq<Seq<char>>,
    d: Seq<char>,
    i: int,
) -> bool {
    &&& 0 <= i < stats.len()
    &&& text::starts_with(text::lowercase(stats[i].0), d)
    &&& !has_tag_ignoring_case(staged, stats[i].0)
}

/// Some known tag completes the tag being typed as `draft`: the trimmed,
/// lower-cased draft is not empty and a tag not yet staged starts with it
/// (see [`completes`]).
pub open spec fn has_completion(sv: Seq<(Seq<char>, i64)>, st: Seq<Seq<char>>, draft: Seq<char>) -> bool {
    let d = text::lowercase(text::trim(draft));
    d.len() > 0 && exists|i: int| completes(sv, st, d, i)
}

/// `suggestion` is the autocomplete suggestion for the tag being typed as
/// `draft`: `None` when the trimmed draft is empty or no tag completes it;
/// otherwise the name of the completing tag that ranks first (most used,
/// then by name).
pub open spec fn is_suggestion(
    sv: Seq<(Seq<char>, i64)>,
    st: Seq<Seq<char>>,
    draft: Seq<char>,
    suggestion: Option<Seq<char>>,
) -> bool {
    let d = text::lowercase(text::trim(draft));
    match suggestion {
        None => d.len() == 0 || forall|i: int| !completes(sv, st, d, i),
        Some(name) => d.len() > 0 && exists|i: int|
            {
                &&& completes(sv, st, d, i)
                &&& name == sv[i].0
                &&& forall|j: int| j != i && completes(sv, st, d, j) ==> ranks_before(sv, i, j)
            },
    }
}

pub open spec fn text_option(o: Option<String>) -> Option<Seq<char>> {
    match o {
        Some(s) => Some(s@),
        None => None,
    }
}

/// The autocomplete suggestion for the tag being typed: see
/// [`is_suggestion`].
pub fn suggest_tag(stats: &[(String, i64)], staged: &Vec<String>, draft: &str) -> (r: Option<
    String,
>)
    ensures
        is_suggestion(stat_views(stats@), text::views(staged@), draft@, text_option(r)),
{
    let ghost sv = stat_views(stats@);
    let ghost st = text::views(staged@);
    let trimmed = text::trimmed(draft);
    let lowered = text::to_lowercase(trimmed.as_str());
    let d = text::chars_of(lowered.as_str());
    if d.len() == 0 {
        return None;
    }
    let rank = TagRank::new(stats);
    assert(rank.stats().len() == rank.names@.len());
    let mut best: Option<usize> = None;
    let mut i: usize = 0;
    while i < stats.len()
        invariant
            i <= stats@.len(),
            d@ == text::lowercase(text::trim(draft@)),
            sv == stat_views(stats@),
            st == text::views(staged@),
            rank.stats() == sv,
            rank.names@.len() == rank.counts@.len(),
            rank.names@.len() == stats@.len(),
            match best {
                None => forall|j: int| 0 <= j < i ==> !completes(sv, st, d@, j),
                Some(b) => {
                    &&& b < i
                    &&& completes(sv, st, d@, b as int)
                    &&& forall|j: int|
                        0 <= j < i && j != b && completes(sv, st, d@, j) ==> ranks_before(
                            sv,
                            b as int,
                            j,
                        )
                },
            },
        decreases stats@.len() - i,
    {
        let lower_name = text::to_lowercase(stats[i].0.as_str());
        let lower_chars = text::chars_of(lower_name.as_str());
        assert(sv[i as int].0 == stats@[i as int].0@);
        let is_candidate = text::starts_with_text(&lower_chars, &d) && !contains_ignoring_case(
            staged,
            stats[i].0.as_str(),
        );
        if is_candidate {
            match best {
                None => {
                    best = Some(i);
                },
                Some(b) => {
                    if rank.index_precedes(i, b) {
                        proof {
                            rank.lemma_precedes_ranks(i as int, b as int);
                            assert forall|j: int|
                                0 <= j < i + 1 && j != i && completes(
                                    sv,
                                    st,
                                    d@,
                                    j,
                                ) implies ranks_before(sv, i as int, j) by {
                                rank.lemma_order(i as int, b as int, j);
                                if j != b {
                                    rank.lemma_precedes_ranks(b as int, j);
                                    rank.lemma_precedes_ranks(i as int, j);
                                }
                            }
                        }
                        best = Some(i);
                    } else {
                        proof {
                            rank.lemma_precedes_ranks(i as int, b as int);
                            rank.lemma_precedes_ranks(b as int, i as int);
                            rank.lemma_order(i as int, b as int, b as int);
                        }
                    }
                },
            }
        }
        i = i + 1;
    }
    match best {
        None => None,
        Some(b) => Some(stats[b].0.clone()),
    }
}


/// `s` is in non-decreasing [`text::text_lt`] order.
pub open spec fn texts_sorted(s: Seq<Seq<char>>) -> bool {
    forall|a: int, b: int| 0 <= a < b < s.len() ==> !text::text_lt(#[trigger] s[b], #[trigger] s[a])
}

/// `s` is in strictly increasing [`text::text_lt`] order, hence free of
/// repeats.
pub open spec fn texts_strictly_sorted(s: Seq<Seq<char>>) -> bool {
    forall|a: int, b: int| 0 <= a < b < s.len() ==> text::text_lt(#[trigger] s[a], #[trigger] s[b])
}

/// `tags` in `String` order, like `slice::sort` on strings.
pub fn sort_texts(tags: &Vec<String>) -> (out: Vec<String>)
    ensures
        text::views(out@).to_multiset() == text::views(tags@).to_multiset(),
        texts_sorted(text::views(out@)),
{
    broadcast use vstd::seq_lib::group_to_multiset_ensures;

    let mut out: Vec<String> = Vec::new();
    let mut keys: Vec<Vec<char>> = Vec::new();
    let mut i: usize = 0;
    while i < tags.len()
        invariant
            i <= tags@.len(),
            keys@.len() == out@.len(),
            forall|m: int| 0 <= m < keys@.len() ==> (#[trigger] keys@[m])@ == out@[m]@,
            text::views(out@).to_multiset() == text::views(tags@.take(i as int)).to_multiset(),
            texts_sorted(text::views(out@)),
        decreases tags@.len() - i,
    {
        let x = text::chars_of(tags[i].as_str());
        let ghost o = text::views(out@);
        let mut k: usize = 0;
        while k < keys.len() && !text::text_less(&x, &keys[k])
            invariant
                k <= keys@.len(),
                keys@.len() == out@.len(),
                o == text::views(out@),
                forall|m: int| 0 <= m < keys@.len() ==> (#[trigger] keys@[m])@ == out@[m]@,
                forall|m: int| 0 <= m < k ==> !text::text_lt(x@, #[trigger] o[m]),
            decreases keys@.len() - k,
        {
            assert(o[k as int] == keys@[k as int]@);
            k = k + 1;
        }
        proof {
            if k < o.len() {
                assert(o[k as int] == keys@[k as int]@);
            }
        }
        let item = tags[i].clone();
        let ghost old_keys = keys@;
        let ghost old_out = out@;
        out.insert(k, item);
        keys.insert(k, x);
        proof {
            let n = text::views(out@);
            assert(n =~= o.insert(k as int, tags@[i as int]@));
            assert(text::views(tags@.take(i + 1)) =~= text::views(tags@.take(i as int)).push(
                tags@[i as int]@,
            ));
            vstd::seq_lib::to_multiset_insert(o, k as int, tags@[i as int]@);
            vstd::seq_lib::to_multiset_build(text::views(tags@.take(i as int)), tags@[i as int]@);
            assert forall|m: int| 0 <= m < keys@.len() implies (#[trigger] keys@[m])@ == out@[m]@ by {
                if m < k {
                    assert(keys@[m] == old_keys[m] && out@[m] == old_out[m]);
                } else if m > k {
                    assert(keys@[m] == old_keys[m - 1] && out@[m] == old_out[m - 1]);
                }
            }
            assert forall|a: int, b: int| 0 <= a < b < n.len() implies !text::text_lt(
                #[trigger] n[b],
                #[trigger] n[a],
            ) by {
                let xv = x@;
                if a < k && b < k {
                    assert(n[a] == o[a] && n[b] == o[b]);
                } else if a < k && b == k {
                    assert(n[a] == o[a]);
                    text::lemma_text_lt_order(o[a], xv, xv);
                    text::lemma_text_lt_order(xv, o[a], xv);
                } else if a < k {
                    assert(n[a] == o[a] && n[b] == o[b - 1]);
                } else if a == k {
                    assert(n[b] == o[b - 1]);
                    text::lemma_text_lt_order(xv, o[k as int], o[b - 1]);
                    text::lemma_text_lt_order(o[b - 1], xv, o[k as int]);
                    text::lemma_text_lt_order(o[k as int], o[b - 1], xv);
                    text::lemma_text_lt_order(xv, o[b - 1], o[b - 1]);
                } else {
                    assert(n[a] == o[a - 1] && n[b] == o[b - 1]);
                }
            }
        }
        i = i + 1;
    }
    assert(tags@.take(tags@.len() as int) =~= tags@);
    out
}


/// `tags` with each tag equal to `old` replaced by `new`.
pub open spec fn rename_all(tags: Seq<Seq<char>>, old: Seq<char>, new: Seq<char>) -> Seq<Seq<char>> {
    tags.map_values(|t: Seq<char>| if t == old { new } else { t })
}

/// Sorted `tags` with adjacent repeats removed, like `sort` then `dedup`.
pub fn sorted_unique(tags: &Vec<String>) -> (out: Vec<String>)
    ensures
        texts_strictly_sorted(text::views(out@)),
        text::views(out@).to_set() == text::views(tags@).to_set(),
{
    broadcast use vstd::seq_lib::group_to_multiset_ensures;

    let sorted = sort_texts(tags);
    let ghost sv = text::views(sorted@);
    let mut out: Vec<String> = Vec::new();
    let mut i: usize = 0;
    while i < sorted.len()
        invariant
            i <= sorted@.len(),
            sv == text::views(sorted@),
            texts_sorted(sv),
            texts_strictly_sorted(text::views(out@)),
            text::views(out@).to_set() == sv.take(i as int).to_set(),
            i > 0 ==> out@.len() > 0 && out@.last()@ == sv[i - 1],
        decreases sorted@.len() - i,
    {
        let ghost o = text::views(out@);
        let cur = sorted[i].clone();
        assert(sv.take(i + 1) =~= sv.take(i as int).push(sv[i as int]));
        proof { sv.take(i as int).lemma_push_to_set_commute(sv[i as int]); }
        if out.len() == 0 || out[out.len() - 1] != cur {
            proof {
                if i > 0 {
                    let last = sv[i - 1];
                    assert(!text::text_lt(sv[i as int], sv[i - 1]));
                    text::lemma_text_lt_order(last, cur@, cur@);
                    assert(text::text_lt(last, cur@));
                    assert(o.last() == last);
                    assert forall|a: int| 0 <= a < o.len() implies text::text_lt(
                        #[trigger] o[a],
                        cur@,
                    ) by {
                        if a < o.len() - 1 {
                            text::lemma_text_lt_order(o[a], last, cur@);
                        }
                    }
                } else {
                    assert(o.len() == 0) by {
                        assert(sv.take(0).to_set() =~= Set::empty());
                        if o.len() > 0 {
                            assert(o.to_set().contains(o[0]));
                        }
                    }
                }
            }
            out.push(cur);
            proof {
                let n = text::views(out@);
                assert(n =~= o.push(sv[i as int]));
                o.lemma_push_to_set_commute(sv[i as int]);
                assert forall|a: int, b: int| 0 <= a < b < n.len() implies text::text_lt(
                    #[trigger] n[a],
                    #[trigger] n[b],
                ) by {
                    if b < o.len() {
                        assert(n[a] == o[a] && n[b] == o[b]);
                    } else {
                        assert(n[a] == o[a]);
                    }
                }
            }
        } else {
            proof {
                assert(o.last() == sv[i as int]);
                assert(o.to_set().contains(sv[i as int]));
                assert(o.to_set().insert(sv[i as int]) =~= o.to_set());
            }
        }
        i = i + 1;
    }
    assert(sv.take(sv.len() as int) =~= sv);
    proof {
        assert forall|t: Seq<char>| sv.to_set().contains(t) <==> text::views(tags@).to_set().contains(
            t,
        ) by {
            assert(sv.to_multiset().count(t) == text::views(tags@).to_multiset().count(t));
        }
        assert(sv.to_set() =~= text::views(tags@).to_set());
    }
    out
}

/// An entry's tags after a tag rename: each tag equal to `old_name`
/// becomes `new_name`, then the list is sorted and repeats (a merge)
/// dropped.
pub fn rename_tag_in(tags: &Vec<String>, old_name: &str, new_name: &str) -> (out: Vec<String>)
    ensures
        texts_strictly_sorted(text::views(out@)),
        text::views(out@).to_set() == rename_all(text::views(tags@), old_name@, new_name@).to_set(),
{
    let old_s = String::from_str(old_name);
    let new_s = String::from_str(new_name);
    let mut renamed: Vec<String> = Vec::new();
    let mut i: usize = 0;
    while i < tags.len()
        invariant
            i <= tags@.len(),
            old_s@ == old_name@,
            new_s@ == new_name@,
            text::views(renamed@) == rename_all(text::views(tags@), old_name@, new_name@).take(
                i as int,
            ),
        decreases tags@.len() - i,
    {
        let ghost before = text::views(renamed@);
        let ghost r = rename_all(text::views(tags@), old_name@, new_name@);
        assert(text::views(tags@)[i as int] == tags@[i as int]@);
        assert(r.take(i + 1) =~= r.take(i as int).push(r[i as int]));
        if tags[i] == old_s {
            renamed.push(new_s.clone());
            assert(text::views(renamed@) =~= before.push(new_name@));
        } else {
            renamed.push(tags[i].clone());
            assert(text::views(renamed@) =~= before.push(tags@[i as int]@));
        }
        assert(text::views(renamed@) =~= rename_all(text::views(tags@), old_name@, new_name@).take(
            i + 1,
        ));
        i = i + 1;
    }
    assert(rename_all(text::views(tags@), old_name@, new_name@).take(tags@.len() as int)
        =~= rename_all(text::views(tags@), old_name@, new_name@));
    sorted_unique(&renamed)
}

/// An entry's tags after a bulk "add tag": unchanged when the tag is
/// already there ignoring ASCII case; otherwise the tag is appended and
/// the list sorted.
pub fn add_tag_sorted(tags: &Vec<String>, tag: &str) -> (out: Vec<String>)
    ensures
        has_tag_ignoring_case(text::views(tags@), tag@) ==> text::views(out@) == text::views(
            tags@,
        ),
        !has_tag_ignoring_case(text::views(tags@), tag@) ==> {
            &&& text::views(out@).to_multiset() == text::views(tags@).push(tag@).to_multiset()
            &&& texts_sorted(text::views(out@))
        },
{
    if contains_ignoring_case(tags, tag) {
        let same = tags.clone();
        assert(same@ =~= tags@);
        return same;
    }
    let mut extended = tags.clone();
    extended.push(String::from_str(tag));
    assert(text::views(extended@) =~= text::views(tags@).push(tag@));
    sort_texts(&extended)
}

/// The name a tag is renamed to from what was typed: the trimmed draft,
/// or `None` (nothing to do) when it is empty or is the old name.
pub fn rename_target(old_name: &str, draft: &str) -> (r: Option<String>)
    ensures
        ({
            let n = text::trim(draft@);
            if n.len() == 0 || n == old_name@ {
                r is None
            } else {
                r matches Some(s) && s@ == n
            }
        }),
{
    let new_name = text::trimmed(draft);
    if new_name.as_str().is_empty() {
        return None;
    }
    let old = String::from_str(old_name);
    if new_name == old {
        return None;
    }
    Some(new_name)
}

/// `tags` without every tag equal to `name`, the rest in order.
pub open spec fn without_tag(tags: Seq<Seq<char>>, name: Seq<char>) -> Seq<Seq<char>> {
    tags.filter(|t: Seq<char>| t != name)
}

/// An entry's tags after deleting tag `name` outright: see [`without_tag`].
pub fn remove_tag_in(tags: &Vec<String>, name: &str) -> (out: Vec<String>)
    ensures
        text::views(out@) == without_tag(text::views(tags@), name@),
{
    let target = String::from_str(name);
    let mut out: Vec<String> = Vec::new();
    let mut i: usize = 0;
    while i < tags.len()
        invariant
            i <= tags@.len(),
            target@ == name@,
            text::views(out@) == without_tag(text::views(tags@).take(i as int), name@),
        decreases tags@.len() - i,
    {
        let ghost before = text::views(out@);
        let ghost taken = text::views(tags@).take(i + 1);
        assert(taken.drop_last() =~= text::views(tags@).take(i as int));
        assert(taken.last() == tags@[i as int]@);
        reveal(Seq::filter);
        if tags[i] != target {
            out.push(tags[i].clone());
            assert(text::views(out@) =~= before.push(tags@[i as int]@));
        }
        i = i + 1;
    }
    assert(text::views(tags@).take(tags@.len() as int) =~= text::views(tags@));
    out
}

/// How the tag manager lists tags.
#[derive(Debug, Clone, Copy, PartialEq, Eq, Structural)]
pub enum TagSort {
    /// By name.
    Name,
    /// Most used first, then by name.
    MostUsed,
    /// Least used first, then by name.
    LeastUsed,
}

/// Tag `i` is listed before tag `j` under `sort`; ties keep list order.
pub open spec fn listed_before(stats: Seq<(Seq<char>, i64)>, sort: TagSort, i: int, j: int) -> bool {
    let (a, b) = (stats[i].0, stats[j].0);
    let (u, v) = (stats[i].1, stats[j].1);
    let by_name = text::text_lt(a, b) || (a == b && i < j);
    match sort {
        TagSort::Name => by_name,
        TagSort::MostUsed => v < u || (u == v && by_name),
        TagSort::LeastUsed => u < v || (u == v && by_name),
    }
}

/// The tag manager's search: the trimmed, lower-cased query occurs in the
/// tag's lower-cased name (an empty query shows every tag).
pub open spec fn tag_found(name: Seq<char>, query: Seq<char>) -> bool {
    let q = text::lowercase(text::trim(query));
    q.len() == 0 || text::has_substring(text::lowercase(name), q)
}

/// Tag names and counts in the tag manager's order.
pub struct TagListOrder {
    pub names: Vec<Vec<char>>,
    pub counts: Vec<i64>,
    pub sort: TagSort,
}

impl TagListOrder {
    pub open spec fn stats(&self) -> Seq<(Seq<char>, i64)> {
        Seq::new(self.names@.len(), |i: int| (self.names@[i]@, self.counts@[i]))
    }
}

impl IndexOrder for TagListOrder {
    open spec fn size(&self) -> nat {
        if self.names@.len() <= self.counts@.len() {
            self.names@.len()
        } else {
            self.counts@.len()
        }
    }

    open spec fn precedes(&self, i: int, j: int) -> bool {
        let (a, b) = (self.names@[i]@, self.names@[j]@);
        let (u, v) = (self.counts@[i], self.counts@[j]);
        let by_name = text::text_lt(a, b) || (a == b && i < j);
        match self.sort {
            TagSort::Name => by_name,
            TagSort::MostUsed => v < u || (u == v && by_name),
            TagSort::LeastUsed => u < v || (u == v && by_name),
        }
    }

    proof fn lemma_order(&self, i: int, j: int, k: int) {
        let (a, b, c) = (self.names@[i]@, self.names@[j]@, self.names@[k]@);
        text::lemma_text_lt_order(a, b, c);
        text::lemma_text_lt_order(b, a, c);
        text::lemma_text_lt_order(a, c, b);
        text::lemma_text_lt_order(b, c, a);
        text::lemma_text_lt_order(c, a, b);
        text::lemma_text_lt_order(a, b, b);
        text::lemma_text_lt_order(b, b, b);
    }

    fn index_precedes(&self, i: usize, j: usize) -> (r: bool) {
        let by_name = if text::text_less(&self.names[i], &self.names[j]) {
            true
        } else if text::text_less(&self.names[j], &self.names[i]) {
            proof {
                text::lemma_text_lt_order(
                    self.names@[i as int]@,
                    self.names@[j as int]@,
                    self.names@[j as int]@,
                );
            }
            false
        } else {
            proof {
                text::lemma_text_lt_order(
                    self.names@[i as int]@,
                    self.names@[j as int]@,
                    self.names@[j as int]@,
                );
            }
            i < j
        };
        match self.sort {
            TagSort::Name => by_name,
            TagSort::MostUsed => self.counts[j] < self.counts[i] || (self.counts[i] == self.counts[j]
                && by_name),
            TagSort::LeastUsed => self.counts[i] < self.counts[j] || (self.counts[i]
                == self.counts[j] && by_name),
        }
    }
}

/// The tags the tag manager lists, as positions in `stats`: exactly those
/// the query finds (see [`tag_found`]), each once, ordered by `sort` (see
/// [`listed_before`]).
pub fn manage_tag_list(stats: &[(String, i64)], query: &str, sort: TagSort) -> (out: Vec<usize>)
    ensures
        forall|i: int|
            0 <= i < stats@.len() ==> (out@.contains(i as usize) <==> tag_found(stats@[i].0@, query@)),
        forall|k: int| 0 <= k < out@.len() ==> (#[trigger] out@[k]) < stats@.len(),
        out@.no_duplicates(),
        forall|a: int, b: int|
            0 <= a < b < out@.len() ==> listed_before(
                stat_views(stats@),
                sort,
                #[trigger] out@[a] as int,
                #[trigger] out@[b] as int,
            ),
{
    let trimmed = text::trimmed(query);
    let lowered = text::to_lowercase(trimmed.as_str());
    let q = text::chars_of(lowered.as_str());
    let mut names: Vec<Vec<char>> = Vec::new();
    let mut counts: Vec<i64> = Vec::new();
    let mut found: Vec<usize> = Vec::new();
    let mut i: usize = 0;
    while i < stats.len()
        invariant
            i <= stats@.len(),
            q@ == text::lowercase(text::trim(query@)),
            names@.len() == i,
            counts@.len() == i,
            forall|k: int|
                0 <= k < i ==> (#[trigger] names@[k])@ == stats@[k].0@ && counts@[k] == stats@[k].1,
            forall|k: int| 0 <= k < found@.len() ==> (#[trigger] found@[k]) < i,
            forall|a: int, b: int| 0 <= a < b < found@.len() ==> found@[a] < found@[b],
            forall|m: int| 0 <= m < i ==> (found@.contains(m as usize) <==> tag_found(stats@[m].0@, query@)),
        decreases stats@.len() - i,
    {
        let name = text::chars_of(stats[i].0.as_str());
        let lowered_name = text::to_lowercase(stats[i].0.as_str());
        let lower_chars = text::chars_of(lowered_name.as_str());
        let shown = q.len() == 0 || text::contains_text(&lower_chars, &q);
        proof {
            assert forall|m: int| 0 <= m < i implies (found@.contains(m as usize) <==> tag_found(
                stats@[m].0@,
                query@,
            )) by {}
        }
        let ghost before = found@;
        if shown {
            found.push(i);
            proof {
                assert forall|m: int| 0 <= m <= i implies (found@.contains(m as usize) <==> tag_found(
                    stats@[m].0@,
                    query@,
                )) by {
                    if m < i {
                        if before.contains(m as usize) {
                            let w = choose|w: int| 0 <= w < before.len() && before[w] == m as usize;
                            assert(found@[w] == m as usize);
                        }
                        if found@.contains(m as usize) {
                            let w = choose|w: int| 0 <= w < found@.len() && found@[w] == m as usize;
                            assert(w < before.len());
                            assert(before[w] == m as usize);
                        }
                    } else {
                        assert(found@[found@.len() - 1] == i);
                    }
                }
            }
        } else {
            proof {
                assert(!found@.contains(i));
            }
        }
        names.push(name);
        counts.push(stats[i].1);
        i = i + 1;
    }
    let order = TagListOrder { names, counts, sort };
    assert(order.stats() =~= stat_views(stats@));
    proof {
        assert forall|a: int, b: int| 0 <= a < found@.len() && 0 <= b < found@.len() && a != b
            implies found@[a] != found@[b] by {
            if a < b {
                assert(found@[a] < found@[b]);
            } else {
                assert(found@[b] < found@[a]);
            }
        }
    }
    let sorted = order::sort_indices(&order, &found);
    proof {
        assert forall|k: int| 0 <= k < sorted@.len() implies (#[trigger] sorted@[k]) < stats@.len() by {
            assert(sorted@.to_set().contains(sorted@[k]));
            assert(found@.to_set().contains(sorted@[k]));
            assert(found@.contains(sorted@[k]));
            let w = choose|w: int| 0 <= w < found@.len() && found@[w] == sorted@[k];
            assert(found@[w] < stats@.len());
        }
        assert forall|m: int| 0 <= m < stats@.len() implies (sorted@.contains(m as usize) <==> tag_found(
            stats@[m].0@,
            query@,
        )) by {
            if sorted@.contains(m as usize) {
                assert(sorted@.to_set().contains(m as usize));
            }
            if found@.contains(m as usize) {
                assert(found@.to_set().contains(m as usize));
            }
        }
        assert forall|a: int, b: int| 0 <= a < b < sorted@.len() implies listed_before(
            stat_views(stats@),
            sort,
            #[trigger] sorted@[a] as int,
            #[trigger] sorted@[b] as int,
        ) by {
            let (x, y) = (sorted@[a] as int, sorted@[b] as int);
            assert(order.precedes(x, y));
            assert(order.stats()[x] == (order.names@[x]@, order.counts@[x]));
            assert(order.stats()[y] == (order.names@[y]@, order.counts@[y]));
        }
    }
    sorted
}

} // verus!
