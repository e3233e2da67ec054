//! The in-memory library: entries shown in the grid and in the trash, how
//! the grid is filtered and ordered, and what each library action does to
//! the two lists.

use crate::db::queries;
use crate::db::DbError;
use crate::import;
use crate::model::{Gif, MediaFilter, SortMode};
use crate::order::{self, IndexOrder};
use crate::tags;
use crate::text;
use std::collections::HashSet;
use vstd::prelude::*;
use vstd::string::*;

verus! {

broadcast use vstd::string::group_string_axioms;

/// Decoded frames of a gif, each shown for its delay in milliseconds.
pub struct GifAnimation<F> {
    pub frames: Vec<F>,
    pub delays_ms: Vec<u64>,
}

/// A gif in the library or the trash: its row, its tags and, once decoded,
/// its animation and playback position.
pub struct GifEntry<F> {
    pub gif: Gif,
    pub animation: Option<GifAnimation<F>>,
    pub tags: Vec<String>,
    pub current_frame: usize,
    pub frame_elapsed_ms: u64,
}

impl<F> GifEntry<F> {
    /// A freshly loaded entry: not decoded, at its first frame.
    pub fn new(gif: Gif, tags: Vec<String>) -> (r: GifEntry<F>)
        ensures
            r.gif == gif,
            r.tags == tags,
            r.animation is None,
            r.current_frame == 0,
            r.frame_elapsed_ms == 0,
    {
        GifEntry { gif, animation: None, tags, current_frame: 0, frame_elapsed_ms: 0 }
    }
}

/// The tags of entry `i`, as character sequences.
pub open spec fn tags_of<F>(entries: Seq<GifEntry<F>>, i: int) -> Seq<Seq<char>> {
    text::views(entries[i].tags@)
}

/// Some tag of the entry, lower-cased, contains `filter`.
pub open spec fn matches_filter(tags: Seq<Seq<char>>, filter: Seq<char>) -> bool {
    exists|k: int| 0 <= k < tags.len() && text::has_substring(text::lowercase(#[trigger] tags[k]), filter)
}

/// Entry `i` is shown before entry `j` in `mode`: by date added (the
/// `added_at` text) or by use count, ties in list order.
pub open spec fn shown_before<F>(entries: Seq<GifEntry<F>>, mode: SortMode, i: int, j: int) -> bool {
    let (a, b) = (entries[i].gif.added_at@, entries[j].gif.added_at@);
    let (u, v) = (entries[i].gif.use_count, entries[j].gif.use_count);
    match mode {
        SortMode::DateNewest => text::text_lt(b, a) || (a == b && i < j),
        SortMode::DateOldest => text::text_lt(a, b) || (a == b && i < j),
        SortMode::MostUsed => v < u || (u == v && i < j),
        SortMode::LeastUsed => u < v || (u == v && i < j),
    }
}

/// The keys the grid is ordered by.
pub struct LibraryOrder {
    pub added: Vec<Vec<char>>,
    pub uses: Vec<i64>,
    pub mode: SortMode,
}

impl IndexOrder for LibraryOrder {
    open spec fn size(&self) -> nat {
        if self.added@.len() <= self.uses@.len() {
            self.added@.len()
        } else {
            self.uses@.len()
        }
    }

    open spec fn precedes(&self, i: int, j: int) -> bool {
        let (a, b) = (self.added@[i]@, self.added@[j]@);
        let (u, v) = (self.uses@[i], self.uses@[j]);
        match self.mode {
            SortMode::DateNewest => text::text_lt(b, a) || (a == b && i < j),
            SortMode::DateOldest => text::text_lt(a, b) || (a == b && i < j),
            SortMode::MostUsed => v < u || (u == v && i < j),
            SortMode::LeastUsed => u < v || (u == v && i < j),
        }
    }

    proof fn lemma_order(&self, i: int, j: int, k: int) {
        let (a, b, c) = (self.added@[i]@, self.added@[j]@, self.added@[k]@);
        text::lemma_text_lt_order(a, b, c);
        text::lemma_text_lt_order(b, a, c);
        text::lemma_text_lt_order(c, b, a);
        text::lemma_text_lt_order(b, c, a);
        text::lemma_text_lt_order(a, c, b);
        text::lemma_text_lt_order(c, a, b);
    }

    fn index_precedes(&self, i: usize, j: usize) -> (r: bool) {
        match self.mode {
            SortMode::DateNewest => {
                proof {
                    text::lemma_text_lt_order(
                        self.added@[i as int]@,
                        self.added@[j as int]@,
                        self.added@[j as int]@,
                    );
                }
                if text::text_less(&self.added[j], &self.added[i]) {
                    true
                } else if text::text_less(&self.added[i], &self.added[j]) {
                    false
                } else {
                    i < j
                }
            },
            SortMode::DateOldest => {
                proof {
                    text::lemma_text_lt_order(
                        self.added@[i as int]@,
                        self.added@[j as int]@,
                        self.added@[j as int]@,
                    );
                }
                if text::text_less(&self.added[i], &self.added[j]) {
                    true
                } else if text::text_less(&self.added[j], &self.added[i]) {
                    false
                } else {
                    i < j
                }
            },
            SortMode::MostUsed => self.uses[j] < self.uses[i] || (self.uses[i] == self.uses[j]
                && i < j),
            SortMode::LeastUsed => self.uses[i] < self.uses[j] || (self.uses[i] == self.uses[j]
                && i < j),
        }
    }
}

/// Whether some tag, lower-cased, contains `filter`: see [`matches_filter`].
pub(crate) fn entry_matches(tags: &Vec<String>, filter: &Vec<char>) -> (r: bool)
    ensures
        r == matches_filter(text::views(tags@), filter@),
{
    let mut k: usize = 0;
    while k < tags.len()
        invariant
            k <= tags@.len(),
            forall|m: int|
                0 <= m < k ==> !text::has_substring(
                    text::lowercase(#[trigger] text::views(tags@)[m]),
                    filter@,
                ),
        decreases tags@.len() - k,
    {
        let lowered = text::to_lowercase(tags[k].as_str());
        let chars = text::chars_of(lowered.as_str());
        assert(text::views(tags@)[k as int] == tags@[k as int]@);
        if text::contains_text(&chars, filter) {
            return true;
        }
        k = k + 1;
    }
    false
}

/// The grid's entries, as positions in `entries`: those with a tag that,
/// lower-cased, contains the trimmed, lower-cased filter (all of them when
/// the filter is blank), ordered by `sort_mode` (see [`shown_before`]).
pub fn filtered_indices<F>(entries: &Vec<GifEntry<F>>, filter_input: &str, sort_mode: SortMode) -> (out:
    Vec<usize>)
    ensures
        ({
            let f = text::lowercase(text::trim(filter_input@));
            forall|i: int|
                0 <= i < entries@.len() ==> (out@.contains(i as usize) <==> (f.len() == 0
                    || matches_filter(tags_of(entries@, i), f)))
        }),
        forall|k: int| 0 <= k < out@.len() ==> (#[trigger] out@[k]) < entries@.len(),
        out@.no_duplicates(),
        forall|a: int, b: int|
            0 <= a < b < out@.len() ==> shown_before(
                entries@,
                sort_mode,
                #[trigger] out@[a] as int,
                #[trigger] out@[b] as int,
            ),
{
    let trimmed = text::trimmed(filter_input);
    let lowered = text::to_lowercase(trimmed.as_str());
    let filter = text::chars_of(lowered.as_str());
    let ghost f = filter@;
    let mut picked: Vec<usize> = Vec::new();
    let mut added: Vec<Vec<char>> = Vec::new();
    let mut uses: Vec<i64> = Vec::new();
    let mut i: usize = 0;
    while i < entries.len()
        invariant
            i <= entries@.len(),
            f == text::lowercase(text::trim(filter_input@)),
            filter@ == f,
            added@.len() == i,
            uses@.len() == i,
            forall|m: int|
                0 <= m < i ==> (#[trigger] added@[m])@ == entries@[m].gif.added_at@ && uses@[m]
                    == entries@[m].gif.use_count,
            forall|k: int| 0 <= k < picked@.len() ==> (#[trigger] picked@[k]) < i,
            picked@.no_duplicates(),
            forall|m: int|
                0 <= m < i ==> (#[trigger] picked@.contains(m as usize) <==> (f.len() == 0
                    || matches_filter(tags_of(entries@, m), f))),
        decreases entries@.len() - i,
    {
        added.push(text::chars_of(entries[i].gif.added_at.as_str()));
        uses.push(entries[i].gif.use_count);
        let keep = filter.len() == 0 || entry_matches(&entries[i].tags, &filter);
        let ghost before = picked@;
        if keep {
            picked.push(i);
            proof {
                assert(picked@[before.len() as int] == i);
                assert forall|m: int| 0 <= m < i implies (before.contains(m as usize)
                    <==> #[trigger] picked@.contains(m as usize)) by {
                    if picked@.contains(m as usize) {
                        let q = choose|q: int| 0 <= q < picked@.len() && picked@[q] == m as usize;
                        if q < before.len() {
                            assert(before[q] == m as usize);
                        }
                    }
                    if before.contains(m as usize) {
                        let q = choose|q: int| 0 <= q < before.len() && before[q] == m as usize;
                        assert(picked@[q] == m as usize);
                    }
                }
                assert forall|a: int, b: int|
                    0 <= a < picked@.len() && 0 <= b < picked@.len() && a != b implies picked@[a]
                    != picked@[b] by {
                    if a < before.len() && b < before.len() {
                        assert(picked@[a] == before[a] && picked@[b] == before[b]);
                    } else if a < before.len() {
                        assert(picked@[a] == before[a]);
                    } else {
                        assert(picked@[b] == before[b]);
                    }
                }
            }
        } else {
            assert(!picked@.contains(i)) by {
                if picked@.contains(i) {
                    let q = choose|q: int| 0 <= q < picked@.len() && picked@[q] == i;
                }
            }
        }
        i = i + 1;
    }
    let order = LibraryOrder { added, uses, mode: sort_mode };
    let sorted = order::sort_indices(&order, &picked);
    proof {
        assert forall|a: int, b: int| 0 <= a < b < sorted@.len() implies shown_before(
            entries@,
            sort_mode,
            #[trigger] sorted@[a] as int,
            #[trigger] sorted@[b] as int,
        ) by {
            assert(order.precedes(sorted@[a] as int, sorted@[b] as int));
            assert(sorted@.to_set().contains(sorted@[a]));
            assert(sorted@.to_set().contains(sorted@[b]));
            let qa = choose|q: int| 0 <= q < picked@.len() && picked@[q] == sorted@[a];
            let qb = choose|q: int| 0 <= q < picked@.len() && picked@[q] == sorted@[b];
            let (x, y) = (sorted@[a] as int, sorted@[b] as int);
            assert(x < entries@.len() && y < entries@.len());
            assert(order.added@[x]@ == entries@[x].gif.added_at@ && order.uses@[x]
                == entries@[x].gif.use_count);
            assert(order.added@[y]@ == entries@[y].gif.added_at@ && order.uses@[y]
                == entries@[y].gif.use_count);
        }
        assert forall|k: int| 0 <= k < sorted@.len() implies (#[trigger] sorted@[k])
            < entries@.len() by {
            assert(sorted@.to_set().contains(sorted@[k]));
            let q = choose|q: int| 0 <= q < picked@.len() && picked@[q] == sorted@[k];
        }
        assert forall|m: int| 0 <= m < entries@.len() implies (#[trigger] sorted@.contains(m as usize)
            <==> picked@.contains(m as usize)) by {
            if sorted@.contains(m as usize) {
                assert(sorted@.to_set().contains(m as usize));
            }
            if picked@.contains(m as usize) {
                assert(picked@.to_set().contains(m as usize));
            }
        }
    }
    sorted
}


/// The position of the first entry for gif `gif_id`, if any.
pub fn position_of<F>(entries: &Vec<GifEntry<F>>, gif_id: i64) -> (r: Option<usize>)
    ensures
        match r {
            Some(p) => p < entries@.len() && entries@[p as int].gif.id == gif_id && forall|q: int|
                0 <= q < p ==> (#[trigger] entries@[q]).gif.id != gif_id,
            None => forall|q: int| 0 <= q < entries@.len() ==> (#[trigger] entries@[q]).gif.id != gif_id,
        },
{
    let mut i: usize = 0;
    while i < entries.len()
        invariant
            i <= entries@.len(),
            forall|q: int| 0 <= q < i ==> (#[trigger] entries@[q]).gif.id != gif_id,
        decreases entries@.len() - i,
    {
        if entries[i].gif.id == gif_id {
            return Some(i);
        }
        i = i + 1;
    }
    None
}

/// `e` with its row replaced by `refreshed` when there is one.
pub open spec fn with_row<F>(e: GifEntry<F>, refreshed: Option<Gif>) -> GifEntry<F> {
    match refreshed {
        Some(g) => GifEntry { gif: g, ..e },
        None => e,
    }
}

/// Moves the entry at `pos` of `from` to the front of `to`, with its row
/// replaced by `refreshed` when there is one: what trashing a gif does
/// (library to trash) and what restoring one does (trash to library).
pub fn move_entry_to_front<F>(
    from: &mut Vec<GifEntry<F>>,
    to: &mut Vec<GifEntry<F>>,
    pos: usize,
    refreshed: Option<Gif>,
)
    requires
        pos < old(from)@.len(),
    ensures
        final(from)@ == old(from)@.remove(pos as int),
        final(to)@ == seq![with_row(old(from)@[pos as int], refreshed)] + old(to)@,
{
    let mut entry = from.remove(pos);
    match refreshed {
        Some(g) => {
            entry.gif = g;
        },
        None => {},
    }
    to.insert(0, entry);
    assert(to@ =~= seq![with_row(old(from)@[pos as int], refreshed)] + old(to)@);
}

/// Trashing a gif and then restoring it brings the trash back to what it
/// was and puts the gif back in the library, at the front, with every
/// other library entry where it was.
pub proof fn lemma_trash_then_restore<F>(
    library: Seq<GifEntry<F>>,
    trash: Seq<GifEntry<F>>,
    pos: int,
    trashed_row: Option<Gif>,
    restored_row: Option<Gif>,
)
    requires
        0 <= pos < library.len(),
    ensures
        ({
            let library1 = library.remove(pos);
            let trash1 = seq![with_row(library[pos], trashed_row)] + trash;
            let trash2 = trash1.remove(0);
            let library2 = seq![with_row(trash1[0], restored_row)] + library1;
            &&& trash2 == trash
            &&& library2 == seq![with_row(with_row(library[pos], trashed_row), restored_row)]
                + library.remove(pos)
            &&& library2[0].tags == library[pos].tags
            &&& library2[0].animation == library[pos].animation
        }),
{
    let library1 = library.remove(pos);
    let trash1 = seq![with_row(library[pos], trashed_row)] + trash;
    assert(trash1.remove(0) =~= trash);
    assert(trash1[0] == with_row(library[pos], trashed_row));
}

/// Counts a clipboard copy of the entry at `pos`.
pub fn record_copy<F>(entries: &mut Vec<GifEntry<F>>, pos: usize)
    requires
        pos < old(entries)@.len(),
        old(entries)@[pos as int].gif.use_count < i64::MAX,
    ensures
        final(entries)@ == old(entries)@.update(
            pos as int,
            GifEntry {
                gif: Gif {
                    use_count: (old(entries)@[pos as int].gif.use_count + 1) as i64,
                    ..old(entries)@[pos as int].gif
                },
                ..old(entries)@[pos as int]
            },
        ),
{
    entries[pos].gif.use_count = entries[pos].gif.use_count + 1;
}

/// Replaces the tags of the entry at `pos`.
pub fn set_entry_tags<F>(entries: &mut Vec<GifEntry<F>>, pos: usize, tags: Vec<String>)
    requires
        pos < old(entries)@.len(),
    ensures
        final(entries)@ == old(entries)@.update(pos as int, GifEntry { tags, ..old(entries)@[pos as int] }),
{
    entries[pos].tags = tags;
}

/// Every entry's tags after renaming tag `old_name` to `new_name`
/// (merging into `new_name` when it already exists): see
/// [`tags::rename_tag_in`]. Nothing else changes.
pub fn rename_tag_everywhere<F>(entries: &mut Vec<GifEntry<F>>, old_name: &str, new_name: &str)
    ensures
        final(entries)@.len() == old(entries)@.len(),
        forall|i: int|
            0 <= i < final(entries)@.len() ==> {
                &&& (#[trigger] final(entries)@[i]).gif == old(entries)@[i].gif
                &&& final(entries)@[i].animation == old(entries)@[i].animation
                &&& final(entries)@[i].current_frame == old(entries)@[i].current_frame
                &&& final(entries)@[i].frame_elapsed_ms == old(entries)@[i].frame_elapsed_ms
                &&& tags::texts_strictly_sorted(text::views(final(entries)@[i].tags@))
                &&& text::views(final(entries)@[i].tags@).to_set() == tags::rename_all(
                    text::views(old(entries)@[i].tags@),
                    old_name@,
                    new_name@,
                ).to_set()
            },
{
    let mut i: usize = 0;
    while i < entries.len()
        invariant
            i <= entries@.len(),
            entries@.len() == old(entries)@.len(),
            forall|k: int|
                i <= k < entries@.len() ==> #[trigger] entries@[k] == old(entries)@[k],
            forall|k: int|
                0 <= k < i ==> {
                    &&& (#[trigger] entries@[k]).gif == old(entries)@[k].gif
                    &&& entries@[k].animation == old(entries)@[k].animation
                    &&& entries@[k].current_frame == old(entries)@[k].current_frame
                    &&& entries@[k].frame_elapsed_ms == old(entries)@[k].frame_elapsed_ms
                    &&& tags::texts_strictly_sorted(text::views(entries@[k].tags@))
                    &&& text::views(entries@[k].tags@).to_set() == tags::rename_all(
                        text::views(old(entries)@[k].tags@),
                        old_name@,
                        new_name@,
                    ).to_set()
                },
        decreases entries@.len() - i,
    {
        let renamed = tags::rename_tag_in(&entries[i].tags, old_name, new_name);
        entries[i].tags = renamed;
        i = i + 1;
    }
}


/// Where playback stands after `elapsed` more milliseconds, from frame `cur`
/// with `elapsed` milliseconds already spent on it: while the time spent
/// reaches the current frame's delay, that delay is used up and playback
/// moves to the next frame, wrapping after the last.
pub open spec fn advance(delays: Seq<u64>, cur: int, elapsed: int) -> (int, int)
    decreases elapsed,
{
    if 0 <= cur < delays.len() && delays[cur] > 0 && elapsed >= delays[cur] {
        advance(delays, (cur + 1) % (delays.len() as int), elapsed - delays[cur])
    } else {
        (cur, elapsed)
    }
}

/// The entry can be animated: at most its frames have delays, all
/// positive, and it stands on one of its frames.
pub open spec fn playable<F>(e: GifEntry<F>) -> bool {
    match e.animation {
        Some(a) => {
            &&& a.delays_ms@.len() == a.frames@.len()
            &&& e.current_frame < a.frames@.len()
            &&& forall|k: int| 0 <= k < a.delays_ms@.len() ==> #[trigger] a.delays_ms@[k] > 0
        },
        None => true,
    }
}

/// One animation tick for an entry on screen: a decoded animation of more
/// than one frame is advanced by `elapsed_ms` (see [`advance`]); anything
/// else is left as it is.
pub fn advance_frame<F>(entry: &mut GifEntry<F>, elapsed_ms: u64)
    requires
        playable(*old(entry)),
        old(entry).frame_elapsed_ms + elapsed_ms <= u64::MAX,
    ensures
        final(entry).gif == old(entry).gif,
        final(entry).tags == old(entry).tags,
        final(entry).animation == old(entry).animation,
        playable(*final(entry)),
        match old(entry).animation {
            Some(a) => if a.frames@.len() <= 1 {
                final(entry).current_frame == old(entry).current_frame
                    && final(entry).frame_elapsed_ms == old(entry).frame_elapsed_ms
            } else {
                (final(entry).current_frame as int, final(entry).frame_elapsed_ms as int) == advance(
                    a.delays_ms@,
                    old(entry).current_frame as int,
                    old(entry).frame_elapsed_ms + elapsed_ms,
                )
            },
            None => final(entry).current_frame == old(entry).current_frame
                && final(entry).frame_elapsed_ms == old(entry).frame_elapsed_ms,
        },
{
    let (len, mut current, mut elapsed) = match &entry.animation {
        None => return,
        Some(a) => (a.frames.len(), entry.current_frame, entry.frame_elapsed_ms),
    };
    if len <= 1 {
        return;
    }
    elapsed = elapsed + elapsed_ms;
    let ghost delays = entry.animation.unwrap().delays_ms@;
    let ghost target = advance(delays, current as int, elapsed as int);
    loop
        invariant
            entry.animation matches Some(a) && a.delays_ms@ == delays && a.frames@.len() == len,
            delays.len() == len,
            len > 1,
            current < len,
            forall|k: int| 0 <= k < delays.len() ==> #[trigger] delays[k] > 0,
            advance(delays, current as int, elapsed as int) == target,
        ensures
            current < len,
            elapsed < delays[current as int],
            advance(delays, current as int, elapsed as int) == target,
        decreases elapsed,
    {
        let delay = match &entry.animation {
            Some(a) => a.delays_ms[current],
            None => 0,
        };
        if elapsed < delay {
            break;
        }
        elapsed = elapsed - delay;
        current = (current + 1) % len;
    }
    entry.current_frame = current;
    entry.frame_elapsed_ms = elapsed;
}

/// The numbers on the Stats screen.
#[derive(Debug, Clone, Copy, Default)]
pub struct LibraryStats {
    pub gif_count: usize,
    /// Of the library, how many are animated gifs (by file extension)...
    pub animated_count: usize,
    /// ...and how many still images.
    pub static_count: usize,
    pub total_size_bytes: u64,
    pub local_count: usize,
    pub url_count: usize,
    pub total_copies: i64,
    pub trash_count: usize,
    pub trash_size_bytes: u64,
}

/// The sum of the known sizes; unknown ones count as nothing.
pub open spec fn sum_sizes(sizes: Seq<Option<u64>>) -> int
    decreases sizes.len(),
{
    if sizes.len() == 0 {
        0
    } else {
        sum_sizes(sizes.drop_last()) + match sizes.last() {
            Some(n) => n as int,
            None => 0,
        }
    }
}

/// The sum of the first `n` entries' use counts.
pub open spec fn sum_uses<F>(entries: Seq<GifEntry<F>>, n: int) -> int
    decreases n,
{
    if n <= 0 {
        0
    } else {
        sum_uses(entries, n - 1) + entries[n - 1].gif.use_count
    }
}

/// How many of the first `n` entries were imported from a local file
/// (anything but a URL).
pub open spec fn count_local<F>(entries: Seq<GifEntry<F>>, n: int) -> int
    decreases n,
{
    if n <= 0 {
        0
    } else {
        count_local(entries, n - 1) + if entries[n - 1].gif.source_type@ != "url"@ {
            1int
        } else {
            0int
        }
    }
}

/// The gif is an animated gif rather than a still image: its file's
/// extension is `gif` in any ASCII case.
pub open spec fn is_animated(gif: Gif) -> bool {
    import::is_gif_name(decode_source(gif))
}

/// How many of the first `n` entries are animated gifs.
pub open spec fn count_animated<F>(entries: Seq<GifEntry<F>>, n: int) -> int
    decreases n,
{
    if n <= 0 {
        0
    } else {
        count_animated(entries, n - 1) + if is_animated(entries[n - 1].gif) {
            1int
        } else {
            0int
        }
    }
}

/// Whether a gif is an animated gif: see [`is_animated`].
pub fn is_animated_gif(gif: &Gif) -> (r: bool)
    ensures
        r == is_animated(*gif),
{
    import::is_gif_file(decode_path(gif))
}

/// How many entries are animated gifs: see [`count_animated`].
pub fn animated_entries<F>(entries: &Vec<GifEntry<F>>) -> (r: usize)
    ensures
        r == count_animated(entries@, entries@.len() as int),
        r <= entries@.len(),
{
    let mut count: usize = 0;
    let mut i: usize = 0;
    while i < entries.len()
        invariant
            i <= entries@.len(),
            count == count_animated(entries@, i as int),
            count <= i,
        decreases entries@.len() - i,
    {
        if is_animated_gif(&entries[i].gif) {
            count = count + 1;
        }
        i = i + 1;
    }
    count
}

/// The gif is shown under the media filter.
pub open spec fn media_shown(gif: Gif, media: MediaFilter) -> bool {
    match media {
        MediaFilter::All => true,
        MediaFilter::Gifs => is_animated(gif),
        MediaFilter::Images => !is_animated(gif),
    }
}

/// The grid positions kept under a media filter: those of `indices` whose
/// gif it shows, in the same order.
pub fn filter_by_media<F>(entries: &Vec<GifEntry<F>>, indices: &Vec<usize>, media: MediaFilter) -> (out:
    Vec<usize>)
    requires
        forall|k: int| 0 <= k < indices@.len() ==> #[trigger] indices@[k] < entries@.len(),
    ensures
        out@ == indices@.filter(|i: usize| media_shown(entries@[i as int].gif, media)),
{
    let ghost keep = |i: usize| media_shown(entries@[i as int].gif, media);
    let mut out: Vec<usize> = Vec::new();
    let mut k: usize = 0;
    while k < indices.len()
        invariant
            k <= indices@.len(),
            forall|m: int| 0 <= m < indices@.len() ==> #[trigger] indices@[m] < entries@.len(),
            keep == (|i: usize| media_shown(entries@[i as int].gif, media)),
            out@ == indices@.take(k as int).filter(keep),
        decreases indices@.len() - k,
    {
        let index = indices[k];
        assert(indices@.take(k + 1).drop_last() =~= indices@.take(k as int));
        assert(indices@.take(k + 1).last() == index);
        reveal(Seq::filter);
        let shown = match media {
            MediaFilter::All => true,
            MediaFilter::Gifs => is_animated_gif(&entries[index].gif),
            MediaFilter::Images => !is_animated_gif(&entries[index].gif),
        };
        if shown {
            out.push(index);
        }
        k = k + 1;
    }
    assert(indices@.take(indices@.len() as int) =~= indices@);
    out
}

/// The total of the known sizes, like `Iterator::sum` over them.
pub fn total_size(sizes: &Vec<Option<u64>>) -> (r: u64)
    requires
        forall|k: int| 0 <= k <= sizes@.len() ==> #[trigger] sum_sizes(sizes@.take(k)) <= u64::MAX,
    ensures
        r == sum_sizes(sizes@),
{
    let mut total: u64 = 0;
    let mut i: usize = 0;
    while i < sizes.len()
        invariant
            i <= sizes@.len(),
            total == sum_sizes(sizes@.take(i as int)),
            forall|k: int| 0 <= k <= sizes@.len() ==> #[trigger] sum_sizes(sizes@.take(k)) <= u64::MAX,
        decreases sizes@.len() - i,
    {
        assert(sizes@.take(i + 1).drop_last() =~= sizes@.take(i as int));
        assert(sizes@.take(i + 1).last() == sizes@[i as int]);
        assert(sum_sizes(sizes@.take(i + 1)) <= u64::MAX);
        match sizes[i] {
            Some(n) => {
                total = total + n;
            },
            None => {},
        }
        i = i + 1;
    }
    assert(sizes@.take(sizes@.len() as int) =~= sizes@);
    total
}

/// The Stats screen's numbers, from the library and trash lists and the
/// on-disk size of each one's stored file where it is known
/// (`library_sizes[i]` for `library[i]`, `trash_sizes[i]` for `trash[i]`).
pub fn library_stats<F>(
    library: &Vec<GifEntry<F>>,
    trash: &Vec<GifEntry<F>>,
    library_sizes: &Vec<Option<u64>>,
    trash_sizes: &Vec<Option<u64>>,
) -> (r: LibraryStats)
    requires
        forall|k: int|
            0 <= k <= library_sizes@.len() ==> #[trigger] sum_sizes(library_sizes@.take(k))
                <= u64::MAX,
        forall|k: int|
            0 <= k <= trash_sizes@.len() ==> #[trigger] sum_sizes(trash_sizes@.take(k)) <= u64::MAX,
        forall|k: int|
            0 <= k <= library@.len() ==> i64::MIN <= #[trigger] sum_uses(library@, k) <= i64::MAX,
    ensures
        r.gif_count == library@.len(),
        r.animated_count == count_animated(library@, library@.len() as int),
        r.static_count == library@.len() - count_animated(library@, library@.len() as int),
        r.total_size_bytes == sum_sizes(library_sizes@),
        r.local_count == count_local(library@, library@.len() as int),
        r.url_count == library@.len() - count_local(library@, library@.len() as int),
        r.total_copies == sum_uses(library@, library@.len() as int),
        r.trash_count == trash@.len(),
        r.trash_size_bytes == sum_sizes(trash_sizes@),
{
    let url = String::from_str("url");
    let mut local_count: usize = 0;
    let mut total_copies: i64 = 0;
    let mut i: usize = 0;
    while i < library.len()
        invariant
            i <= library@.len(),
            url@ == "url"@,
            local_count == count_local(library@, i as int),
            local_count <= i,
            total_copies == sum_uses(library@, i as int),
            forall|k: int|
                0 <= k <= library@.len() ==> i64::MIN <= #[trigger] sum_uses(library@, k) <= i64::MAX,
        decreases library@.len() - i,
    {
        if library[i].gif.source_type != url {
            local_count = local_count + 1;
        }
        assert(i64::MIN <= sum_uses(library@, i + 1) <= i64::MAX);
        total_copies = total_copies + library[i].gif.use_count;
        i = i + 1;
    }
    let animated_count = animated_entries(library);
    LibraryStats {
        gif_count: library.len(),
        animated_count,
        static_count: library.len() - animated_count,
        total_size_bytes: total_size(library_sizes),
        local_count,
        url_count: library.len() - local_count,
        total_copies,
        trash_count: trash.len(),
        trash_size_bytes: total_size(trash_sizes),
    }
}

/// The file a gif is decoded from: its stored copy, or its source when it
/// has none.
pub open spec fn decode_source(gif: Gif) -> Seq<char> {
    match gif.local_cache_path {
        Some(p) => p@,
        None => gif.source_path@,
    }
}

/// The file a gif is decoded from: see [`decode_source`].
pub fn decode_path(gif: &Gif) -> (r: &str)
    ensures
        r@ == decode_source(*gif),
{
    match &gif.local_cache_path {
        Some(p) => p.as_str(),
        None => gif.source_path.as_str(),
    }
}

/// A gif imported before dimensions were recorded (they default to zero)
/// gets them peeked from its file once.
pub fn needs_dimensions(gif: &Gif) -> (r: bool)
    ensures
        r == !(gif.width > 0 && gif.height > 0),
{
    !(gif.width > 0 && gif.height > 0)
}

/// `p` is the first position of gif `id` in `entries`.
pub open spec fn first_position<F>(entries: Seq<GifEntry<F>>, id: i64, p: int) -> bool {
    &&& 0 <= p < entries.len()
    &&& entries[p].gif.id == id
    &&& forall|q: int| 0 <= q < p ==> (#[trigger] entries[q]).gif.id != id
}

/// The position of gif `id` in `entries` when it is there and not decoded
/// yet.
pub open spec fn undecoded_position<F>(entries: Seq<GifEntry<F>>, id: i64) -> Option<int> {
    if exists|p: int| first_position(entries, id, p) {
        let p = choose|p: int| first_position(entries, id, p);
        if entries[p].animation is None {
            Some(p)
        } else {
            None
        }
    } else {
        None
    }
}

/// The positions of the gifs among `ids` that are in `entries` and not
/// decoded yet, in the order of `ids`.
pub open spec fn decode_queue<F>(entries: Seq<GifEntry<F>>, ids: Seq<i64>) -> Seq<int>
    decreases ids.len(),
{
    if ids.len() == 0 {
        seq![]
    } else {
        let rest = decode_queue(entries, ids.drop_last());
        match undecoded_position(entries, ids.last()) {
            Some(p) => rest.push(p),
            None => rest,
        }
    }
}

proof fn lemma_first_position_unique<F>(entries: Seq<GifEntry<F>>, id: i64, p: int, q: int)
    requires
        first_position(entries, id, p),
        first_position(entries, id, q),
    ensures
        p == q,
{
    if p < q {
        assert(entries[p].gif.id != id);
    } else if q < p {
        assert(entries[q].gif.id != id);
    }
}

/// Which of the gifs just scrolled into view still need decoding: the
/// positions of those among `ids` that are loaded and not decoded yet, in
/// the order of `ids`. See [`decode_queue`].
pub fn entries_needing_decode<F>(entries: &Vec<GifEntry<F>>, ids: &[i64]) -> (out: Vec<usize>)
    ensures
        out@.len() == decode_queue(entries@, ids@).len(),
        forall|k: int| 0 <= k < out@.len() ==> #[trigger] out@[k] == decode_queue(entries@, ids@)[k],
{
    let mut out: Vec<usize> = Vec::new();
    let mut i: usize = 0;
    while i < ids.len()
        invariant
            i <= ids@.len(),
            out@.len() == decode_queue(entries@, ids@.take(i as int)).len(),
            forall|k: int|
                0 <= k < out@.len() ==> #[trigger] out@[k] == decode_queue(
                    entries@,
                    ids@.take(i as int),
                )[k],
        decreases ids@.len() - i,
    {
        let id = ids[i];
        let ghost taken = ids@.take(i + 1);
        assert(taken.drop_last() =~= ids@.take(i as int));
        assert(taken.last() == id);
        let ghost before = out@;
        match position_of(entries, id) {
            Some(p) => {
                proof {
                    assert(first_position(entries@, id, p as int));
                    let c = choose|c: int| first_position(entries@, id, c);
                    lemma_first_position_unique(entries@, id, p as int, c);
                }
                if entries[p].animation.is_none() {
                    out.push(p);
                }
            },
            None => {
                proof {
                    if exists|c: int| first_position(entries@, id, c) {
                        let c = choose|c: int| first_position(entries@, id, c);
                        assert(entries@[c].gif.id == id);
                    }
                }
            },
        }
        i = i + 1;
    }
    assert(ids@.take(ids@.len() as int) =~= ids@);
    out
}

/// Loaded entries for rows, in the same order: none decoded, each with
/// the tags read for it (`tags[i]` for `gifs[i]`), or none when reading
/// them failed.
pub fn entries_from<F>(gifs: Vec<Gif>, tags: Vec<Result<Vec<String>, DbError>>) -> (r: Vec<GifEntry<F>>)
    requires
        gifs@.len() == tags@.len(),
    ensures
        r@.len() == gifs@.len(),
        forall|i: int|
            0 <= i < r@.len() ==> {
                &&& (#[trigger] r@[i]).gif == gifs@[i]
                &&& r@[i].animation is None
                &&& r@[i].current_frame == 0
                &&& r@[i].frame_elapsed_ms == 0
                &&& (tags@[i] matches Ok(t) ==> r@[i].tags == t)
                &&& (tags@[i] is Err ==> r@[i].tags@.len() == 0)
            },
{
    let ghost gs = gifs@;
    let ghost ts = tags@;
    let mut rest_gifs = gifs;
    let mut rest_tags = tags;
    let mut out: Vec<GifEntry<F>> = Vec::new();
    while rest_gifs.len() > 0
        invariant
            out@.len() + rest_gifs@.len() == gs.len(),
            rest_gifs@.len() == rest_tags@.len(),
            gs.len() == ts.len(),
            forall|i: int| 0 <= i < rest_gifs@.len() ==> #[trigger] rest_gifs@[i] == gs[out@.len() + i],
            forall|i: int| 0 <= i < rest_tags@.len() ==> #[trigger] rest_tags@[i] == ts[out@.len() + i],
            forall|i: int|
                0 <= i < out@.len() ==> {
                    &&& (#[trigger] out@[i]).gif == gs[i]
                    &&& out@[i].animation is None
                    &&& out@[i].current_frame == 0
                    &&& out@[i].frame_elapsed_ms == 0
                    &&& (ts[i] matches Ok(t) ==> out@[i].tags == t)
                    &&& (ts[i] is Err ==> out@[i].tags@.len() == 0)
                },
        decreases rest_gifs@.len(),
    {
        let gif = rest_gifs.remove(0);
        let read = rest_tags.remove(0);
        let tag_list = match read {
            Ok(t) => t,
            Err(_) => Vec::new(),
        };
        out.push(GifEntry::new(gif, tag_list));
    }
    out
}

/// Loaded entries for rows read from the database, in the same order:
/// none decoded, each with the tags that reading its own gif's tags gave
/// ([`queries::list_tags_for_gif`] called with its id; none when that
/// read fails); see [`entries_from`].
pub fn build_entries<F>(conn: &rusqlite::Connection, gifs: Vec<Gif>) -> (r: Vec<GifEntry<F>>)
    ensures
        loaded_from(conn, gifs@, r@),
{
    let mut tags: Vec<Result<Vec<String>, DbError>> = Vec::new();
    let mut i: usize = 0;
    while i < gifs.len()
        invariant
            i <= gifs@.len(),
            tags@.len() == i,
            forall|k: int|
                0 <= k < i ==> call_ensures(
                    queries::list_tags_for_gif,
                    (conn, gifs@[k].id),
                    #[trigger] tags@[k],
                ),
        decreases gifs@.len() - i,
    {
        tags.push(queries::list_tags_for_gif(conn, gifs[i].id));
        i = i + 1;
    }
    let ghost gs = gifs@;
    let ghost ts = tags@;
    let r = entries_from(gifs, tags);
    assert forall|i: int| #![trigger r@[i]] 0 <= i < r@.len() implies exists|
        read: Result<Vec<String>, DbError>,
    |
        {
            &&& call_ensures(queries::list_tags_for_gif, (conn, gs[i].id), read)
            &&& (read matches Ok(t) ==> r@[i].tags == t)
            &&& (read is Err ==> r@[i].tags@.len() == 0)
        } by {
        assert(call_ensures(queries::list_tags_for_gif, (conn, gs[i].id), ts[i]));
    }
    r
}

/// The rows a query gave: none when it failed.
pub open spec fn rows_of<T>(rows: Result<Vec<T>, DbError>) -> Seq<T> {
    match rows {
        Ok(v) => v@,
        Err(_) => seq![],
    }
}

/// The rows of a query that failed read as no rows, as the grid shows an
/// empty library rather than an error.
pub fn rows_or_empty<T>(rows: Result<Vec<T>, DbError>) -> (r: Vec<T>)
    ensures
        rows matches Ok(v) ==> r == v,
        rows is Err ==> r@.len() == 0,
        r@ == rows_of(rows),
{
    match rows {
        Ok(v) => v,
        Err(_) => Vec::new(),
    }
}

/// Entries loaded from the database for `rows`, in their order: none
/// decoded, each with the tags read for its own gif (none when that read
/// failed).
pub open spec fn loaded_from<F>(conn: &rusqlite::Connection, rows: Seq<Gif>, r: Seq<GifEntry<F>>) -> bool {
    &&& r.len() == rows.len()
    &&& forall|i: int|
        0 <= i < r.len() ==> {
            &&& (#[trigger] r[i]).gif == rows[i]
            &&& r[i].animation is None
            &&& r[i].current_frame == 0
            &&& r[i].frame_elapsed_ms == 0
            &&& exists|read: Result<Vec<String>, DbError>|
                {
                    &&& call_ensures(queries::list_tags_for_gif, (conn, rows[i].id), read)
                    &&& (read matches Ok(t) ==> r[i].tags == t)
                    &&& (read is Err ==> r[i].tags@.len() == 0)
                }
        }
}

/// The library's entries: the gifs not in the trash, most recently added
/// first ([`queries::list_gifs`]; none when that read fails), each with
/// its own tags.
pub fn load_entries<F>(conn: &rusqlite::Connection) -> (r: Vec<GifEntry<F>>)
    ensures
        forall|i: int|
            0 <= i < r@.len() ==> (#[trigger] r@[i]).animation is None && r@[i].current_frame == 0
                && r@[i].frame_elapsed_ms == 0,
        exists|rows: Result<Vec<Gif>, DbError>|
            #[trigger] call_ensures(queries::list_gifs, (conn,), rows) && loaded_from(
                conn,
                rows_of(rows),
                r@,
            ),
{
    let rows = queries::list_gifs(conn);
    let ghost read = rows;
    let r = build_entries(conn, rows_or_empty(rows));
    assert(call_ensures(queries::list_gifs, (conn,), read));
    r
}

/// The trash's entries, most recently deleted first
/// ([`queries::list_deleted_gifs`]; none when that read fails), each with
/// its own tags.
pub fn load_deleted_entries<F>(conn: &rusqlite::Connection) -> (r: Vec<GifEntry<F>>)
    ensures
        forall|i: int|
            0 <= i < r@.len() ==> (#[trigger] r@[i]).animation is None && r@[i].current_frame == 0
                && r@[i].frame_elapsed_ms == 0,
        exists|rows: Result<Vec<Gif>, DbError>|
            #[trigger] call_ensures(queries::list_deleted_gifs, (conn,), rows) && loaded_from(
                conn,
                rows_of(rows),
                r@,
            ),
{
    let rows = queries::list_deleted_gifs(conn);
    let ghost read = rows;
    let r = build_entries(conn, rows_or_empty(rows));
    assert(call_ensures(queries::list_deleted_gifs, (conn,), read));
    r
}

/// Puts a loaded entry for `gif`, with `tags`, at the front of the
/// library, without reloading the rest.
pub fn push_entry<F>(entries: &mut Vec<GifEntry<F>>, gif: Gif, tags: Vec<String>)
    ensures
        final(entries)@ == seq![
            GifEntry::<F> { gif, animation: None, tags, current_frame: 0, frame_elapsed_ms: 0 },
        ] + old(entries)@,
{
    entries.insert(0, GifEntry::new(gif, tags));
    assert(entries@ =~= seq![
        GifEntry::<F> { gif, animation: None, tags, current_frame: 0, frame_elapsed_ms: 0 },
    ] + old(entries)@);
}

/// Puts a just-imported gif at the front of the library, read back from
/// the database by its id with its tags (none when they cannot be read),
/// without reloading the rest. When its row cannot be read, that error is
/// returned and nothing changes.
pub fn push_new_entry<F>(conn: &rusqlite::Connection, entries: &mut Vec<GifEntry<F>>, gif_id: i64) -> (r:
    Result<(), DbError>)
    ensures
        r is Err ==> final(entries)@ == old(entries)@,
        r is Ok ==> final(entries)@.len() == old(entries)@.len() + 1 && final(entries)@.drop_first()
            == old(entries)@ && final(entries)@[0].animation is None && final(entries)@[0].current_frame
            == 0 && final(entries)@[0].frame_elapsed_ms == 0,
        r is Ok ==> #[trigger] call_ensures(
            queries::get_gif,
            (conn, gif_id),
            Ok::<Gif, DbError>(final(entries)@[0].gif),
        ) && loaded_from(conn, seq![final(entries)@[0].gif], final(entries)@.take(1)),
{
    let read = queries::get_gif(conn, gif_id);
    let ghost row = read;
    let gif = read?;
    let tag_read = queries::list_tags_for_gif(conn, gif.id);
    let ghost tag_row = tag_read;
    let tags = match tag_read {
        Ok(t) => t,
        Err(_) => Vec::new(),
    };
    push_entry(entries, gif, tags);
    assert(call_ensures(queries::get_gif, (conn, gif_id), row));
    assert(call_ensures(queries::list_tags_for_gif, (conn, entries@[0].gif.id), tag_row));
    assert(entries@.take(1)[0] == entries@[0]);
    assert(entries@.drop_first() =~= old(entries)@);
    Ok(())
}

/// Every entry's tags after deleting tag `name` outright (see
/// [`tags::without_tag`]). Nothing else changes.
pub fn remove_tag_everywhere<F>(entries: &mut Vec<GifEntry<F>>, name: &str)
    ensures
        final(entries)@.len() == old(entries)@.len(),
        forall|i: int|
            0 <= i < final(entries)@.len() ==> {
                &&& (#[trigger] final(entries)@[i]).gif == old(entries)@[i].gif
                &&& final(entries)@[i].animation == old(entries)@[i].animation
                &&& final(entries)@[i].current_frame == old(entries)@[i].current_frame
                &&& final(entries)@[i].frame_elapsed_ms == old(entries)@[i].frame_elapsed_ms
                &&& text::views(final(entries)@[i].tags@) == tags::without_tag(
                    text::views(old(entries)@[i].tags@),
                    name@,
                )
            },
{
    let mut i: usize = 0;
    while i < entries.len()
        invariant
            i <= entries@.len(),
            entries@.len() == old(entries)@.len(),
            forall|k: int| i <= k < entries@.len() ==> #[trigger] entries@[k] == old(entries)@[k],
            forall|k: int|
                0 <= k < i ==> {
                    &&& (#[trigger] entries@[k]).gif == old(entries)@[k].gif
                    &&& entries@[k].animation == old(entries)@[k].animation
                    &&& entries@[k].current_frame == old(entries)@[k].current_frame
                    &&& entries@[k].frame_elapsed_ms == old(entries)@[k].frame_elapsed_ms
                    &&& text::views(entries@[k].tags@) == tags::without_tag(
                        text::views(old(entries)@[k].tags@),
                        name@,
                    )
                },
        decreases entries@.len() - i,
    {
        let kept = tags::remove_tag_in(&entries[i].tags, name);
        entries[i].tags = kept;
        i = i + 1;
    }
}

/// Frees the decoded frames of every entry not among `visible`, so memory
/// does not grow as the grid is scrolled: such an entry is back to not
/// decoded, at its first frame, and decodes again (from the cache) when it
/// comes back into view. Entries among `visible` are unchanged.
pub fn release_offscreen<F>(entries: &mut Vec<GifEntry<F>>, visible: &[i64])
    ensures
        final(entries)@.len() == old(entries)@.len(),
        forall|i: int|
            0 <= i < final(entries)@.len() ==> if visible@.contains(old(entries)@[i].gif.id) {
                #[trigger] final(entries)@[i] == old(entries)@[i]
            } else {
                final(entries)@[i] == GifEntry::<F> {
                    animation: None,
                    current_frame: 0,
                    frame_elapsed_ms: 0,
                    ..old(entries)@[i]
                }
            },
{
    let mut i: usize = 0;
    while i < entries.len()
        invariant
            i <= entries@.len(),
            entries@.len() == old(entries)@.len(),
            forall|k: int| i <= k < entries@.len() ==> #[trigger] entries@[k] == old(entries)@[k],
            forall|k: int|
                0 <= k < i ==> if visible@.contains(old(entries)@[k].gif.id) {
                    #[trigger] entries@[k] == old(entries)@[k]
                } else {
                    entries@[k] == GifEntry::<F> {
                        animation: None,
                        current_frame: 0,
                        frame_elapsed_ms: 0,
                        ..old(entries)@[k]
                    }
                },
        decreases entries@.len() - i,
    {
        let id = entries[i].gif.id;
        let mut shown = false;
        let mut j: usize = 0;
        while j < visible.len()
            invariant
                j <= visible@.len(),
                shown == visible@.take(j as int).contains(id),
            decreases visible@.len() - j,
        {
            let ghost s = visible@.take(j as int);
            let ghost s2 = visible@.take(j + 1);
            assert(s2 =~= s.push(visible@[j as int]));
            proof {
                if s.contains(id) {
                    let k = choose|k: int| 0 <= k < s.len() && s[k] == id;
                    assert(s2[k] == id);
                }
                if visible@[j as int] == id {
                    assert(s2[j as int] == id);
                }
                if s2.contains(id) {
                    let k = choose|k: int| 0 <= k < s2.len() && s2[k] == id;
                    if k < j {
                        assert(s[k] == id);
                    }
                }
            }
            if visible[j] == id {
                shown = true;
            }
            j = j + 1;
        }
        assert(visible@.take(visible@.len() as int) =~= visible@);
        if !shown {
            entries[i].animation = None;
            entries[i].current_frame = 0;
            entries[i].frame_elapsed_ms = 0;
        }
        i = i + 1;
    }
}

/// The selection after tapping `gif_id` in select mode: a selected gif
/// leaves the selection, any other joins it, and no other id changes.
pub open spec fn toggled(selected: Set<i64>, gif_id: i64) -> Set<i64> {
    if selected.contains(gif_id) {
        selected.remove(gif_id)
    } else {
        selected.insert(gif_id)
    }
}

/// Selecting a tile in select mode (see [`toggled`]).
pub fn toggle_selected(selected: &mut HashSet<i64>, gif_id: i64)
    ensures
        final(selected)@ == toggled(old(selected)@, gif_id),
{
    broadcast use vstd::std_specs::hash::group_hash_axioms;

    if !selected.insert(gif_id) {
        selected.remove(&gif_id);
    }
}

/// Tapping the same tile twice gives back the selection that was there
/// before the first tap.
pub proof fn lemma_toggle_twice_restores(selected: Set<i64>, gif_id: i64)
    ensures
        toggled(toggled(selected, gif_id), gif_id) == selected,
{
    if selected.contains(gif_id) {
        assert(selected.remove(gif_id).insert(gif_id) =~= selected);
    } else {
        assert(selected.insert(gif_id).remove(gif_id) =~= selected);
    }
}

/// What bulk tagging does to one gif's tags: unchanged when it already has
/// `tag` (ignoring ASCII case); otherwise `tag` is added and the list
/// sorted (see [`tags::add_tag_sorted`]).
pub open spec fn bulk_tagged(old: Seq<Seq<char>>, new: Seq<Seq<char>>, tag: Seq<char>) -> bool {
    if tags::has_tag_ignoring_case(old, tag) {
        new == old
    } else {
        new.to_multiset() == old.push(tag).to_multiset() && tags::texts_sorted(new)
    }
}

/// The entry at `i` is where one of the selected gifs `ids` first stands.
pub open spec fn selected_entry<F>(ids: Seq<i64>, entries: Seq<GifEntry<F>>, i: int) -> bool {
    exists|k: int| 0 <= k < ids.len() && first_position(entries, #[trigger] ids[k], i)
}

proof fn lemma_bulk_tagged_has(old: Seq<Seq<char>>, new: Seq<Seq<char>>, tag: Seq<char>)
    requires
        bulk_tagged(old, new, tag),
    ensures
        tags::has_tag_ignoring_case(new, tag),
{
    broadcast use vstd::seq_lib::group_to_multiset_ensures;

    if !tags::has_tag_ignoring_case(old, tag) {
        assert(old.push(tag).to_multiset().count(tag) > 0);
        assert(new.to_multiset().count(tag) > 0);
        assert(new.contains(tag));
        let w = choose|w: int| 0 <= w < new.len() && new[w] == tag;
        assert(text::eq_ignore_ascii_case(new[w], tag));
    }
}

/// Bulk tagging: every gif of the selection that is in `entries` (at its
/// first place) gets `tag` when it lacks it, its tags then sorted; every
/// other entry, and everything else of each entry, is unchanged.
pub fn tag_selected<F>(entries: &mut Vec<GifEntry<F>>, selected: &Vec<i64>, tag: &str)
    ensures
        final(entries)@.len() == old(entries)@.len(),
        forall|i: int|
            0 <= i < final(entries)@.len() ==> {
                &&& (#[trigger] final(entries)@[i]).gif == old(entries)@[i].gif
                &&& final(entries)@[i].animation == old(entries)@[i].animation
                &&& final(entries)@[i].current_frame == old(entries)@[i].current_frame
                &&& final(entries)@[i].frame_elapsed_ms == old(entries)@[i].frame_elapsed_ms
                &&& if selected_entry(selected@, old(entries)@, i) {
                    bulk_tagged(
                        text::views(old(entries)@[i].tags@),
                        text::views(final(entries)@[i].tags@),
                        tag@,
                    )
                } else {
                    final(entries)@[i].tags == old(entries)@[i].tags
                }
            },
{
    let mut k: usize = 0;
    while k < selected.len()
        invariant
            k <= selected@.len(),
            entries@.len() == old(entries)@.len(),
            forall|i: int|
                0 <= i < entries@.len() ==> {
                    &&& (#[trigger] entries@[i]).gif == old(entries)@[i].gif
                    &&& entries@[i].animation == old(entries)@[i].animation
                    &&& entries@[i].current_frame == old(entries)@[i].current_frame
                    &&& entries@[i].frame_elapsed_ms == old(entries)@[i].frame_elapsed_ms
                    &&& if selected_entry(selected@.take(k as int), old(entries)@, i) {
                        bulk_tagged(
                            text::views(old(entries)@[i].tags@),
                            text::views(entries@[i].tags@),
                            tag@,
                        ) && tags::has_tag_ignoring_case(text::views(entries@[i].tags@), tag@)
                    } else {
                        entries@[i].tags == old(entries)@[i].tags
                    }
                },
        decreases selected@.len() - k,
    {
        let id = selected[k];
        let ghost prev = selected@.take(k as int);
        let ghost next = selected@.take(k + 1);
        assert(next =~= prev.push(id));
        let ghost before = entries@;
        match position_of(entries, id) {
            Some(p) => {
                let updated = tags::add_tag_sorted(&entries[p].tags, tag);
                entries[p].tags = updated;
                proof {
                    assert(first_position(old(entries)@, id, p as int)) by {
                        assert forall|q: int| 0 <= q < p implies (#[trigger] old(entries)@[q]).gif.id
                            != id by {
                            assert(before[q].gif == old(entries)@[q].gif);
                        }
                    }
                    assert forall|i: int| 0 <= i < entries@.len() implies {
                        &&& (#[trigger] entries@[i]).gif == old(entries)@[i].gif
                        &&& entries@[i].animation == old(entries)@[i].animation
                        &&& entries@[i].current_frame == old(entries)@[i].current_frame
                        &&& entries@[i].frame_elapsed_ms == old(entries)@[i].frame_elapsed_ms
                        &&& if selected_entry(next, old(entries)@, i) {
                            bulk_tagged(
                                text::views(old(entries)@[i].tags@),
                                text::views(entries@[i].tags@),
                                tag@,
                            ) && tags::has_tag_ignoring_case(text::views(entries@[i].tags@), tag@)
                        } else {
                            entries@[i].tags == old(entries)@[i].tags
                        }
                    } by {
                        if i == p {
                            assert(next[k as int] == id);
                            assert(selected_entry(next, old(entries)@, i));
                            let o = text::views(old(entries)@[i].tags@);
                            let c = text::views(before[i].tags@);
                            if selected_entry(prev, old(entries)@, i) {
                                assert(tags::has_tag_ignoring_case(c, tag@));
                            } else {
                                assert(c == o);
                                lemma_bulk_tagged_has(o, text::views(entries@[i].tags@), tag@);
                            }
                        } else {
                            assert(entries@[i] == before[i]);
                            if selected_entry(next, old(entries)@, i) {
                                let kk = choose|kk: int| 0 <= kk < next.len() && first_position(
                                    old(entries)@,
                                    #[trigger] next[kk],
                                    i,
                                );
                                if kk == k {
                                    assert(first_position(old(entries)@, id, i));
                                    if i < p {
                                        assert(old(entries)@[i].gif.id != id);
                                    } else {
                                        assert(old(entries)@[p as int].gif.id != id);
                                    }
                                }
                                assert(prev[kk] == next[kk]);
                                assert(selected_entry(prev, old(entries)@, i));
                            } else {
                                if selected_entry(prev, old(entries)@, i) {
                                    let kk = choose|kk: int| 0 <= kk < prev.len() && first_position(
                                        old(entries)@,
                                        #[trigger] prev[kk],
                                        i,
                                    );
                                    assert(next[kk] == prev[kk]);
                                }
                            }
                        }
                    }
                }
            },
            None => {
                proof {
                    assert forall|i: int| 0 <= i < entries@.len() implies (selected_entry(
                        next,
                        old(entries)@,
                        i,
                    ) == selected_entry(prev, old(entries)@, i)) by {
                        if selected_entry(next, old(entries)@, i) {
                            let kk = choose|kk: int| 0 <= kk < next.len() && first_position(
                                old(entries)@,
                                #[trigger] next[kk],
                                i,
                            );
                            if kk == k {
                                assert(entries@[i].gif.id == id);
                            }
                            assert(prev[kk] == next[kk]);
                        }
                        if selected_entry(prev, old(entries)@, i) {
                            let kk = choose|kk: int| 0 <= kk < prev.len() && first_position(
                                old(entries)@,
                                #[trigger] prev[kk],
                                i,
                            );
                            assert(next[kk] == prev[kk]);
                        }
                    }
                }
            },
        }
        k = k + 1;
    }
    assert(selected@.take(selected@.len() as int) =~= selected@);
}

} // verus!
