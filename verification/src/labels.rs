//! Texts shown in the views, and how tag pills are wrapped into rows.

use crate::text;
use vstd::prelude::*;
use vstd::string::*;

verus! {

broadcast use vstd::string::group_string_axioms;

/// How many characters of a source link the import dialog shows.
pub const PREVIEW_CHARS: usize = 40;

/// The import dialog's short form of a source link: its first
/// [`PREVIEW_CHARS`] characters and an ellipsis when it is longer, then a
/// link mark.
pub open spec fn source_preview_text(source: Seq<char>) -> Seq<char> {
    if source.len() > PREVIEW_CHARS {
        source.take(PREVIEW_CHARS as int) + "… 🔗"@
    } else {
        source + " 🔗"@
    }
}

/// The short form of a source link: see [`source_preview_text`].
pub fn source_preview(source: &str) -> (r: String)
    ensures
        r@ == source_preview_text(source@),
{
    let n = source.unicode_len();
    if n > PREVIEW_CHARS {
        let mut r = String::from_str(source.substring_char(0, PREVIEW_CHARS));
        r.append("… 🔗");
        r
    } else {
        let mut r = String::from_str(source);
        r.append(" 🔗");
        r
    }
}

/// The tag line under a gif: `Tags: ` and its tags separated by `, `, or
/// `Tags: (none)`.
pub fn tags_line(tags: &Vec<String>) -> (r: String)
    ensures
        r@ == if tags@.len() == 0 {
            "Tags: (none)"@
        } else {
            "Tags: "@ + text::join(text::views(tags@), ", "@)
        },
{
    if tags.len() == 0 {
        return String::from_str("Tags: (none)");
    }
    let mut r = String::from_str("Tags: ");
    let joined = text::join_with(tags.as_slice(), ", ");
    r.append(joined.as_str());
    r
}

/// When a trashed gif was deleted: `Deleted: ` and the time, or `unknown`.
pub fn deleted_line(deleted_at: &Option<String>) -> (r: String)
    ensures
        r@ == "Deleted: "@ + match deleted_at {
            Some(d) => d@,
            None => "unknown"@,
        },
{
    let mut r = String::from_str("Deleted: ");
    match deleted_at {
        Some(d) => r.append(d.as_str()),
        None => r.append("unknown"),
    }
    r
}

/// The widest a row of pills may get, in pixels.
pub const MAX_PILL_ROW_WIDTH: u64 = 400;

/// A pill's width: 7 pixels per character plus 46 for its padding and
/// close button.
pub open spec fn pill_width(chars: nat) -> int {
    (7 * chars + 46) as int
}

/// The row of each pill and the width used on the last row, laying pills
/// out left to right with 6 pixels between them: a pill that would make a
/// non-empty row wider than [`MAX_PILL_ROW_WIDTH`] starts a new row.
pub open spec fn pill_layout(lengths: Seq<nat>) -> (Seq<int>, int)
    decreases lengths.len(),
{
    if lengths.len() == 0 {
        (seq![], 0)
    } else {
        let (rows, used) = pill_layout(lengths.drop_last());
        let w = pill_width(lengths.last());
        let row = if rows.len() == 0 {
            0
        } else {
            rows.last()
        };
        if used > 0 && used + w > MAX_PILL_ROW_WIDTH {
            (rows.push(row + 1), w + 6)
        } else {
            (rows.push(row), used + w + 6)
        }
    }
}

pub open spec fn char_counts(tags: Seq<String>) -> Seq<nat> {
    tags.map_values(|t: String| t@.len())
}

proof fn lemma_pill_layout_bounds(lengths: Seq<nat>)
    ensures
        pill_layout(lengths).0.len() == lengths.len(),
        pill_layout(lengths).1 >= 0,
        forall|i: int|
            0 <= i < lengths.len() ==> 0 <= #[trigger] pill_layout(lengths).0[i] <= i,
    decreases lengths.len(),
{
    if lengths.len() > 0 {
        lemma_pill_layout_bounds(lengths.drop_last());
    }
}

/// The row each staged pill goes on in the tag editor, which has no
/// wrapping layout of its own: see [`pill_layout`].
pub fn pill_rows(tags: &Vec<String>) -> (rows: Vec<usize>)
    ensures
        rows@.len() == tags@.len(),
        forall|i: int|
            0 <= i < rows@.len() ==> #[trigger] rows@[i] == pill_layout(char_counts(tags@)).0[i],
{
    let ghost lengths = char_counts(tags@);
    let mut rows: Vec<usize> = Vec::new();
    let mut used: u128 = 0;
    let mut row: usize = 0;
    let mut i: usize = 0;
    while i < tags.len()
        invariant
            i <= tags@.len(),
            lengths == char_counts(tags@),
            rows@.len() == i,
            pill_layout(lengths.take(i as int)).1 == used,
            used <= 0x1_0000_0000_0000_0000_0000u128,
            forall|k: int|
                0 <= k < i ==> #[trigger] rows@[k] == pill_layout(lengths.take(i as int)).0[k],
            i > 0 ==> row == rows@[i - 1],
            i == 0 ==> row == 0,
            row <= i,
        decreases tags@.len() - i,
    {
        let ghost prev = lengths.take(i as int);
        let ghost next = lengths.take(i + 1);
        assert(next.drop_last() =~= prev);
        assert(next.last() == tags@[i as int]@.len());
        proof {
            lemma_pill_layout_bounds(prev);
        }
        let n = tags[i].as_str().unicode_len();
        let width: u128 = 7 * (n as u128) + 46;
        if used > 0 && used + width > MAX_PILL_ROW_WIDTH as u128 {
            row = row + 1;
            used = width + 6;
        } else {
            used = used + width + 6;
        }
        rows.push(row);
        i = i + 1;
    }
    assert(lengths.take(tags@.len() as int) =~= lengths);
    rows
}

} // verus!
