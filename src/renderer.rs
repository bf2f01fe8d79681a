//! Layout arithmetic of the session list: column widths, line wrapping, the
//! main area and the window of rows that is drawn.

use crate::text::{texts, words_of};
use crate::types::SessionItem;
use std::time::Duration;
use vstd::prelude::*;
use vstd::string::*;
use vstd::utf8::{decode_utf8, encode_utf8, encode_utf8_decode_utf8, is_char_boundary};

verus! {

/// The length in bytes of the UTF-8 form of `s`, as `str::len` reports it.
pub open spec fn byte_len(s: Seq<char>) -> usize {
    encode_utf8(s).len() as usize
}

/// The width that `item` asks of the name column: its name in bytes after a
/// two-column marker; none (0) for a directory.
pub open spec fn item_width(item: SessionItem) -> int {
    match item {
        SessionItem::ExistingSession { name, .. } => byte_len(name@) + 2,
        SessionItem::ResurrectableSession { name, .. } => byte_len(name@) + 2,
        SessionItem::Directory { .. } => 0,
    }
}

/// The widest that an item of `items` asks, 0 for none.
pub open spec fn column_width(items: Seq<SessionItem>) -> int
    decreases items.len(),
{
    if items.len() == 0 {
        0
    } else {
        let rest = column_width(items.drop_last());
        let w = item_width(items.last());
        if w > rest {
            w
        } else {
            rest
        }
    }
}

/// Greedy filling of lines with `words`: the lines closed so far and the line
/// being filled. A word joins the line, after one space, while the line stays
/// within `max_width` bytes; otherwise it starts a new line.
pub open spec fn fill_lines(words: Seq<Seq<char>>, max_width: usize) -> (Seq<Seq<char>>, Seq<char>)
    decreases words.len(),
{
    if words.len() == 0 {
        (Seq::empty(), Seq::empty())
    } else {
        let (lines, line) = fill_lines(words.drop_last(), max_width);
        let w = words.last();
        if line.len() == 0 {
            (lines, w)
        } else if byte_len(line) + 1 + byte_len(w) <= max_width {
            (lines, line + seq![' '] + w)
        } else {
            (lines.push(line), w)
        }
    }
}

/// The lines that wrapping `text` to `max_width` bytes gives.
pub open spec fn wrapped(text: Seq<char>, max_width: usize) -> Seq<Seq<char>> {
    if byte_len(text) <= max_width {
        seq![text]
    } else {
        let (lines, line) = fill_lines(words_of(text), max_width);
        if line.len() == 0 {
            lines
        } else {
            lines.push(line)
        }
    }
}

/// Relies on `str::split_whitespace`: the maximal runs of `s` without white
/// space.
#[verifier::external_body]
fn words(s: &str) -> (r: Vec<String>)
    ensures
        texts(r@) == words_of(s@),
{
    s.split_whitespace().map(|w| w.to_string()).collect()
}

/// What `humantime::format_duration` writes for `d`.
pub uninterp spec fn duration_text(d: Duration) -> Seq<char>;

/// Relies on `humantime::format_duration` and its `Display`: the text depends
/// on the duration alone.
#[verifier::external_body]
fn format_duration(d: Duration) -> (r: String)
    ensures
        r@ == duration_text(d),
{
    humantime::format_duration(d).to_string()
}

/// How long ago a resurrectable session died, as the list shows it.
pub open spec fn age_text(d: Duration) -> Seq<char> {
    duration_text(d) + " ago"@
}

/// `a - b`, or 0 when `b` is larger.
pub open spec fn sat_sub(a: int, b: int) -> int {
    if a > b {
        a - b
    } else {
        0
    }
}

/// Where character `idx` of the name part of a session's search text lands in
/// the listed row: the two-column marker and the name keep their place, up to
/// the name column's width.
pub open spec fn name_part_index(idx: int, name_len: int, name_col_width: int) -> Option<int> {
    if idx < 2 {
        Some(idx)
    } else {
        let shown = if 2 + name_len < name_col_width {
            2 + name_len
        } else {
            name_col_width
        };
        if idx < shown {
            Some(idx)
        } else {
            None
        }
    }
}

/// Where character `idx` of an item's search text lands in the row that
/// `render_item` draws, if it is shown. The search text of a live session is
/// `marker name (directory)`, of a resurrectable one `marker name (created
/// age)`, of a directory its path; the row puts the directory or age in a
/// column after the name column, and cuts long directories and paths from the
/// left behind `...`.
pub open spec fn highlight_index(item: SessionItem, idx: int, max_width: int, name_col_width: int) -> Option<int> {
    match item {
        SessionItem::ExistingSession { name, directory, .. } => {
            let nl = byte_len(name@) as int;
            let dl = byte_len(directory@) as int;
            let old_dir_start = 2 + nl + 2;
            let new_dir_start = name_col_width + 2;
            if idx < 2 + nl {
                name_part_index(idx, nl, name_col_width)
            } else if old_dir_start <= idx < old_dir_start + dl {
                let dir_idx = idx - old_dir_start;
                let dir_col_max = sat_sub(max_width, new_dir_start);
                if dl > dir_col_max && dir_col_max > 10 {
                    let truncated_start = sat_sub(dl, dir_col_max - 3);
                    if dir_idx >= truncated_start {
                        Some(new_dir_start + 3 + (dir_idx - truncated_start))
                    } else {
                        None
                    }
                } else {
                    Some(new_dir_start + dir_idx)
                }
            } else {
                None
            }
        },
        SessionItem::ResurrectableSession { name, duration } => {
            let nl = byte_len(name@) as int;
            let old_dur_start = 2 + nl + 10;
            let new_dur_start = name_col_width + 2;
            if idx < 2 + nl {
                name_part_index(idx, nl, name_col_width)
            } else if idx >= old_dur_start && idx - old_dur_start < byte_len(age_text(duration))
                && new_dur_start + (idx - old_dur_start) <= usize::MAX {
                Some(new_dur_start + (idx - old_dur_start))
            } else {
                None
            }
        },
        SessionItem::Directory { path, .. } => {
            let pl = byte_len(path@) as int;
            if pl > max_width && max_width > 10 {
                let truncated_start = sat_sub(pl, max_width - 3);
                if idx >= truncated_start {
                    Some(idx - truncated_start + 3)
                } else {
                    None
                }
            } else {
                Some(idx)
            }
        },
    }
}

/// The shown positions of the search match `indices`, in order, those not
/// shown left out.
pub open spec fn highlight_indices(
    item: SessionItem,
    indices: Seq<usize>,
    max_width: int,
    name_col_width: int,
) -> Seq<usize>
    decreases indices.len(),
{
    if indices.len() == 0 {
        Seq::empty()
    } else {
        let rest = highlight_indices(item, indices.drop_last(), max_width, name_col_width);
        match highlight_index(item, indices.last() as int, max_width, name_col_width) {
            Some(p) => rest.push(p as usize),
            None => rest,
        }
    }
}

/// The widths that the highlight arithmetic of `item` stays within.
pub open spec fn highlight_fits(item: SessionItem, name_col_width: int) -> bool {
    match item {
        SessionItem::ExistingSession { name, directory, .. } => byte_len(name@) + 4 <= usize::MAX
            && name_col_width + 2 + byte_len(directory@) <= usize::MAX,
        SessionItem::ResurrectableSession { name, .. } => byte_len(name@) + 12 <= usize::MAX
            && name_col_width + 2 <= usize::MAX,
        SessionItem::Directory { .. } => true,
    }
}

/// `n` copies of `c`.
pub open spec fn repeated(c: char, n: nat) -> Seq<char> {
    Seq::new(n, |i: int| c)
}

/// `s` centred in `width` columns, as `format!("{:^width$}", s)` writes it: the
/// spaces split evenly, the odd one on the right; a text as wide or wider
/// stays as it is.
pub open spec fn centered(s: Seq<char>, width: nat) -> Seq<char> {
    if s.len() >= width {
        s
    } else {
        let pad = (width - s.len()) as nat;
        repeated(' ', pad / 2) + s + repeated(' ', (pad - pad / 2) as nat)
    }
}

/// One line of the dialog's body: `s` centred between two side borders.
pub open spec fn boxed(s: Seq<char>, inner: nat) -> Seq<char> {
    "│"@ + centered(s, inner) + "│"@
}

/// The warning that the deletion dialog shows.
pub open spec fn deletion_warning() -> Seq<char> {
    "If this is a resurrectable session, it will be deleted. This action cannot be undone."@
}

/// The prompt that the deletion dialog shows.
pub open spec fn deletion_prompt() -> Seq<char> {
    "Press 'y' to confirm, 'n' or Esc to cancel"@
}

/// The width of the deletion dialog on a screen `width` columns wide.
pub open spec fn dialog_width(width: int) -> int {
    if sat_sub(width, 4) < 60 {
        sat_sub(width, 4)
    } else {
        60
    }
}

/// Each of `lines` between side borders.
pub open spec fn boxed_all(lines: Seq<Seq<char>>, inner: nat) -> Seq<Seq<char>> {
    lines.map_values(|l: Seq<char>| boxed(l, inner))
}

/// The lines of the deletion dialog for `session_name`, `inner` columns
/// inside its borders, with the warning wrapped to `content` columns: a top
/// border, the question, the warning, a blank line, the prompt and a bottom
/// border.
pub open spec fn dialog_lines(session_name: Seq<char>, inner: nat, content: usize) -> Seq<Seq<char>> {
    seq!["┌"@ + repeated('─', inner) + "┐"@, boxed("Kill session '"@ + session_name + "'?"@, inner)]
        + boxed_all(wrapped(deletion_warning(), content), inner)
        + seq![boxed(Seq::empty(), inner), boxed(deletion_prompt(), inner), "└"@ + repeated('─', inner) + "┘"@]
}

/// `s` padded with spaces on the right to `width` characters, as
/// `format!("{:<width$}", s)` writes it.
pub open spec fn padded(s: Seq<char>, width: nat) -> Seq<char> {
    if s.len() >= width {
        s
    } else {
        s + repeated(' ', (width - s.len()) as nat)
    }
}

/// Where a text longer than `max` bytes is cut so that `...` and the rest fit.
pub open spec fn cut_point(s: Seq<char>, max: int) -> int {
    sat_sub(byte_len(s) as int, max - 3)
}

/// A text too long for `max` bytes (and `max` above 10) is cut from the left:
/// `...` followed by its last `max - 3` bytes.
pub open spec fn cut_left(s: Seq<char>, max: int) -> Seq<char> {
    if byte_len(s) > max && max > 10 {
        "..."@ + decode_utf8(encode_utf8(s).subrange(cut_point(s, max), encode_utf8(s).len() as int))
    } else {
        s
    }
}

/// Cutting `s` to `max` bytes falls between two characters.
pub open spec fn cuts_cleanly(s: Seq<char>, max: int) -> bool {
    byte_len(s) > max && max > 10 ==> is_char_boundary(encode_utf8(s), cut_point(s, max))
}

/// The text of the row that lists `item`.
pub open spec fn row_text(item: SessionItem, max_width: int, name_col_width: nat) -> Seq<char> {
    match item {
        SessionItem::ExistingSession { name, directory, is_current } => {
            let marker = if is_current {
                "● "@
            } else {
                "○ "@
            };
            padded(marker + name@, name_col_width) + "  "@ + cut_left(
                directory@,
                sat_sub(max_width, name_col_width + 2 as int),
            )
        },
        SessionItem::ResurrectableSession { name, duration } => padded(
            "↺ "@ + name@,
            name_col_width,
        ) + "  "@ + age_text(duration),
        SessionItem::Directory { path, .. } => cut_left(path@, max_width),
    }
}

/// The emphasis of the row of `item`: colour index and byte range of the name.
pub open spec fn row_emphasis(item: SessionItem) -> Option<(usize, usize, usize)> {
    match item {
        SessionItem::ExistingSession { name, is_current, .. } => Some(
            (
                if is_current {
                    2usize
                } else {
                    1usize
                },
                2usize,
                (2 + byte_len(name@)) as usize,
            ),
        ),
        SessionItem::ResurrectableSession { name, .. } => Some(
            (1usize, 2usize, (2 + byte_len(name@)) as usize),
        ),
        SessionItem::Directory { .. } => None,
    }
}

/// The row of `item` can be laid out: its numbers fit and its cuts fall
/// between characters.
pub open spec fn row_fits(item: SessionItem, max_width: int, name_col_width: int) -> bool {
    match item {
        SessionItem::ExistingSession { name, directory, .. } => byte_len(name@) + 2 <= usize::MAX
            && name_col_width + 2 <= usize::MAX && cuts_cleanly(
            directory@,
            sat_sub(max_width, name_col_width + 2),
        ),
        SessionItem::ResurrectableSession { name, .. } => byte_len(name@) + 2 <= usize::MAX,
        SessionItem::Directory { path, .. } => cuts_cleanly(path@, max_width),
    }
}

/// A listed row: its text and the emphasis of the name in it.
pub struct ItemRow {
    pub text: String,
    /// Colour index, then start and end of the emphasised bytes.
    pub emphasis: Option<(usize, usize, usize)>,
}

/// `s` cut from the left to fit `max` bytes behind `...`, when it is longer.
fn cut_from_left(s: &str, max: usize) -> (r: String)
    requires
        cuts_cleanly(s@, max as int),
    ensures
        r@ == cut_left(s@, max as int),
{
    let len = s.len();
    if len > max && max > 10 {
        let cut = len.saturating_sub(max - 3);
        let (_, tail) = s.split_at(cut);
        proof {
            reveal_strlit("...");
            encode_utf8_decode_utf8(tail@);
        }
        let mut r = String::from_str("...");
        r.append(tail);
        r
    } else {
        String::from_str(s)
    }
}

/// `marker` and `name`, padded to `width` characters.
fn name_cell(marker: &str, name: &str, width: usize) -> (r: String)
    ensures
        r@ == padded(marker@ + name@, width as nat),
{
    proof {
        reveal_strlit(" ");
    }
    let mut cell = String::from_str(marker);
    cell.append(name);
    let n = cell.as_str().unicode_len();
    if n < width {
        push_repeated(&mut cell, " ", width - n);
    }
    cell
}

/// Appends `n` copies of the one-character text `c` to `s`.
fn push_repeated(s: &mut String, c: &str, n: usize)
    requires
        c@.len() == 1,
    ensures
        final(s)@ == old(s)@ + repeated(c@[0], n as nat),
{
    let ghost start = s@;
    let mut i: usize = 0;
    while i < n
        invariant
            c@.len() == 1,
            i <= n,
            s@ == start + repeated(c@[0], i as nat),
        decreases n - i,
    {
        s.append(c);
        assert(start + repeated(c@[0], (i + 1) as nat) =~= start + repeated(c@[0], i as nat) + c@);
        i = i + 1;
    }
}

/// `s` centred between side borders in `inner` columns.
fn boxed_line(s: &str, inner: usize) -> (r: String)
    ensures
        r@ == boxed(s@, inner as nat),
{
    proof {
        reveal_strlit("│");
        reveal_strlit(" ");
    }
    let mut line = String::from_str("│");
    let len = s.unicode_len();
    if len >= inner {
        line.append(s);
    } else {
        let pad = inner - len;
        push_repeated(&mut line, " ", pad / 2);
        line.append(s);
        push_repeated(&mut line, " ", pad - pad / 2);
    }
    line.append("│");
    proof {
        assert(line@ =~= boxed(s@, inner as nat));
    }
    line
}

/// A horizontal border: `left`, `inner` rules, `right`.
fn border_line(left: &str, right: &str, inner: usize) -> (r: String)
    ensures
        r@ == left@ + repeated('─', inner as nat) + right@,
{
    proof {
        reveal_strlit("─");
    }
    let mut line = String::from_str(left);
    push_repeated(&mut line, "─", inner);
    line.append(right);
    line
}

/// Where search match `idx` of a session's name part lands.
fn name_part_position(idx: usize, name_len: usize, name_col_width: usize) -> (r: Option<usize>)
    requires
        name_len + 2 <= usize::MAX,
    ensures
        match name_part_index(idx as int, name_len as int, name_col_width as int) {
            Some(p) => r == Some(p as usize),
            None => r is None,
        },
{
    if idx < 2 {
        Some(idx)
    } else {
        let shown = if 2 + name_len < name_col_width {
            2 + name_len
        } else {
            name_col_width
        };
        if idx < shown {
            Some(idx)
        } else {
            None
        }
    }
}

/// The rows of a scrolled window in a table of `table_rows` rows, one of them
/// the title.
pub open spec fn window_rows(table_rows: int) -> int {
    sat_sub(table_rows, 1)
}

/// The first item of a scrolled window: half the window above the selected
/// item (the first item when none is selected), but not before the first item.
pub open spec fn window_first(table_rows: int, selected_index: Option<usize>) -> int {
    let sel = match selected_index {
        Some(s) => s as int,
        None => 0,
    };
    sat_sub(sel, window_rows(table_rows) / 2)
}

/// Places the plugin's interface on the screen.
pub struct PluginRenderer;

impl PluginRenderer {
    /// The width of the name column: the longest session name of `items` in
    /// bytes, plus two for its marker; directories do not count.
    pub fn calculate_name_column_width(items: &[SessionItem]) -> (r: usize)
        requires
            forall|i: int| 0 <= i < items@.len() ==> item_width(#[trigger] items@[i]) <= usize::MAX,
        ensures
            r == column_width(items@),
    {
        let mut widest: usize = 0;
        let mut i: usize = 0;
        while i < items.len()
            invariant
                i <= items@.len(),
                forall|j: int| 0 <= j < items@.len() ==> item_width(#[trigger] items@[j]) <= usize::MAX,
                widest == column_width(items@.take(i as int)),
            decreases items@.len() - i,
        {
            let w: usize = match &items[i] {
                SessionItem::ExistingSession { name, .. } => name.as_str().len() + 2,
                SessionItem::ResurrectableSession { name, .. } => name.as_str().len() + 2,
                SessionItem::Directory { .. } => 0,
            };
            proof {
                assert(items@.take(i + 1).drop_last() =~= items@.take(i as int));
                assert(items@.take(i + 1).last() == items@[i as int]);
            }
            if w > widest {
                widest = w;
            }
            i = i + 1;
        }
        assert(items@.take(items@.len() as int) =~= items@);
        widest
    }

    /// The row that lists `item`: a live session as its marker (`●` current,
    /// `○` otherwise) and name padded to the name column, two spaces and its
    /// directory cut to the rest of `max_width`; a resurrectable one as `↺`,
    /// its name and how long ago it died; a directory as its path cut to
    /// `max_width`. Session names are emphasised.
    pub fn item_row(item: &SessionItem, max_width: usize, name_col_width: usize) -> (r: ItemRow)
        requires
            row_fits(*item, max_width as int, name_col_width as int),
        ensures
            r.text@ == row_text(*item, max_width as int, name_col_width as nat),
            r.emphasis == row_emphasis(*item),
    {
        proof {
            reveal_strlit("● ");
            reveal_strlit("○ ");
            reveal_strlit("↺ ");
            reveal_strlit("  ");
            reveal_strlit(" ago");
        }
        match item {
            SessionItem::ExistingSession { name, directory, is_current } => {
                let marker = if *is_current {
                    "● "
                } else {
                    "○ "
                };
                let mut text = name_cell(marker, name.as_str(), name_col_width);
                text.append("  ");
                let dir_max_width = max_width.saturating_sub(name_col_width + 2);
                let dir = cut_from_left(directory.as_str(), dir_max_width);
                text.append(dir.as_str());
                let color: usize = if *is_current {
                    2
                } else {
                    1
                };
                ItemRow { text, emphasis: Some((color, 2, 2 + name.as_str().len())) }
            },
            SessionItem::ResurrectableSession { name, duration } => {
                let mut text = name_cell("↺ ", name.as_str(), name_col_width);
                text.append("  ");
                let age = format_duration(*duration);
                text.append(age.as_str());
                text.append(" ago");
                assert(text@ =~= row_text(*item, max_width as int, name_col_width as nat));
                ItemRow { text, emphasis: Some((1, 2, 2 + name.as_str().len())) }
            },
            SessionItem::Directory { path, .. } => {
                let text = cut_from_left(path.as_str(), max_width);
                ItemRow { text, emphasis: None }
            },
        }
    }

    /// The positions in the listed row of `item` (see `render_item`) of the
    /// search matches `indices`, which count in the item's search text; matches
    /// that the row does not show are left out.
    pub fn search_highlight_indices(
        item: &SessionItem,
        indices: &[usize],
        max_width: usize,
        name_col_width: usize,
    ) -> (r: Vec<usize>)
        requires
            highlight_fits(*item, name_col_width as int),
        ensures
            r@ == highlight_indices(*item, indices@, max_width as int, name_col_width as int),
    {
        let mut out: Vec<usize> = Vec::new();
        let mut i: usize = 0;
        while i < indices.len()
            invariant
                i <= indices@.len(),
                highlight_fits(*item, name_col_width as int),
                out@ == highlight_indices(*item, indices@.take(i as int), max_width as int, name_col_width as int),
            decreases indices@.len() - i,
        {
            proof {
                assert(indices@.take(i + 1).drop_last() =~= indices@.take(i as int));
                assert(indices@.take(i + 1).last() == indices@[i as int]);
            }
            let idx = indices[i];
            let place: Option<usize> = match item {
                SessionItem::ExistingSession { name, directory, .. } => {
                    let nl = name.as_str().len();
                    let dl = directory.as_str().len();
                    let old_dir_start = 2 + nl + 2;
                    let new_dir_start = name_col_width + 2;
                    if idx < 2 + nl {
                        name_part_position(idx, nl, name_col_width)
                    } else if idx >= old_dir_start && idx - old_dir_start < dl {
                        let dir_idx = idx - old_dir_start;
                        let dir_col_max = max_width.saturating_sub(new_dir_start);
                        if dl > dir_col_max && dir_col_max > 10 {
                            let truncated_start = dl.saturating_sub(dir_col_max - 3);
                            if dir_idx >= truncated_start {
                                Some(new_dir_start + 3 + (dir_idx - truncated_start))
                            } else {
                                None
                            }
                        } else {
                            Some(new_dir_start + dir_idx)
                        }
                    } else {
                        None
                    }
                },
                SessionItem::ResurrectableSession { name, duration } => {
                    let nl = name.as_str().len();
                    let old_dur_start = 2 + nl + 10;
                    let new_dur_start = name_col_width + 2;
                    if idx < 2 + nl {
                        name_part_position(idx, nl, name_col_width)
                    } else {
                        let mut age = format_duration(*duration);
                        proof {
                            reveal_strlit(" ago");
                        }
                        age.append(" ago");
                        if idx >= old_dur_start && idx - old_dur_start < age.as_str().len()
                            && idx - old_dur_start <= usize::MAX - new_dur_start {
                            Some(new_dur_start + (idx - old_dur_start))
                        } else {
                            None
                        }
                    }
                },
                SessionItem::Directory { path, .. } => {
                    let pl = path.as_str().len();
                    if pl > max_width && max_width > 10 {
                        let truncated_start = pl.saturating_sub(max_width - 3);
                        if idx >= truncated_start {
                            Some(idx - truncated_start + 3)
                        } else {
                            None
                        }
                    } else {
                        Some(idx)
                    }
                },
            };
            match place {
                Some(p) => out.push(p),
                None => {},
            }
            i = i + 1;
        }
        assert(indices@.take(indices@.len() as int) =~= indices@);
        out
    }

    /// The deletion confirmation dialog for `session_name` in the area at
    /// `(x, y)` of `width` by `height`: its top-left corner and its lines. The
    /// dialog is at most 60 columns wide, the warning wrapped inside it, and it
    /// is centred in the area.
    pub fn deletion_dialog(session_name: &str, x: usize, y: usize, width: usize, height: usize) -> (r: (
        usize,
        usize,
        Vec<String>,
    ))
        requires
            x + sat_sub(width as int, dialog_width(width as int)) / 2 <= usize::MAX,
            y + sat_sub(height as int, 4) / 2 <= usize::MAX,
        ensures
            ({
                let dw = dialog_width(width as int);
                let content = sat_sub(dw, 4) as usize;
                let inner = sat_sub(dw, 2) as nat;
                let lines = wrapped(deletion_warning(), content);
                let dh = if 4 + lines.len() <= usize::MAX {
                    4 + lines.len() as int
                } else {
                    usize::MAX as int
                };
                &&& r.0 == x + sat_sub(width as int, dw) / 2
                &&& r.1 == y + sat_sub(height as int, dh) / 2
                &&& texts(r.2@) == dialog_lines(session_name@, inner, content)
            }),
    {
        proof {
            reveal_strlit("If this is a resurrectable session, it will be deleted. This action cannot be undone.");
            reveal_strlit("Press 'y' to confirm, 'n' or Esc to cancel");
            reveal_strlit("Kill session '");
            reveal_strlit("'?");
            reveal_strlit("");
        }
        let dialog_width = if width.saturating_sub(4) < 60 {
            width.saturating_sub(4)
        } else {
            60
        };
        let content_width = dialog_width.saturating_sub(4);
        let warning = "If this is a resurrectable session, it will be deleted. This action cannot be undone.";
        let prompt = "Press 'y' to confirm, 'n' or Esc to cancel";
        let wrapped_warning = Self::wrap_text(warning, content_width);
        let dialog_height = wrapped_warning.len().saturating_add(4);
        let dialog_x = x + width.saturating_sub(dialog_width) / 2;
        let dialog_y = y + height.saturating_sub(dialog_height) / 2;
        let inner_width = dialog_width.saturating_sub(2);

        let mut message = String::from_str("Kill session '");
        message.append(session_name);
        message.append("'?");

        let ghost body = wrapped(deletion_warning(), content_width);
        let ghost inner = inner_width as nat;
        let ghost top = "┌"@ + repeated('─', inner) + "┐"@;
        let ghost question = boxed("Kill session '"@ + session_name@ + "'?"@, inner);
        let mut lines: Vec<String> = Vec::new();
        lines.push(border_line("┌", "┐", inner_width));
        lines.push(boxed_line(message.as_str(), inner_width));
        let mut i: usize = 0;
        proof {
            assert(texts(lines@) =~= seq![top, question] + boxed_all(body.take(0), inner));
        }
        while i < wrapped_warning.len()
            invariant
                i <= wrapped_warning@.len(),
                texts(wrapped_warning@) == body,
                inner == inner_width as nat,
                texts(lines@) == seq![top, question] + boxed_all(body.take(i as int), inner),
            decreases wrapped_warning@.len() - i,
        {
            let ghost before = lines@;
            lines.push(boxed_line(wrapped_warning[i].as_str(), inner_width));
            proof {
                assert(boxed_all(body.take(i + 1), inner) =~= boxed_all(body.take(i as int), inner).push(
                    boxed(body[i as int], inner),
                ));
                assert(texts(lines@) =~= texts(before).push(lines@.last()@));
                assert(texts(lines@) =~= seq![top, question] + boxed_all(body.take(i + 1), inner));
            }
            i = i + 1;
        }
        let ghost mid = lines@;
        lines.push(boxed_line("", inner_width));
        lines.push(boxed_line(prompt, inner_width));
        lines.push(border_line("└", "┘", inner_width));
        proof {
            assert(body.take(body.len() as int) =~= body);
            assert(texts(lines@) =~= texts(mid) + seq![
                boxed(Seq::empty(), inner),
                boxed(deletion_prompt(), inner),
                "└"@ + repeated('─', inner) + "┘"@,
            ]);
            assert(texts(lines@) =~= dialog_lines(session_name@, inner, content_width));
        }
        (dialog_x, dialog_y, lines)
    }

    /// Breaks `text` into lines of at most `max_width` bytes at white space;
    /// a text that fits stays whole, a word longer than the width gets a line
    /// of its own.
    pub fn wrap_text(text: &str, max_width: usize) -> (r: Vec<String>)
        ensures
            texts(r@) == wrapped(text@, max_width),
    {
        if text.len() <= max_width {
            let mut whole: Vec<String> = Vec::new();
            whole.push(String::from_str(text));
            assert(texts(whole@) =~= seq![text@]);
            return whole;
        }
        let all = words(text);
        let ghost ws = words_of(text@);
        let mut lines: Vec<String> = Vec::new();
        let mut line = String::new();
        let mut i: usize = 0;
        proof {
            assert(texts(lines@) =~= Seq::<Seq<char>>::empty());
        }
        while i < all.len()
            invariant
                i <= all@.len(),
                texts(all@) == ws,
                ws == words_of(text@),
                (texts(lines@), line@) == fill_lines(ws.take(i as int), max_width),
            decreases all@.len() - i,
        {
            proof {
                assert(ws.take(i + 1).drop_last() =~= ws.take(i as int));
                assert(ws.take(i + 1).last() == all@[i as int]@);
            }
            let ghost before = lines@;
            let word = &all[i];
            if line.as_str().is_empty() {
                line = word.clone();
            } else {
                let line_len = line.as_str().len();
                let word_len = word.as_str().len();
                if word_len <= max_width && line_len < max_width - word_len {
                    proof {
                        reveal_strlit(" ");
                    }
                    line.append(" ");
                    line.append(word.as_str());
                } else {
                    lines.push(line);
                    proof {
                        assert(texts(lines@) =~= texts(before).push(lines@.last()@));
                    }
                    line = word.clone();
                }
            }
            i = i + 1;
        }
        proof {
            assert(ws.take(all@.len() as int) =~= ws);
        }
        if !line.as_str().is_empty() {
            let ghost before = lines@;
            lines.push(line);
            assert(texts(lines@) =~= texts(before).push(lines@.last()@));
        }
        lines
    }

    /// The main area, `(x, y, width, height)`: the whole screen.
    pub fn calculate_main_size(rows: usize, cols: usize) -> (r: (usize, usize, usize, usize))
        ensures
            r == (0usize, 0usize, cols, rows),
    {
        let width = cols;
        let x: usize = 0;
        let y: usize = 0;
        let height = rows - y;
        (x, y, width, height)
    }

    /// The rows `[first, last)` of a list of `items_len` items to draw in a
    /// table of `table_rows` rows, one of them the title. When the list does
    /// not fit, the window holds `table_rows - 1` rows and starts half of that
    /// above the selected item (the first item when none is selected), but not
    /// before the first item.
    pub fn calculate_render_range(
        table_rows: usize,
        items_len: usize,
        selected_index: Option<usize>,
    ) -> (r: (usize, usize))
        requires
            table_rows <= items_len ==> window_first(table_rows as int, selected_index)
                + window_rows(table_rows as int) <= usize::MAX,
        ensures
            table_rows > items_len ==> r == (0usize, items_len),
            table_rows <= items_len ==> {
                let first = window_first(table_rows as int, selected_index);
                r == (first as usize, (first + window_rows(table_rows as int)) as usize)
            },
    {
        if table_rows <= items_len {
            let row_count_to_render = table_rows.saturating_sub(1);
            let selected = match selected_index {
                Some(s) => s,
                None => 0,
            };
            let first_row_index = selected.saturating_sub(row_count_to_render / 2);
            let last_row_index = first_row_index + row_count_to_render;
            (first_row_index, last_row_index)
        } else {
            (0, items_len)
        }
    }
}

} // verus!
