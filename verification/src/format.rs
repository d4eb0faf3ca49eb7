//! The reports of the tracks: JSON, CSV, TSV and an aligned table.
use unicode_width::UnicodeWidthStr;
use vstd::prelude::*;
use crate::datetime::{
    digit_char, format_datetime, spec_decimal, spec_format_datetime, spec_int_text, spec_seconds_between,
    TIME_FORMAT,
};
use crate::metadata::{TrackMetadata, TrackView};
use crate::numbers::{i64_text, u64_text, usize_text};
use crate::parser::{results_view, Placemark, PlacemarkView};
use crate::text::push_char;

verus! {

/// The formats of a report.
#[derive(Debug, Clone, Copy, PartialEq, Eq, Structural)]
pub enum OutputFormat {
    Json,
    Csv,
    Tsv,
    Table,
}

/// Whether the times of every track are valid `chrono` values.
pub open spec fn tracks_wf(tracks: Seq<Placemark>) -> bool {
    forall|i: int|
        0 <= i < tracks.len() ==> (#[trigger] tracks[i]).1.start_time.wf()
            && tracks[i].1.end_time.wf()
}

/// The ten cells of a track: name, start, end, duration (s), distance (m),
/// number of points, category, activity, year, month.
pub open spec fn spec_row_cells(m: TrackView, distance: u64) -> Seq<Seq<char>> {
    seq![
        m.name,
        spec_format_datetime(m.start_time),
        spec_format_datetime(m.end_time),
        spec_int_text(spec_seconds_between(m.end_time, m.start_time)),
        spec_decimal(distance as nat),
        spec_decimal(m.coordinates.len()),
        m.category,
        m.activity,
        m.year,
        m.month,
    ]
}

/// The cells joined by a separator.
pub open spec fn join_with(cells: Seq<Seq<char>>, sep: char) -> Seq<char>
    decreases cells.len(),
{
    if cells.len() == 0 {
        Seq::empty()
    } else if cells.len() == 1 {
        cells[0]
    } else {
        join_with(cells.drop_last(), sep) + seq![sep] + cells.last()
    }
}

/// The texts one after the other.
pub open spec fn concat_all(parts: Seq<Seq<char>>) -> Seq<char>
    decreases parts.len(),
{
    if parts.len() == 0 {
        Seq::empty()
    } else {
        concat_all(parts.drop_last()) + parts.last()
    }
}

/// A text with every `"` doubled.
pub open spec fn csv_escape(s: Seq<char>) -> Seq<char>
    decreases s.len(),
{
    if s.len() == 0 {
        Seq::empty()
    } else {
        csv_escape(s.drop_last()) + (if s.last() == '"' {
            seq!['"', '"']
        } else {
            seq![s.last()]
        })
    }
}

/// The CSV line of a track: the name quoted, with its quotes doubled, then
/// the other cells, separated by commas.
pub open spec fn spec_csv_row(m: TrackView, distance: u64) -> Seq<char> {
    let cells = spec_row_cells(m, distance);
    seq!['"'] + csv_escape(cells[0]) + seq!['"', ','] + join_with(cells.skip(1), ',') + seq!['\n']
}

/// The TSV line of a track: the cells separated by tabs.
pub open spec fn spec_tsv_row(m: TrackView, distance: u64) -> Seq<char> {
    join_with(spec_row_cells(m, distance), '\t') + seq!['\n']
}

/// The lines of the tracks, by a line function.
pub open spec fn rows_of(
    tracks: Seq<PlacemarkView>,
    distances: Seq<u64>,
    row: spec_fn(TrackView, u64) -> Seq<char>,
) -> Seq<Seq<char>> {
    Seq::new(tracks.len(), |i: int| row(tracks[i].1, distances[i]))
}

/// The CSV header line.
pub const CSV_HEADER: &'static str =
    "Name,Start,End,Duration (seconds),Distance (meters),Points,Category,Activity,Year,Month\n";

/// The TSV header line.
pub const TSV_HEADER: &'static str =
    "Name\tStart\tEnd\tDuration (seconds)\tDistance (meters)\tPoints\tCategory\tActivity\tYear\tMonth\n";

/// The CSV report: the header, then one line per track.
pub open spec fn spec_csv(tracks: Seq<PlacemarkView>, distances: Seq<u64>) -> Seq<char> {
    CSV_HEADER@ + concat_all(rows_of(tracks, distances, |m: TrackView, d: u64| spec_csv_row(m, d)))
}

/// The TSV report: the header, then one line per track.
pub open spec fn spec_tsv(tracks: Seq<PlacemarkView>, distances: Seq<u64>) -> Seq<char> {
    TSV_HEADER@ + concat_all(rows_of(tracks, distances, |m: TrackView, d: u64| spec_tsv_row(m, d)))
}

/// The start and end times of a track in `TIME_FORMAT`.
fn format_timestamp(metadata: &TrackMetadata) -> (r: (String, String))
    requires
        metadata.start_time.wf(),
        metadata.end_time.wf(),
    ensures
        r.0@ == spec_format_datetime(metadata.start_time),
        r.1@ == spec_format_datetime(metadata.end_time),
{
    (
        format_datetime(&metadata.start_time, TIME_FORMAT),
        format_datetime(&metadata.end_time, TIME_FORMAT),
    )
}

/// The ten cells of a track, as texts.
fn format_row_data(metadata: &TrackMetadata, distance: u64) -> (r: Vec<String>)
    requires
        metadata.start_time.wf(),
        metadata.end_time.wf(),
    ensures
        r@.len() == 10,
        r@.map_values(|s: String| s@) == spec_row_cells(metadata@, distance),
{
    let duration = metadata.duration_seconds();
    let (start_time, end_time) = format_timestamp(metadata);
    let mut r: Vec<String> = Vec::new();
    r.push(metadata.name.clone());
    r.push(start_time);
    r.push(end_time);
    r.push(i64_text(duration));
    r.push(u64_text(distance));
    r.push(usize_text(metadata.coordinates.len()));
    r.push(metadata.category.clone());
    r.push(metadata.activity.clone());
    r.push(metadata.year.clone());
    r.push(metadata.month.clone());
    assert(r@.map_values(|s: String| s@) =~= spec_row_cells(metadata@, distance));
    r
}

/// Appends the cells of `cells[from..]`, separated by `sep`.
fn append_joined(out: &mut String, cells: &Vec<String>, from: usize, sep: char)
    requires
        from <= cells@.len(),
    ensures
        final(out)@ == old(out)@ + join_with(
            cells@.map_values(|s: String| s@).skip(from as int),
            sep,
        ),
{
    let ghost all = cells@.map_values(|s: String| s@).skip(from as int);
    let ghost start = out@;
    let n = cells.len();
    let mut i = from;
    while i < n
        invariant
            from <= i <= n,
            n == cells@.len(),
            all == cells@.map_values(|s: String| s@).skip(from as int),
            out@ == start + join_with(all.take(i - from), sep),
        decreases n - i,
    {
        proof {
            assert(all.take(i - from + 1).drop_last() =~= all.take(i - from));
            assert(all.take(i - from + 1).last() == cells@[i as int]@);
        }
        if i > from {
            push_char(out, sep);
        }
        out.append(cells[i].as_str());
        proof {
            if i == from {
                assert(all.take(1) =~= seq![cells@[i as int]@]);
            }
        }
        i = i + 1;
    }
    assert(all.take(n - from) =~= all);
}

/// Appends a text with every `"` doubled.
fn append_csv_escaped(out: &mut String, s: &str)
    ensures
        final(out)@ == old(out)@ + csv_escape(s@),
{
    let chars = crate::text::to_chars(s);
    let ghost start = out@;
    let n = chars.len();
    let mut i: usize = 0;
    while i < n
        invariant
            n == chars@.len(),
            chars@ == s@,
            i <= n,
            out@ == start + csv_escape(s@.take(i as int)),
        decreases n - i,
    {
        proof {
            assert(s@.take(i + 1).drop_last() =~= s@.take(i as int));
        }
        let c = chars[i];
        if c == '"' {
            push_char(out, '"');
            push_char(out, '"');
        } else {
            push_char(out, c);
        }
        i = i + 1;
    }
    assert(s@.take(n as int) =~= s@);
}

/// The CSV line of a track.
fn format_csv_row(metadata: &TrackMetadata, distance: u64) -> (r: String)
    requires
        metadata.start_time.wf(),
        metadata.end_time.wf(),
    ensures
        r@ == spec_csv_row(metadata@, distance),
{
    let cells = format_row_data(metadata, distance);
    let mut out = String::new();
    push_char(&mut out, '"');
    append_csv_escaped(&mut out, cells[0].as_str());
    push_char(&mut out, '"');
    push_char(&mut out, ',');
    append_joined(&mut out, &cells, 1, ',');
    push_char(&mut out, '\n');
    proof {
        let cv = cells@.map_values(|s: String| s@);
        assert(cv[0] == cells@[0]@);
        assert(out@ =~= seq!['"'] + csv_escape(cv[0]) + seq!['"', ','] + join_with(cv.skip(1), ',')
            + seq!['\n']);
    }
    out
}

/// The TSV line of a track.
fn format_tsv_row(metadata: &TrackMetadata, distance: u64) -> (r: String)
    requires
        metadata.start_time.wf(),
        metadata.end_time.wf(),
    ensures
        r@ == spec_tsv_row(metadata@, distance),
{
    let cells = format_row_data(metadata, distance);
    let mut out = String::new();
    append_joined(&mut out, &cells, 0, '\t');
    push_char(&mut out, '\n');
    proof {
        let cv = cells@.map_values(|s: String| s@);
        assert(cv.skip(0) =~= cv);
    }
    out
}

/// The CSV report: a header, then one line per track.
fn format_csv(tracks: &[Placemark], distances: &[u64]) -> (r: String)
    requires
        tracks@.len() == distances@.len(),
        tracks_wf(tracks@),
    ensures
        r@ == spec_csv(results_view(tracks@), distances@),
{
    let ghost rows = rows_of(
        results_view(tracks@),
        distances@,
        |m: TrackView, d: u64| spec_csv_row(m, d),
    );
    let mut out = String::from_str(CSV_HEADER);
    let n = tracks.len();
    let mut i: usize = 0;
    while i < n
        invariant
            n == tracks@.len(),
            n == distances@.len(),
            i <= n,
            tracks_wf(tracks@),
            rows == rows_of(results_view(tracks@), distances@, |m: TrackView, d: u64| spec_csv_row(m, d)),
            out@ == CSV_HEADER@ + concat_all(rows.take(i as int)),
        decreases n - i,
    {
        proof {
            assert(rows.take(i + 1).drop_last() =~= rows.take(i as int));
        }
        assert(tracks@[i as int].1.start_time.wf());
        let row = format_csv_row(&tracks[i].1, distances[i]);
        out.append(row.as_str());
        i = i + 1;
    }
    assert(rows.take(n as int) =~= rows);
    out
}

/// The TSV report: a header, then one line per track.
fn format_tsv(tracks: &[Placemark], distances: &[u64]) -> (r: String)
    requires
        tracks@.len() == distances@.len(),
        tracks_wf(tracks@),
    ensures
        r@ == spec_tsv(results_view(tracks@), distances@),
{
    let ghost rows = rows_of(
        results_view(tracks@),
        distances@,
        |m: TrackView, d: u64| spec_tsv_row(m, d),
    );
    let mut out = String::from_str(TSV_HEADER);
    let n = tracks.len();
    let mut i: usize = 0;
    while i < n
        invariant
            n == tracks@.len(),
            n == distances@.len(),
            i <= n,
            tracks_wf(tracks@),
            rows == rows_of(results_view(tracks@), distances@, |m: TrackView, d: u64| spec_tsv_row(m, d)),
            out@ == TSV_HEADER@ + concat_all(rows.take(i as int)),
        decreases n - i,
    {
        proof {
            assert(rows.take(i + 1).drop_last() =~= rows.take(i as int));
        }
        assert(tracks@[i as int].1.start_time.wf());
        let row = format_tsv_row(&tracks[i].1, distances[i]);
        out.append(row.as_str());
        i = i + 1;
    }
    assert(rows.take(n as int) =~= rows);
    out
}

/// The headers of the table columns.
pub open spec fn table_header(i: int) -> Seq<char> {
    if i == 0 {
        "Name"@
    } else if i == 1 {
        "Start"@
    } else if i == 2 {
        "End"@
    } else if i == 3 {
        "Duration (s)"@
    } else if i == 4 {
        "Distance (m)"@
    } else if i == 5 {
        "Points"@
    } else if i == 6 {
        "Category"@
    } else if i == 7 {
        "Activity"@
    } else if i == 8 {
        "Year"@
    } else {
        "Month"@
    }
}

/// The header of a table column.
fn table_header_text(i: usize) -> (r: &'static str)
    requires
        i < 10,
    ensures
        r@ == table_header(i as int),
{
    if i == 0 {
        "Name"
    } else if i == 1 {
        "Start"
    } else if i == 2 {
        "End"
    } else if i == 3 {
        "Duration (s)"
    } else if i == 4 {
        "Distance (m)"
    } else if i == 5 {
        "Points"
    } else if i == 6 {
        "Category"
    } else if i == 7 {
        "Activity"
    } else if i == 8 {
        "Year"
    } else {
        "Month"
    }
}

/// The number of terminal columns a text takes, as
/// `unicode_width::UnicodeWidthStr::width` counts them.
pub uninterp spec fn unicode_display_width(s: Seq<char>) -> int;

/// The display width of a text, by `UnicodeWidthStr::width`.
///
/// Claims that it is a function of the text (the crate's tables are fixed),
/// and what `lookup::width_in_generic` and `lookup::str_width` give: a
/// character at most U+00A0 other than `\r` takes one column. A text of such
/// characters takes one column each; spaces put before or after a text take
/// one column each and leave the width of the text as it was, since a space
/// takes one column whatever follows it and lets what precedes it be read as
/// at the end of a text.
#[verifier::external_body]
fn display_width(s: &str) -> (r: usize)
    ensures
        r == unicode_display_width(s@),
        (forall|i: int| 0 <= i < s@.len() ==> s@[i] <= '\u{a0}' && s@[i] != '\r') ==> r
            == s@.len(),
        forall|n: nat| #[trigger] unicode_display_width(s@ + repeat_char(' ', n)) == r + n,
        forall|n: nat| #[trigger] unicode_display_width(repeat_char(' ', n) + s@) == r + n,
{
    s.width()
}

/// The numeric columns (duration, distance, points), aligned to the right.
pub open spec fn is_right_aligned(col: int) -> bool {
    col == 3 || col == 4 || col == 5
}

/// Whether a column is aligned to the right.
fn is_right_aligned_column(col_index: usize) -> (r: bool)
    ensures
        r == is_right_aligned(col_index as int),
{
    col_index == 3 || col_index == 4 || col_index == 5
}

/// `n` copies of a character.
pub open spec fn repeat_char(c: char, n: nat) -> Seq<char> {
    Seq::new(n, |i: int| c)
}

/// A text padded with `n` spaces, before it when aligned to the right.
pub open spec fn spec_pad_text(text: Seq<char>, n: nat, right_align: bool) -> Seq<char> {
    if right_align {
        repeat_char(' ', n) + text
    } else {
        text + repeat_char(' ', n)
    }
}

/// Whether a padded cell takes as many columns as its column is wide, or as
/// its text where the text is wider.
pub open spec fn cell_fills_column(text: Seq<char>, width: int, col: int) -> bool {
    let tw = unicode_display_width(text);
    unicode_display_width(spec_format_cell(text, width, col)) == (if tw >= width {
        tw
    } else {
        width
    })
}

/// Whether each of the ten cells of a line fills its column.
pub open spec fn row_fills_columns(cells: Seq<Seq<char>>, widths: Seq<int>) -> bool {
    forall|i: int| 0 <= i < 10 ==> cell_fills_column(#[trigger] cells[i], widths[i], i)
}

/// A cell padded to the width of its column; a text as wide as the column
/// or wider stays as it is.
pub open spec fn spec_format_cell(text: Seq<char>, width: int, col: int) -> Seq<char> {
    let tw = unicode_display_width(text);
    if tw >= width {
        text
    } else {
        spec_pad_text(text, (width - tw) as nat, is_right_aligned(col))
    }
}

/// The width of column `col`: the widest of its header and of its cells.
pub open spec fn spec_column_width(rows: Seq<Seq<Seq<char>>>, col: int) -> int
    decreases rows.len(),
{
    if rows.len() == 0 {
        unicode_display_width(table_header(col))
    } else {
        let w = spec_column_width(rows.drop_last(), col);
        let c = unicode_display_width(rows.last()[col]);
        if c > w {
            c
        } else {
            w
        }
    }
}

/// A table line: each cell padded to its column and followed by a space.
pub open spec fn spec_table_line(cells: Seq<Seq<char>>, widths: Seq<int>) -> Seq<char> {
    concat_all(Seq::new(10, |i: int| spec_format_cell(cells[i], widths[i], i) + seq![' ']))
        + seq!['\n']
}

/// The line under the headers: dashes as wide as each column.
pub open spec fn spec_separator_line(widths: Seq<int>) -> Seq<char> {
    concat_all(Seq::new(10, |i: int| repeat_char('-', widths[i] as nat) + seq![' '])) + seq!['\n']
}

/// The cells of every track.
pub open spec fn table_rows(tracks: Seq<PlacemarkView>, distances: Seq<u64>) -> Seq<
    Seq<Seq<char>>,
> {
    Seq::new(tracks.len(), |i: int| spec_row_cells(tracks[i].1, distances[i]))
}

/// The widths of the ten columns.
pub open spec fn spec_widths(rows: Seq<Seq<Seq<char>>>) -> Seq<int> {
    Seq::new(10, |i: int| spec_column_width(rows, i))
}

/// The table: headers, dashes, then one line per track, the columns as
/// wide as their widest text.
pub open spec fn spec_table(tracks: Seq<PlacemarkView>, distances: Seq<u64>) -> Seq<char> {
    let rows = table_rows(tracks, distances);
    let widths = spec_widths(rows);
    spec_table_line(Seq::new(10, |i: int| table_header(i)), widths) + spec_separator_line(widths)
        + concat_all(Seq::new(rows.len(), |j: int| spec_table_line(rows[j], widths)))
}

/// Pads a text with spaces, before it or after it.
fn pad_text(text: &str, padding_size: usize, right_align: bool) -> (r: String)
    ensures
        r@ == spec_pad_text(text@, padding_size as nat, right_align),
{
    let mut padding = String::new();
    let mut i: usize = 0;
    while i < padding_size
        invariant
            i <= padding_size,
            padding@ =~= repeat_char(' ', i as nat),
        decreases padding_size - i,
    {
        push_char(&mut padding, ' ');
        i = i + 1;
    }
    if right_align {
        padding.append(text);
        padding
    } else {
        let mut s = String::from_str(text);
        s.append(padding.as_str());
        s
    }
}

/// Pads a cell to the width of its column.
fn format_cell(text: &str, width: usize, col_index: usize) -> (r: String)
    ensures
        r@ == spec_format_cell(text@, width as int, col_index as int),
        cell_fills_column(text@, width as int, col_index as int),
{
    let text_width = display_width(text);
    if text_width >= width {
        return String::from_str(text);
    }
    let n = width - text_width;
    proof {
        assert(unicode_display_width(text@ + repeat_char(' ', n as nat)) == text_width + n);
        assert(unicode_display_width(repeat_char(' ', n as nat) + text@) == text_width + n);
    }
    pad_text(text, n, is_right_aligned_column(col_index))
}

/// Updates the widths with the cells of one track.
fn update_widths_from_row(widths: &mut Vec<usize>, values: &Vec<String>)
    requires
        old(widths)@.len() == 10,
        values@.len() == 10,
    ensures
        final(widths)@.len() == 10,
        forall|i: int|
            0 <= i < 10 ==> #[trigger] final(widths)@[i] == (if unicode_display_width(values@[i]@)
                > old(widths)@[i] {
                unicode_display_width(values@[i]@)
            } else {
                old(widths)@[i] as int
            }),
{
    let mut i: usize = 0;
    while i < 10
        invariant
            i <= 10,
            widths@.len() == 10,
            values@.len() == 10,
            forall|k: int|
                0 <= k < i ==> #[trigger] widths@[k] == (if unicode_display_width(values@[k]@)
                    > old(widths)@[k] {
                    unicode_display_width(values@[k]@)
                } else {
                    old(widths)@[k] as int
                }),
            forall|k: int| i <= k < 10 ==> #[trigger] widths@[k] == old(widths)@[k],
        decreases 10 - i,
    {
        let w = display_width(values[i].as_str());
        if w > widths[i] {
            widths.set(i, w);
        }
        i = i + 1;
    }
}

/// The widths of the ten columns.
fn calculate_column_widths(tracks: &[Placemark], distances: &[u64]) -> (r: Vec<usize>)
    requires
        tracks@.len() == distances@.len(),
        tracks_wf(tracks@),
    ensures
        r@.len() == 10,
        forall|i: int|
            0 <= i < 10 ==> #[trigger] r@[i] == spec_column_width(
                table_rows(results_view(tracks@), distances@),
                i,
            ),
{
    let ghost rows = table_rows(results_view(tracks@), distances@);
    let mut widths: Vec<usize> = Vec::new();
    let mut c: usize = 0;
    while c < 10
        invariant
            c <= 10,
            widths@.len() == c,
            forall|k: int|
                0 <= k < c ==> #[trigger] widths@[k] == unicode_display_width(table_header(k)),
        decreases 10 - c,
    {
        widths.push(display_width(table_header_text(c)));
        c = c + 1;
    }
    let n = tracks.len();
    let mut j: usize = 0;
    while j < n
        invariant
            n == tracks@.len(),
            n == distances@.len(),
            j <= n,
            tracks_wf(tracks@),
            rows == table_rows(results_view(tracks@), distances@),
            widths@.len() == 10,
            forall|k: int|
                0 <= k < 10 ==> #[trigger] widths@[k] == spec_column_width(rows.take(j as int), k),
        decreases n - j,
    {
        assert(tracks@[j as int].1.start_time.wf());
        let values = format_row_data(&tracks[j].1, distances[j]);
        proof {
            assert(rows.take(j + 1).drop_last() =~= rows.take(j as int));
            assert(rows.take(j + 1).last() == rows[j as int]);
            assert forall|k: int| 0 <= k < 10 implies values@[k]@ == #[trigger] rows[j as int][k] by {
                assert(values@.map_values(|s: String| s@)[k] == values@[k]@);
            }
        }
        update_widths_from_row(&mut widths, &values);
        j = j + 1;
    }
    assert(rows.take(n as int) =~= rows);
    widths
}

/// Appends a table line of ten cells.
fn append_table_line(out: &mut String, cells: &Vec<String>, widths: &Vec<usize>)
    requires
        cells@.len() == 10,
        widths@.len() == 10,
    ensures
        final(out)@ == old(out)@ + spec_table_line(
            cells@.map_values(|s: String| s@),
            widths@.map_values(|w: usize| w as int),
        ),
        row_fills_columns(
            cells@.map_values(|s: String| s@),
            widths@.map_values(|w: usize| w as int),
        ),
{
    let ghost cv = cells@.map_values(|s: String| s@);
    let ghost wv = widths@.map_values(|w: usize| w as int);
    let ghost parts = Seq::new(10, |i: int| spec_format_cell(cv[i], wv[i], i) + seq![' ']);
    let ghost start = out@;
    let mut i: usize = 0;
    while i < 10
        invariant
            i <= 10,
            cells@.len() == 10,
            widths@.len() == 10,
            cv == cells@.map_values(|s: String| s@),
            wv == widths@.map_values(|w: usize| w as int),
            parts == Seq::new(10, |i: int| spec_format_cell(cv[i], wv[i], i) + seq![' ']),
            out@ == start + concat_all(parts.take(i as int)),
            forall|k: int| 0 <= k < i ==> cell_fills_column(#[trigger] cv[k], wv[k], k),
        decreases 10 - i,
    {
        proof {
            assert(parts.take(i + 1).drop_last() =~= parts.take(i as int));
        }
        let cell = format_cell(cells[i].as_str(), widths[i], i);
        assert(cv[i as int] == cells@[i as int]@);
        out.append(cell.as_str());
        push_char(out, ' ');
        i = i + 1;
    }
    assert(parts.take(10) =~= parts);
    push_char(out, '\n');
}

/// Appends the line of dashes under the headers.
fn format_separator_row(out: &mut String, widths: &Vec<usize>)
    requires
        widths@.len() == 10,
    ensures
        final(out)@ == old(out)@ + spec_separator_line(widths@.map_values(|w: usize| w as int)),
{
    let ghost wv = widths@.map_values(|w: usize| w as int);
    let ghost parts = Seq::new(10, |i: int| repeat_char('-', wv[i] as nat) + seq![' ']);
    let ghost start = out@;
    let mut i: usize = 0;
    while i < 10
        invariant
            i <= 10,
            widths@.len() == 10,
            wv == widths@.map_values(|w: usize| w as int),
            parts == Seq::new(10, |i: int| repeat_char('-', wv[i] as nat) + seq![' ']),
            out@ == start + concat_all(parts.take(i as int)),
        decreases 10 - i,
    {
        proof {
            assert(parts.take(i + 1).drop_last() =~= parts.take(i as int));
        }
        let ghost before = out@;
        let w = widths[i];
        let mut k: usize = 0;
        while k < w
            invariant
                k <= w,
                out@ =~= before + repeat_char('-', k as nat),
            decreases w - k,
        {
            push_char(out, '-');
            k = k + 1;
        }
        push_char(out, ' ');
        i = i + 1;
    }
    assert(parts.take(10) =~= parts);
    push_char(out, '\n');
}

/// Appends the header line of the table.
fn format_header_row(out: &mut String, widths: &Vec<usize>)
    requires
        widths@.len() == 10,
    ensures
        final(out)@ == old(out)@ + spec_table_line(
            Seq::new(10, |i: int| table_header(i)),
            widths@.map_values(|w: usize| w as int),
        ),
        row_fills_columns(
            Seq::new(10, |i: int| table_header(i)),
            widths@.map_values(|w: usize| w as int),
        ),
{
    let mut headers: Vec<String> = Vec::new();
    let mut i: usize = 0;
    while i < 10
        invariant
            i <= 10,
            headers@.len() == i,
            forall|k: int| 0 <= k < i ==> #[trigger] headers@[k]@ == table_header(k),
        decreases 10 - i,
    {
        headers.push(String::from_str(table_header_text(i)));
        i = i + 1;
    }
    assert(headers@.map_values(|s: String| s@) =~= Seq::new(10, |i: int| table_header(i)));
    append_table_line(out, &headers, widths);
}

/// The aligned table of the tracks.
fn format_table(tracks: &[Placemark], distances: &[u64]) -> (r: String)
    requires
        tracks@.len() == distances@.len(),
        tracks_wf(tracks@),
    ensures
        r@ == spec_table(results_view(tracks@), distances@),
        table_aligned(results_view(tracks@), distances@),
{
    let ghost rows = table_rows(results_view(tracks@), distances@);
    let widths = calculate_column_widths(tracks, distances);
    let ghost wv = widths@.map_values(|w: usize| w as int);
    assert(wv =~= spec_widths(rows));
    let mut output = String::new();
    format_header_row(&mut output, &widths);
    format_separator_row(&mut output, &widths);
    format_data_rows(&mut output, tracks, distances, &widths);
    proof {
        assert forall|i: int| 0 <= i < 10 implies unicode_display_width(
            spec_format_cell(table_header(i), wv[i], i),
        ) == wv[i] by {
            law_column_width_is_widest(rows, i);
            assert(Seq::new(10, |k: int| table_header(k))[i] == table_header(i));
            assert(cell_fills_column(Seq::new(10, |k: int| table_header(k))[i], wv[i], i));
        }
        assert forall|j: int, i: int| 0 <= j < rows.len() && 0 <= i < 10 implies unicode_display_width(
            spec_format_cell(#[trigger] rows[j][i], wv[i], i),
        ) == wv[i] by {
            law_column_width_is_widest(rows, i);
            assert(row_fills_columns(rows[j], wv));
            assert(cell_fills_column(rows[j][i], wv[i], i));
        }
    }
    output
}

/// Whether every cell of the table, the headers and each track's cells,
/// takes exactly as many columns as its column is wide, so that the columns
/// line up.
pub open spec fn table_aligned(tracks: Seq<PlacemarkView>, distances: Seq<u64>) -> bool {
    let rows = table_rows(tracks, distances);
    let widths = spec_widths(rows);
    &&& forall|i: int|
        0 <= i < 10 ==> unicode_display_width(spec_format_cell(table_header(i), widths[i], i))
            == widths[i]
    &&& forall|j: int, i: int|
        0 <= j < rows.len() && 0 <= i < 10 ==> unicode_display_width(
            spec_format_cell(#[trigger] rows[j][i], widths[i], i),
        ) == widths[i]
}

/// Appends one table line per track.
fn format_data_rows(output: &mut String, tracks: &[Placemark], distances: &[u64], widths: &Vec<usize>)
    requires
        tracks@.len() == distances@.len(),
        tracks_wf(tracks@),
        widths@.len() == 10,
    ensures
        final(output)@ == old(output)@ + concat_all(
            Seq::new(
                tracks@.len(),
                |j: int|
                    spec_table_line(
                        table_rows(results_view(tracks@), distances@)[j],
                        widths@.map_values(|w: usize| w as int),
                    ),
            ),
        ),
        forall|j: int|
            0 <= j < tracks@.len() ==> row_fills_columns(
                #[trigger] table_rows(results_view(tracks@), distances@)[j],
                widths@.map_values(|w: usize| w as int),
            ),
{
    let ghost rows = table_rows(results_view(tracks@), distances@);
    let ghost wv = widths@.map_values(|w: usize| w as int);
    let ghost lines = Seq::new(rows.len(), |j: int| spec_table_line(rows[j], wv));
    let ghost top = output@;
    let n = tracks.len();
    let mut j: usize = 0;
    while j < n
        invariant
            n == tracks@.len(),
            n == distances@.len(),
            j <= n,
            tracks_wf(tracks@),
            widths@.len() == 10,
            rows == table_rows(results_view(tracks@), distances@),
            wv == widths@.map_values(|w: usize| w as int),
            lines == Seq::new(rows.len(), |j: int| spec_table_line(rows[j], wv)),
            output@ == top + concat_all(lines.take(j as int)),
            forall|k: int| 0 <= k < j ==> row_fills_columns(#[trigger] rows[k], wv),
        decreases n - j,
    {
        proof {
            assert(lines.take(j + 1).drop_last() =~= lines.take(j as int));
        }
        assert(tracks@[j as int].1.start_time.wf());
        format_single_data_row(output, &tracks[j].1, distances[j], widths);
        assert(rows[j as int] == spec_row_cells(results_view(tracks@)[j as int].1, distances@[j as int]));
        j = j + 1;
    }
    assert(lines.take(n as int) =~= lines);
}

/// Appends the table line of one track.
fn format_single_data_row(
    output: &mut String,
    metadata: &TrackMetadata,
    distance: u64,
    widths: &Vec<usize>,
)
    requires
        metadata.start_time.wf(),
        metadata.end_time.wf(),
        widths@.len() == 10,
    ensures
        final(output)@ == old(output)@ + spec_table_line(
            spec_row_cells(metadata@, distance),
            widths@.map_values(|w: usize| w as int),
        ),
        row_fills_columns(spec_row_cells(metadata@, distance), widths@.map_values(|w: usize| w as int)),
{
    let values = format_row_data(metadata, distance);
    append_table_line(output, &values, widths);
}

/// A lower-case hexadecimal digit.
pub open spec fn hex_digit(n: int) -> char {
    if n < 10 {
        digit_char(n)
    } else if n == 10 {
        'a'
    } else if n == 11 {
        'b'
    } else if n == 12 {
        'c'
    } else if n == 13 {
        'd'
    } else if n == 14 {
        'e'
    } else {
        'f'
    }
}

/// How `serde_json` writes a character inside a string: `"` and `\`
/// escaped, the control characters below U+0020 as `\b`, `\t`, `\n`, `\f`,
/// `\r` or `\u00XX`, every other character as it is.
pub open spec fn json_escape_char(c: char) -> Seq<char> {
    if c == '"' {
        seq!['\\', '"']
    } else if c == '\\' {
        seq!['\\', '\\']
    } else if c == '\u{8}' {
        seq!['\\', 'b']
    } else if c == '\t' {
        seq!['\\', 't']
    } else if c == '\n' {
        seq!['\\', 'n']
    } else if c == '\u{c}' {
        seq!['\\', 'f']
    } else if c == '\r' {
        seq!['\\', 'r']
    } else if (c as int) < 0x20 {
        seq!['\\', 'u', '0', '0', hex_digit((c as int) / 16), hex_digit((c as int) % 16)]
    } else {
        seq![c]
    }
}

/// The characters of a text, each as `serde_json` writes it in a string.
pub open spec fn json_escape(s: Seq<char>) -> Seq<char>
    decreases s.len(),
{
    if s.len() == 0 {
        Seq::empty()
    } else {
        json_escape(s.drop_last()) + json_escape_char(s.last())
    }
}

/// A text as a JSON string.
pub open spec fn json_string(s: Seq<char>) -> Seq<char> {
    seq!['"'] + json_escape(s) + seq!['"']
}

/// A text as a JSON string, by `serde_json::to_string`.
///
/// Claims what `format_escaped_str` of `serde_json` (`ser.rs`, with its
/// `ESCAPE` table) writes: `json_string`.
#[verifier::external_body]
fn json_quote(s: &str) -> (r: String)
    ensures
        r@ == json_string(s@),
{
    serde_json::to_string(s).unwrap_or_default()
}

/// The keys of the fields of a track record.
pub open spec fn json_key(i: int) -> Seq<char> {
    if i == 0 {
        "name"@
    } else if i == 1 {
        "start_time"@
    } else if i == 2 {
        "end_time"@
    } else if i == 3 {
        "duration_seconds"@
    } else if i == 4 {
        "distance_meters"@
    } else if i == 5 {
        "coordinate_count"@
    } else if i == 6 {
        "category"@
    } else if i == 7 {
        "activity"@
    } else if i == 8 {
        "year"@
    } else {
        "month"@
    }
}

/// The key of a field of a track record.
fn json_key_text(i: usize) -> (r: &'static str)
    requires
        i < 10,
    ensures
        r@ == json_key(i as int),
{
    if i == 0 {
        "name"
    } else if i == 1 {
        "start_time"
    } else if i == 2 {
        "end_time"
    } else if i == 3 {
        "duration_seconds"
    } else if i == 4 {
        "distance_meters"
    } else if i == 5 {
        "coordinate_count"
    } else if i == 6 {
        "category"
    } else if i == 7 {
        "activity"
    } else if i == 8 {
        "year"
    } else {
        "month"
    }
}

/// The JSON value of a cell: a number for the duration, the distance and
/// the count of points, a string otherwise.
pub open spec fn json_value(cell: Seq<char>, i: int) -> Seq<char> {
    if is_right_aligned(i) {
        cell
    } else {
        json_string(cell)
    }
}

/// The record of a track, as `serde_json::to_string_pretty` writes an
/// object within an array: each field on its own line, indented by four
/// spaces, then the closing brace indented by two.
#[verifier::opaque]
pub open spec fn spec_json_object(cells: Seq<Seq<char>>) -> Seq<char> {
    seq!['{'] + concat_all(
        Seq::new(
            10,
            |i: int|
                (if i == 0 {
                    seq!['\n']
                } else {
                    seq![',', '\n']
                }) + "    "@ + json_string(json_key(i)) + ": "@ + json_value(cells[i], i),
        ),
    ) + "\n  }"@
}

/// The JSON report, as `serde_json::to_string_pretty` writes an array of
/// records: `[]` when there is no track, else each record on its own lines,
/// indented by two spaces.
pub open spec fn spec_json(tracks: Seq<PlacemarkView>, distances: Seq<u64>) -> Seq<char> {
    let rows = table_rows(tracks, distances);
    if rows.len() == 0 {
        "[]"@
    } else {
        seq!['['] + concat_all(Seq::new(rows.len(), |j: int| json_item(rows[j], j))) + "\n]"@
    }
}

/// A record within the array: on a new line (after a comma but for the
/// first), indented by two spaces.
pub open spec fn json_item(cells: Seq<Seq<char>>, j: int) -> Seq<char> {
    (if j == 0 {
        seq!['\n']
    } else {
        seq![',', '\n']
    }) + "  "@ + spec_json_object(cells)
}

/// The JSON record of a track.
fn format_json_object(cells: &Vec<String>) -> (r: String)
    requires
        cells@.len() == 10,
    ensures
        r@ == spec_json_object(cells@.map_values(|s: String| s@)),
{
    reveal(spec_json_object);
    let ghost cv = cells@.map_values(|s: String| s@);
    let ghost parts = Seq::new(
        10,
        |i: int|
            (if i == 0 {
                seq!['\n']
            } else {
                seq![',', '\n']
            }) + "    "@ + json_string(json_key(i)) + ": "@ + json_value(cv[i], i),
    );
    let mut out = String::new();
    push_char(&mut out, '{');
    let mut i: usize = 0;
    while i < 10
        invariant
            i <= 10,
            cells@.len() == 10,
            cv == cells@.map_values(|s: String| s@),
            parts == Seq::new(
                10,
                |i: int|
                    (if i == 0 {
                        seq!['\n']
                    } else {
                        seq![',', '\n']
                    }) + "    "@ + json_string(json_key(i)) + ": "@ + json_value(cv[i], i),
            ),
            out@ == seq!['{'] + concat_all(parts.take(i as int)),
        decreases 10 - i,
    {
        proof {
            assert(parts.take(i + 1).drop_last() =~= parts.take(i as int));
        }
        if i > 0 {
            push_char(&mut out, ',');
        }
        push_char(&mut out, '\n');
        out.append("    ");
        let key = json_quote(json_key_text(i));
        out.append(key.as_str());
        out.append(": ");
        if is_right_aligned_column(i) {
            out.append(cells[i].as_str());
        } else {
            let v = json_quote(cells[i].as_str());
            out.append(v.as_str());
        }
        i = i + 1;
    }
    assert(parts.take(10) =~= parts);
    out.append("\n  }");
    out
}

/// The JSON report of the tracks.
fn format_json(tracks: &[Placemark], distances: &[u64]) -> (r: String)
    requires
        tracks@.len() == distances@.len(),
        tracks_wf(tracks@),
    ensures
        r@ == spec_json(results_view(tracks@), distances@),
{
    let ghost rows = table_rows(results_view(tracks@), distances@);
    let ghost parts = Seq::new(rows.len(), |j: int| json_item(rows[j], j));
    let n = tracks.len();
    if n == 0 {
        return String::from_str("[]");
    }
    let mut out = String::new();
    push_char(&mut out, '[');
    let mut j: usize = 0;
    while j < n
        invariant
            n == tracks@.len(),
            n == distances@.len(),
            j <= n,
            tracks_wf(tracks@),
            rows == table_rows(results_view(tracks@), distances@),
            parts == Seq::new(rows.len(), |j: int| json_item(rows[j], j)),
            out@ == seq!['['] + concat_all(parts.take(j as int)),
        decreases n - j,
    {
        proof {
            assert(parts.take(j + 1).drop_last() =~= parts.take(j as int));
        }
        assert(tracks@[j as int].1.start_time.wf());
        let values = format_row_data(&tracks[j].1, distances[j]);
        let obj = format_json_object(&values);
        let ghost before = out@;
        if j > 0 {
            push_char(&mut out, ',');
        }
        push_char(&mut out, '\n');
        out.append("  ");
        out.append(obj.as_str());
        proof {
            assert(values@.map_values(|s: String| s@) == rows[j as int]);
            assert(obj@ == spec_json_object(rows[j as int]));
            assert(out@ =~= before + parts[j as int]);
        }
        j = j + 1;
    }
    assert(parts.take(n as int) =~= parts);
    out.append("\n]");
    out
}

/// The report of the tracks in a format; `distances[i]` is the length in
/// whole meters of track `i` (computed outside this library, in floating
/// point).
pub fn format_output(format: OutputFormat, tracks: &[Placemark], distances: &[u64]) -> (r: String)
    requires
        tracks@.len() == distances@.len(),
        tracks_wf(tracks@),
    ensures
        r@ == (match format {
            OutputFormat::Json => spec_json(results_view(tracks@), distances@),
            OutputFormat::Csv => spec_csv(results_view(tracks@), distances@),
            OutputFormat::Tsv => spec_tsv(results_view(tracks@), distances@),
            OutputFormat::Table => spec_table(results_view(tracks@), distances@),
        }),
        format is Table ==> table_aligned(results_view(tracks@), distances@),
{
    match format {
        OutputFormat::Json => format_json(tracks, distances),
        OutputFormat::Csv => format_csv(tracks, distances),
        OutputFormat::Tsv => format_tsv(tracks, distances),
        OutputFormat::Table => format_table(tracks, distances),
    }
}

} // verus!

verus! {

/// Every column of the table is at least as wide as its header and as each
/// of its cells, and as wide as one of them: the widest decides.
pub proof fn law_column_width_is_widest(rows: Seq<Seq<Seq<char>>>, col: int)
    ensures
        spec_column_width(rows, col) >= unicode_display_width(table_header(col)),
        forall|j: int|
            0 <= j < rows.len() ==> spec_column_width(rows, col) >= unicode_display_width(
                #[trigger] rows[j][col],
            ),
        spec_column_width(rows, col) == unicode_display_width(table_header(col)) || exists|j: int|
            0 <= j < rows.len() && spec_column_width(rows, col) == unicode_display_width(
                #[trigger] rows[j][col],
            ),
    decreases rows.len(),
{
    if rows.len() > 0 {
        let prev = rows.drop_last();
        law_column_width_is_widest(prev, col);
        assert forall|j: int| 0 <= j < prev.len() implies #[trigger] rows[j][col] == prev[j][col] by {}
        if spec_column_width(prev, col) != unicode_display_width(table_header(col))
            && spec_column_width(rows, col) == spec_column_width(prev, col) {
            let j = choose|j: int|
                0 <= j < prev.len() && spec_column_width(prev, col) == unicode_display_width(
                    #[trigger] prev[j][col],
                );
            assert(rows[j][col] == prev[j][col]);
        }
        if spec_column_width(rows, col) != spec_column_width(prev, col) {
            assert(rows[rows.len() - 1][col] == rows.last()[col]);
        }
    }
}

/// A padded cell is its text with spaces: before it in the numeric columns,
/// after it elsewhere, as many as the column is wider than the text.
pub proof fn law_cell_padding(text: Seq<char>, width: int, col: int)
    ensures
        unicode_display_width(text) < width ==> spec_format_cell(text, width, col).len() == text.len()
            + (width - unicode_display_width(text)),
        unicode_display_width(text) < width && is_right_aligned(col) ==> spec_format_cell(
            text,
            width,
            col,
        ).skip(width - unicode_display_width(text)) == text,
        unicode_display_width(text) < width && !is_right_aligned(col) ==> spec_format_cell(
            text,
            width,
            col,
        ).take(text.len() as int) == text,
        unicode_display_width(text) >= width ==> spec_format_cell(text, width, col) == text,
{
    let tw = unicode_display_width(text);
    if tw < width {
        let p = repeat_char(' ', (width - tw) as nat);
        if is_right_aligned(col) {
            assert((p + text).skip(width - tw) =~= text);
        } else {
            assert((text + p).take(text.len() as int) =~= text);
        }
    }
}

/// A TSV line is the ten cells of the table line of the track (name,
/// start, end, duration, distance, points, category, activity, year,
/// month), as they are, joined by tabs and ended by a line feed; the CSV
/// line has the same cells, with the name quoted.
pub proof fn law_tsv_row_joins_the_cells(m: TrackView, distance: u64)
    ensures
        spec_tsv_row(m, distance) == join_with(spec_row_cells(m, distance), '\t') + seq!['\n'],
        spec_csv_row(m, distance) == seq!['"'] + csv_escape(spec_row_cells(m, distance)[0])
            + seq!['"', ','] + join_with(spec_row_cells(m, distance).skip(1), ',') + seq!['\n'],
        table_rows(seq![((Seq::<Seq<char>>::empty(), m))], seq![distance])[0] == spec_row_cells(
            m,
            distance,
        ),
{
}

} // verus!
