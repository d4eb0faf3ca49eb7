//! Reading back one CSV line of the report, as RFC 4180 reads a record.
use vstd::prelude::*;
use crate::datetime::{
    digit_char, padded, spec_decimal, spec_format_datetime, spec_int_text, year_text, zero_pad,
    DateTime,
};
use crate::format::{csv_escape, join_with, spec_csv_row, spec_row_cells};
use crate::metadata::TrackView;

verus! {

/// Whether a text holds neither a comma nor a double quote.
pub open spec fn no_csv_special(s: Seq<char>) -> bool {
    forall|i: int| 0 <= i < s.len() ==> s[i] != ',' && s[i] != '"'
}

/// The content of a quoted CSV field whose text starts at `k` (after the
/// opening quote), with `""` read as one quote, and the position after the
/// closing quote (the length of the text where it is missing).
pub open spec fn csv_quoted(s: Seq<char>, k: int) -> (Seq<char>, int)
    decreases s.len() - k,
{
    if k < 0 || k >= s.len() {
        (Seq::empty(), s.len() as int)
    } else if s[k] == '"' {
        if k + 1 < s.len() && s[k + 1] == '"' {
            let (c, j) = csv_quoted(s, k + 2);
            (seq!['"'] + c, j)
        } else {
            (Seq::empty(), k + 1)
        }
    } else {
        let (c, j) = csv_quoted(s, k + 1);
        (seq![s[k]] + c, j)
    }
}

/// The end of an unquoted CSV field that starts at `k`: the first comma at
/// or after `k`, or the length of the text.
pub open spec fn csv_plain_end(s: Seq<char>, k: int) -> int
    decreases s.len() - k,
{
    if k < 0 || k >= s.len() {
        s.len() as int
    } else if s[k] == ',' {
        k
    } else {
        csv_plain_end(s, k + 1)
    }
}

/// The fields of one CSV record (RFC 4180, without its line break) from
/// position `i` on: a field that starts with `"` is quoted, any other runs
/// to the next comma.
pub open spec fn csv_fields(s: Seq<char>, i: int) -> Seq<Seq<char>>
    decreases s.len() - i,
{
    if i < 0 || i > s.len() {
        Seq::empty()
    } else if i < s.len() && s[i] == '"' {
        let (c, j) = csv_quoted(s, i + 1);
        if i < j < s.len() && s[j] == ',' {
            seq![c] + csv_fields(s, j + 1)
        } else {
            seq![c]
        }
    } else {
        let j = csv_plain_end(s, i);
        if i <= j < s.len() {
            seq![s.subrange(i, j)] + csv_fields(s, j + 1)
        } else {
            seq![s.subrange(i, s.len() as int)]
        }
    }
}

/// Escaping a text with a character in front is escaping the character and
/// then the text.
proof fn lemma_csv_escape_front(c: char, y: Seq<char>)
    ensures
        csv_escape(seq![c] + y) == csv_escape(seq![c]) + csv_escape(y),
    decreases y.len(),
{
    if y.len() == 0 {
        assert(seq![c] + y =~= seq![c]);
    } else {
        lemma_csv_escape_front(c, y.drop_last());
        assert((seq![c] + y).drop_last() =~= seq![c] + y.drop_last());
        assert((seq![c] + y).last() == y.last());
        reveal_with_fuel(csv_escape, 2);
    }
}

/// A quoted field written by `csv_escape` reads back as its text, when the
/// closing quote is not followed by another quote.
proof fn lemma_csv_quoted_reads_escape(s: Seq<char>, k: int, x: Seq<char>)
    requires
        0 <= k,
        k + csv_escape(x).len() < s.len(),
        s.subrange(k, k + csv_escape(x).len()) == csv_escape(x),
        s[k + csv_escape(x).len()] == '"',
        k + csv_escape(x).len() + 1 >= s.len() || s[k + csv_escape(x).len() + 1] != '"',
    ensures
        csv_quoted(s, k) == (x, k + csv_escape(x).len() + 1),
    decreases x.len(),
{
    if x.len() == 0 {
        assert(csv_escape(x).len() == 0);
    } else {
        let c = x[0];
        let y = x.drop_first();
        assert(x =~= seq![c] + y);
        lemma_csv_escape_front(c, y);
        reveal_with_fuel(csv_escape, 2);
        assert(seq![c].drop_last() =~= Seq::<char>::empty());
        let e = csv_escape(seq![c]);
        let n = e.len();
        assert(s.subrange(k, k + n) =~= e) by {
            assert(s.subrange(k, k + csv_escape(x).len()).subrange(0, n as int) =~= e);
        }
        assert(s.subrange(k + n, k + n + csv_escape(y).len()) =~= csv_escape(y)) by {
            assert(s.subrange(k, k + csv_escape(x).len()).subrange(n as int, csv_escape(x).len() as int)
                =~= csv_escape(y));
        }
        lemma_csv_quoted_reads_escape(s, k + n, y);
        if c == '"' {
            assert(s[k] == '"' && s[k + 1] == '"');
        } else {
            assert(s[k] == c);
        }
        assert(seq![c] + y =~= x);
    }
}

/// Joining a list of texts puts the first before a separator and the join
/// of the rest.
proof fn lemma_join_front(cs: Seq<Seq<char>>, sep: char)
    requires
        cs.len() >= 2,
    ensures
        join_with(cs, sep) == cs[0] + seq![sep] + join_with(cs.drop_first(), sep),
    decreases cs.len(),
{
    let dl = cs.drop_last();
    let df = cs.drop_first();
    if cs.len() == 2 {
        assert(dl.len() == 1 && dl[0] == cs[0]);
        assert(df.len() == 1 && df[0] == cs.last());
        assert(join_with(dl, sep) == cs[0]);
        assert(join_with(df, sep) == cs.last());
    } else {
        lemma_join_front(dl, sep);
        assert(dl.drop_first() =~= df.drop_last());
        assert(df.last() == cs.last());
        assert(dl[0] == cs[0]);
        assert(join_with(df, sep) == join_with(df.drop_last(), sep) + seq![sep] + df.last());
        assert(join_with(cs, sep) =~= cs[0] + seq![sep] + join_with(df, sep));
    }
}

/// An unquoted field ends at the first comma from `k` on.
proof fn lemma_plain_end(s: Seq<char>, k: int, e: int)
    requires
        0 <= k <= e <= s.len(),
        forall|t: int| k <= t < e ==> s[t] != ',',
        e == s.len() || s[e] == ',',
    ensures
        csv_plain_end(s, k) == e,
    decreases e - k,
{
    if k < e {
        lemma_plain_end(s, k + 1, e);
    }
}

/// Texts without commas and quotes, joined by commas, read back as the same
/// texts.
proof fn lemma_plain_fields(s: Seq<char>, i: int, cs: Seq<Seq<char>>)
    requires
        0 <= i <= s.len(),
        cs.len() >= 1,
        s.subrange(i, s.len() as int) == join_with(cs, ','),
        forall|k: int| 0 <= k < cs.len() ==> no_csv_special(#[trigger] cs[k]),
    ensures
        csv_fields(s, i) == cs,
    decreases cs.len(),
{
    let c0 = cs[0];
    assert(no_csv_special(c0));
    if cs.len() == 1 {
        assert(s.subrange(i, s.len() as int) == c0);
        assert forall|t: int| i <= t < s.len() implies s[t] != ',' by {
            assert(s[t] == s.subrange(i, s.len() as int)[t - i]);
        }
        lemma_plain_end(s, i, s.len() as int);
        if i < s.len() {
            assert(s[i] == c0[0]);
        }
        assert(csv_fields(s, i) =~= cs);
    } else {
        lemma_join_front(cs, ',');
        let rest = cs.drop_first();
        let e = i + c0.len();
        let whole = s.subrange(i, s.len() as int);
        assert(whole == c0 + seq![','] + join_with(rest, ','));
        assert forall|t: int| i <= t < e implies s[t] != ',' by {
            assert(s[t] == whole[t - i]);
            assert(whole[t - i] == c0[t - i]);
        }
        assert(s[e] == whole[c0.len() as int]);
        lemma_plain_end(s, i, e);
        if i < s.len() && c0.len() > 0 {
            assert(s[i] == whole[0]);
        }
        if c0.len() == 0 {
            assert(s[i] == ',');
        }
        assert(s.subrange(i, e) =~= c0) by {
            assert forall|t: int| 0 <= t < c0.len() implies s.subrange(i, e)[t] == c0[t] by {
                assert(s[i + t] == whole[t]);
            }
        }
        assert(s.subrange(e + 1, s.len() as int) =~= join_with(rest, ',')) by {
            assert(whole.subrange(c0.len() as int + 1, whole.len() as int) =~= join_with(rest, ','));
        }
        assert forall|k: int| 0 <= k < rest.len() implies no_csv_special(#[trigger] rest[k]) by {
            assert(rest[k] == cs[k + 1]);
        }
        lemma_plain_fields(s, e + 1, rest);
        assert(csv_fields(s, i) =~= seq![c0] + rest);
        assert(seq![c0] + rest =~= cs);
    }
}

/// Two texts without commas and quotes stay so together.
proof fn lemma_no_special_concat(a: Seq<char>, b: Seq<char>)
    requires
        no_csv_special(a),
        no_csv_special(b),
    ensures
        no_csv_special(a + b),
{
    assert forall|i: int| 0 <= i < (a + b).len() implies (a + b)[i] != ',' && (a + b)[i] != '"' by {
        if i < a.len() {
            assert((a + b)[i] == a[i]);
        } else {
            assert((a + b)[i] == b[i - a.len()]);
        }
    }
}

/// Decimal digits hold no comma and no quote.
proof fn lemma_decimal_plain(n: nat)
    ensures
        no_csv_special(spec_decimal(n)),
    decreases n,
{
    if n >= 10 {
        lemma_decimal_plain(n / 10);
        let d = digit_char((n % 10) as int);
        assert(no_csv_special(seq![d]));
        lemma_no_special_concat(spec_decimal(n / 10), seq![d]);
        assert(spec_decimal(n / 10).push(d) =~= spec_decimal(n / 10) + seq![d]);
    }
}

/// Padded numbers hold no comma and no quote.
proof fn lemma_padded_plain(n: nat, w: nat)
    ensures
        no_csv_special(padded(n, w)),
{
    lemma_decimal_plain(n);
    let s = spec_decimal(n);
    if s.len() < w {
        let z = Seq::new((w - s.len()) as nat, |i: int| '0');
        assert(no_csv_special(z));
        lemma_no_special_concat(z, s);
    }
}

/// The text of a date and time holds no comma and no quote.
proof fn lemma_datetime_plain(t: DateTime)
    ensures
        no_csv_special(spec_format_datetime(t)),
{
    let y = t.year as int;
    lemma_padded_plain(if y < 0 { (-y) as nat } else { y as nat }, 4);
    if !(0 <= y <= 9999) {
        lemma_no_special_concat(seq![if y < 0 { '-' } else { '+' }], padded(if y < 0 { (-y) as nat } else { y as nat }, 4));
        if y < 0 {
            assert(year_text(y) == seq!['-'] + padded((-y) as nat, 4));
        } else {
            assert(year_text(y) == seq!['+'] + padded(y as nat, 4));
        }
    }
    assert(no_csv_special(year_text(y)));
    lemma_padded_plain(t.month as nat, 2);
    lemma_padded_plain(t.day as nat, 2);
    lemma_padded_plain(t.hour as nat, 2);
    lemma_padded_plain(t.minute as nat, 2);
    lemma_padded_plain((t.second + t.nanosecond / 1_000_000_000) as nat, 2);
    let mo = padded(t.month as nat, 2);
    let d = padded(t.day as nat, 2);
    let h = padded(t.hour as nat, 2);
    let mi = padded(t.minute as nat, 2);
    let se = padded((t.second + t.nanosecond / 1_000_000_000) as nat, 2);
    assert(no_csv_special(seq!['-']) && no_csv_special(seq![' ']) && no_csv_special(seq![':']));
    let a1 = year_text(y) + seq!['-'];
    lemma_no_special_concat(year_text(y), seq!['-']);
    let a2 = a1 + mo;
    lemma_no_special_concat(a1, mo);
    let a3 = a2 + seq!['-'];
    lemma_no_special_concat(a2, seq!['-']);
    let a4 = a3 + d;
    lemma_no_special_concat(a3, d);
    let a5 = a4 + seq![' '];
    lemma_no_special_concat(a4, seq![' ']);
    let a6 = a5 + h;
    lemma_no_special_concat(a5, h);
    let a7 = a6 + seq![':'];
    lemma_no_special_concat(a6, seq![':']);
    let a8 = a7 + mi;
    lemma_no_special_concat(a7, mi);
    let a9 = a8 + seq![':'];
    lemma_no_special_concat(a8, seq![':']);
    lemma_no_special_concat(a9, se);
    assert(a9 + se == spec_format_datetime(t));
}

/// A CSV line of the report reads back, as one RFC 4180 record, as the ten
/// cells of the track, the name among them whatever it holds, when the
/// category, activity, year and month hold no comma and no quote.
pub proof fn law_csv_row_reads_back(m: TrackView, distance: u64)
    requires
        no_csv_special(m.category),
        no_csv_special(m.activity),
        no_csv_special(m.year),
        no_csv_special(m.month),
    ensures
        csv_fields(spec_csv_row(m, distance).drop_last(), 0) == spec_row_cells(m, distance),
{
    let cells = spec_row_cells(m, distance);
    let line = spec_csv_row(m, distance).drop_last();
    let e = csv_escape(cells[0]);
    let rest = cells.skip(1);
    let j = join_with(rest, ',');
    assert(line =~= seq!['"'] + e + seq!['"', ','] + j);
    lemma_datetime_plain(m.start_time);
    lemma_datetime_plain(m.end_time);
    let dur = crate::datetime::spec_seconds_between(m.end_time, m.start_time);
    if dur < 0 {
        lemma_decimal_plain((-dur) as nat);
        lemma_no_special_concat(seq!['-'], spec_decimal((-dur) as nat));
    } else {
        lemma_decimal_plain(dur as nat);
    }
    assert(no_csv_special(spec_int_text(dur)));
    lemma_decimal_plain(distance as nat);
    lemma_decimal_plain(m.coordinates.len());
    assert forall|k: int| 0 <= k < rest.len() implies no_csv_special(#[trigger] rest[k]) by {
        assert(rest[k] == cells[k + 1]);
    }
    let n: int = e.len() as int;
    assert(line.subrange(1, 1 + n) =~= e);
    assert(line[1 + n] == '"');
    assert(line[2 + n] == ',');
    lemma_csv_quoted_reads_escape(line, 1, cells[0]);
    assert(line.subrange(3 + n, line.len() as int) =~= j);
    lemma_plain_fields(line, 3 + n, rest);
    assert(csv_fields(line, 0) =~= seq![cells[0]] + rest);
    assert(seq![cells[0]] + rest =~= cells);
}

} // verus!

