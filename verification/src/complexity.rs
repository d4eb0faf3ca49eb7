//! Cognitive complexity of the functions of a Rust source text, counted line
//! by line in the manner of the Better Highlights rating.
//!
//! A line adds the increment of its nesting for a branch (`if`, `if let`,
//! `else if`, a bare `else`, `match`), the same again for a loop, and one for
//! each `&&` and `||`. Lines that are empty once comments are cut add nothing,
//! and the `?` operator adds nothing either. The nesting of a line is its
//! indentation in bytes divided by four.
use vstd::prelude::*;
use vstd::utf8::encode_utf8;
use crate::coordinates::{find_char, first_index_of};
use crate::path::byte_len;
use crate::text::{
    has_literal_at, is_white_space, literal_at, string_from_chars, to_chars, white_space,
};

verus! {

/// The first position at or after `i` where `pat` stands in `s`.
pub open spec fn first_occurrence(s: Seq<char>, pat: Seq<char>, i: int) -> Option<int>
    decreases s.len() - i,
{
    if i < 0 || i + pat.len() > s.len() {
        None
    } else if literal_at(s, i, pat) {
        Some(i)
    } else if i >= s.len() {
        None
    } else {
        first_occurrence(s, pat, i + 1)
    }
}

/// Whether `pat` stands somewhere in `s` (`str::contains`).
pub open spec fn contains_text(s: Seq<char>, pat: Seq<char>) -> bool {
    first_occurrence(s, pat, 0) is Some
}

/// The number of occurrences of `pat` in `s` from `i` on that do not overlap,
/// found from the left (`str::matches(..).count()`).
pub open spec fn count_matches(s: Seq<char>, pat: Seq<char>, i: int) -> nat
    decreases s.len() - i,
{
    if i < 0 || pat.len() == 0 || i + pat.len() > s.len() {
        0
    } else if literal_at(s, i, pat) {
        1 + count_matches(s, pat, i + pat.len())
    } else {
        count_matches(s, pat, i + 1)
    }
}

/// The first position at or after `i` whose character is not white space, or
/// the length of `s`.
pub open spec fn first_non_ws(s: Seq<char>, i: int) -> int
    decreases s.len() - i,
{
    if i < 0 || i >= s.len() {
        s.len() as int
    } else if is_white_space(s[i]) {
        first_non_ws(s, i + 1)
    } else {
        i
    }
}

/// The end of `s.take(j)` without its trailing white space.
pub open spec fn trimmed_end(s: Seq<char>, j: int) -> int
    decreases j,
{
    if j <= 0 || j > s.len() {
        0
    } else if is_white_space(s[j - 1]) {
        trimmed_end(s, j - 1)
    } else {
        j
    }
}

/// A text without its leading and trailing white space (`str::trim`).
pub open spec fn spec_trim(s: Seq<char>) -> Seq<char> {
    let a = first_non_ws(s, 0);
    let b = trimmed_end(s, s.len() as int);
    if a < b {
        s.subrange(a, b)
    } else {
        Seq::empty()
    }
}

/// A line cut before its first `//`.
pub open spec fn strip_comment(line: Seq<char>) -> Seq<char> {
    match first_occurrence(line, "//"@, 0) {
        Some(p) => line.take(p),
        None => line,
    }
}

/// The number of bytes of the UTF-8 encoding of a text.
pub open spec fn utf8_len(s: Seq<char>) -> nat {
    encode_utf8(s).len()
}

/// The increment of a line: one, plus one for each level of nesting beyond
/// the first, where a level is four bytes of leading white space.
pub open spec fn base_increment(line: Seq<char>) -> nat {
    let nesting = utf8_len(line.take(first_non_ws(line, 0))) / 4;
    if nesting >= 1 {
        nesting
    } else {
        1
    }
}

/// What a cleaned line adds for a branch.
pub open spec fn branch_increment(clean: Seq<char>, base: nat) -> nat {
    if contains_text(clean, "if let"@) {
        base
    } else if contains_text(clean, "else if"@) {
        base
    } else if contains_text(clean, "if "@) && !contains_text(clean, "else"@) {
        base
    } else if contains_text(clean, "else"@) && !contains_text(clean, "if"@) && !contains_text(
        clean,
        "let"@,
    ) && !contains_text(clean, "."@) {
        base
    } else if contains_text(clean, "match "@) {
        base
    } else {
        0
    }
}

/// What a cleaned line adds for a loop.
pub open spec fn loop_increment(clean: Seq<char>, base: nat) -> nat {
    if contains_text(clean, "for "@) || contains_text(clean, "while "@) || contains_text(
        clean,
        "loop "@,
    ) {
        base
    } else {
        0
    }
}

/// What one line of a function body adds to its complexity.
pub open spec fn line_complexity(line: Seq<char>) -> nat {
    let clean = spec_trim(strip_comment(line));
    if clean.len() == 0 {
        0
    } else {
        let base = base_increment(line);
        branch_increment(clean, base) + loop_increment(clean, base) + count_matches(
            clean,
            "&&"@,
            0,
        ) + count_matches(clean, "||"@, 0)
    }
}

/// A line without the carriage return that ends it, if any.
pub open spec fn strip_cr(l: Seq<char>) -> Seq<char> {
    if l.len() > 0 && l.last() == '\r' {
        l.drop_last()
    } else {
        l
    }
}

/// Where a newline stands, it stands within the text.
pub proof fn lemma_first_index_in_range(s: Seq<char>, c: char, i: int)
    requires
        0 <= i,
    ensures
        first_index_of(s, c, i) matches Some(k) ==> i <= k < s.len() && s[k] == c,
    decreases s.len() - i,
{
    if i < s.len() && s[i] != c {
        lemma_first_index_in_range(s, c, i + 1);
    }
}

/// The lines of `s` from position `i` on, as `str::lines` gives them: split
/// after each `\n`, which is dropped with a `\r` before it; a last line
/// without `\n` is kept as it is, and an empty rest gives no line.
pub open spec fn lines_from(s: Seq<char>, i: int) -> Seq<Seq<char>>
    decreases s.len() - i,
{
    if i < 0 || i >= s.len() {
        Seq::empty()
    } else {
        match first_index_of(s, '\n', i) {
            None => seq![s.subrange(i, s.len() as int)],
            Some(k) => {
                proof {
                    lemma_first_index_in_range(s, '\n', i);
                }
                seq![strip_cr(s.subrange(i, k))] + lines_from(s, k + 1)
            },
        }
    }
}

/// The lines of a text (`str::lines`).
pub open spec fn spec_lines(s: Seq<char>) -> Seq<Seq<char>> {
    lines_from(s, 0)
}

/// The sum of the complexity of some lines.
pub open spec fn sum_complexity(lines: Seq<Seq<char>>) -> nat
    decreases lines.len(),
{
    if lines.len() == 0 {
        0
    } else {
        line_complexity(lines[0]) + sum_complexity(lines.drop_first())
    }
}

/// The position after the braces that match an opening brace: the scan moves
/// on from `pos` while braces stay open, and `count` is how many are.
pub open spec fn brace_scan(c: Seq<char>, pos: int, count: int) -> (int, int)
    decreases c.len() - pos,
{
    if 0 <= pos < c.len() && count > 0 {
        let d: int = if c[pos] == '{' {
            1
        } else if c[pos] == '}' {
            -1
        } else {
            0
        };
        brace_scan(c, pos + 1, count + d)
    } else {
        (pos, count)
    }
}

/// Where the body of a function whose first `{` stands at `start` begins: on
/// the line after that brace.
pub open spec fn body_start(c: Seq<char>, start: int) -> int {
    match first_index_of(c, '\n', start + 1) {
        Some(k) => k + 1,
        None => c.len() as int,
    }
}

/// Where that body ends: before the matching `}`, or at the end of the text
/// where the braces never close.
pub open spec fn body_end(c: Seq<char>, start: int) -> int {
    let (pos, count) = brace_scan(c, start + 1, 1);
    if count == 0 {
        pos - 1
    } else {
        c.len() as int
    }
}

/// The body of a function, from the line after its first `{` to before the
/// matching `}`: empty where the body closes on the line of that `{`, and the
/// whole text where there is no `{`.
pub open spec fn spec_function_body(c: Seq<char>) -> Seq<char> {
    match first_index_of(c, '{', 0) {
        None => c,
        Some(start) => if body_start(c, start) <= body_end(c, start) {
            c.subrange(body_start(c, start), body_end(c, start))
        } else {
            Seq::empty()
        },
    }
}

/// The cognitive complexity of the text of a function.
pub open spec fn spec_cognitive_complexity(func_code: Seq<char>) -> nat {
    sum_complexity(spec_lines(spec_function_body(func_code)))
}

/// The complexity as a share of fifteen, in percent, rounded to the nearest
/// integer and capped at one hundred.
pub open spec fn spec_percentage(cc: nat) -> u32 {
    if cc >= 15 {
        100
    } else {
        ((20 * cc + 1) / 3) as u32
    }
}

/// The rating of a percentage.
pub open spec fn spec_label(p: u32) -> Seq<char> {
    if p == 0 {
        "極優"@
    } else if p <= 30 {
        "優秀"@
    } else if p <= 70 {
        "中等"@
    } else if p <= 90 {
        "複雜"@
    } else {
        "非常複雜"@
    }
}

/// The analysis of one function.
#[derive(Debug)]
pub struct AnalysisResult {
    pub name: String,
    pub cc: usize,
    pub percentage: u32,
    pub label: String,
}

/// The length in bytes of the longest name among some results.
pub open spec fn spec_longest_name(results: Seq<AnalysisResult>) -> usize
    decreases results.len(),
{
    if results.len() == 0 {
        0
    } else {
        let rest = spec_longest_name(results.drop_last());
        let l = byte_len(results.last().name@);
        if l > rest {
            l
        } else {
            rest
        }
    }
}

/// The width of the name column of a report: two more than the longest name
/// in bytes, but no less than 20 and no more than 60.
pub open spec fn spec_name_width(results: Seq<AnalysisResult>) -> usize {
    let l = spec_longest_name(results) + 2;
    if l < 20 {
        20
    } else if l > 60 {
        60
    } else {
        l as usize
    }
}

/// The number of characters from `j` on that a cut at `k` bytes keeps: the
/// scan stops before the first character that would pass `k` bytes.
pub open spec fn cut_len(s: Seq<char>, k: usize, j: int) -> int
    decreases s.len() - j,
{
    if 0 <= j < s.len() && byte_len(s.take(j + 1)) <= k {
        cut_len(s, k, j + 1)
    } else {
        j
    }
}

/// How a name shows in a column of width `w`: as it is when it is at most
/// `w - 2` bytes long, else cut to at most `max(1, w - 5)` bytes at a
/// character boundary and followed by `...`.
pub open spec fn spec_display_name(name: Seq<char>, w: usize) -> Seq<char> {
    if byte_len(name) + 2 > w {
        let k: usize = if w >= 6 {
            (w - 5) as usize
        } else {
            1
        };
        name.take(cut_len(name, k, 0)) + "..."@
    } else {
        name
    }
}

/// The sum of the percentages of some results.
pub open spec fn spec_sum_percent(results: Seq<AnalysisResult>) -> nat
    decreases results.len(),
{
    if results.len() == 0 {
        0
    } else {
        (results[0].percentage as nat) + spec_sum_percent(results.drop_first())
    }
}

/// Finds the first position at or after `i` where `pat` stands in `s`.
fn find_text(s: &Vec<char>, i: usize, pat: &str) -> (r: Option<usize>)
    ensures
        r matches Some(k) ==> first_occurrence(s@, pat@, i as int) == Some(k as int) && i <= k
            && k + pat@.len() <= s@.len(),
        r is None ==> first_occurrence(s@, pat@, i as int) is None,
{
    let n = s.len();
    let m = pat.unicode_len();
    if m == 0 {
        return if i <= n {
            assert(s@.subrange(i as int, i as int) =~= pat@);
            Some(i)
        } else {
            None
        };
    }
    let mut k = i;
    while k <= n && m <= n - k
        invariant
            n == s@.len(),
            m == pat@.len(),
            m > 0,
            i <= k,
            first_occurrence(s@, pat@, i as int) == first_occurrence(s@, pat@, k as int),
        decreases n + 1 - k,
    {
        if has_literal_at(s, k, pat) {
            return Some(k);
        }
        k = k + 1;
    }
    None
}

/// Whether `pat` stands somewhere in `s`.
fn has_text(s: &Vec<char>, pat: &str) -> (r: bool)
    ensures
        r == contains_text(s@, pat@),
{
    find_text(s, 0, pat).is_some()
}

/// Counts the occurrences of `pat` in `s` that do not overlap.
fn count_text(s: &Vec<char>, pat: &str) -> (r: usize)
    ensures
        r == count_matches(s@, pat@, 0),
        r <= s@.len(),
{
    let n = s.len();
    let m = pat.unicode_len();
    if m == 0 {
        return 0;
    }
    let mut k: usize = 0;
    let mut count: usize = 0;
    while k <= n && m <= n - k
        invariant
            n == s@.len(),
            m == pat@.len(),
            m > 0,
            k <= n,
            count <= k,
            count + count_matches(s@, pat@, k as int) == count_matches(s@, pat@, 0),
        decreases n + 1 - k,
    {
        if has_literal_at(s, k, pat) {
            count = count + 1;
            k = k + m;
        } else {
            k = k + 1;
        }
    }
    count
}

/// The characters `v[from..to]`.
fn slice_chars(v: &Vec<char>, from: usize, to: usize) -> (r: Vec<char>)
    requires
        from <= to <= v@.len(),
    ensures
        r@ == v@.subrange(from as int, to as int),
{
    let mut r: Vec<char> = Vec::new();
    let mut i = from;
    while i < to
        invariant
            from <= i <= to <= v@.len(),
            r@ == v@.subrange(from as int, i as int),
        decreases to - i,
    {
        r.push(v[i]);
        assert(v@.subrange(from as int, i + 1) =~= v@.subrange(from as int, i as int).push(
            v@[i as int],
        ));
        i = i + 1;
    }
    r
}

/// Finds the first position at or after `i` that is not white space.
fn skip_white_space(s: &Vec<char>, i: usize) -> (r: usize)
    ensures
        r == first_non_ws(s@, i as int),
        i <= s@.len() ==> i <= r <= s@.len(),
{
    let n = s.len();
    if i >= n {
        return n;
    }
    let mut k = i;
    while k < n && white_space(s[k])
        invariant
            n == s@.len(),
            i <= k <= n,
            first_non_ws(s@, i as int) == first_non_ws(s@, k as int),
        decreases n - k,
    {
        k = k + 1;
    }
    k
}

/// Finds the end of a text without its trailing white space.
fn trim_end_position(s: &Vec<char>) -> (r: usize)
    ensures
        r == trimmed_end(s@, s@.len() as int),
        r <= s@.len(),
{
    let mut j = s.len();
    while j > 0 && white_space(s[j - 1])
        invariant
            j <= s@.len(),
            trimmed_end(s@, s@.len() as int) == trimmed_end(s@, j as int),
        decreases j,
    {
        j = j - 1;
    }
    j
}

/// The UTF-8 encoding of a text is at most four bytes a character.
proof fn lemma_utf8_len_bound(s: Seq<char>)
    ensures
        utf8_len(s) <= 4 * s.len(),
    decreases s.len(),
{
    if s.len() > 0 {
        lemma_utf8_len_bound(s.drop_first());
    }
}

/// Occurrences that do not overlap are no more than the characters.
proof fn lemma_count_matches_bound(s: Seq<char>, pat: Seq<char>, i: int)
    requires
        0 <= i <= s.len(),
    ensures
        count_matches(s, pat, i) <= s.len() - i,
    decreases s.len() - i,
{
    if pat.len() > 0 && i + pat.len() <= s.len() {
        if literal_at(s, i, pat) {
            lemma_count_matches_bound(s, pat, i + pat.len());
        } else {
            lemma_count_matches_bound(s, pat, i + 1);
        }
    }
}

/// A first occurrence leaves room for the pattern.
proof fn lemma_first_occurrence_range(s: Seq<char>, pat: Seq<char>, i: int)
    requires
        0 <= i,
    ensures
        first_occurrence(s, pat, i) matches Some(k) ==> i <= k && k + pat.len() <= s.len(),
    decreases s.len() - i,
{
    if i + pat.len() <= s.len() && !literal_at(s, i, pat) && i < s.len() {
        lemma_first_occurrence_range(s, pat, i + 1);
    }
}

/// What one line adds is bounded by six times its length.
proof fn lemma_line_complexity_bound(line: Seq<char>)
    ensures
        line_complexity(line) <= 6 * line.len(),
{
    let stripped = strip_comment(line);
    lemma_first_occurrence_range(line, "//"@, 0);
    assert(stripped.len() <= line.len());
    let clean = spec_trim(stripped);
    lemma_trimmed_end_range(stripped, stripped.len() as int);
    lemma_first_non_ws_range(stripped, 0);
    assert(clean.len() <= stripped.len());
    if clean.len() > 0 {
        let k = first_non_ws(line, 0);
        lemma_first_non_ws_range(line, 0);
        lemma_utf8_len_bound(line.take(k));
        lemma_count_matches_bound(clean, "&&"@, 0);
        lemma_count_matches_bound(clean, "||"@, 0);
    }
}

/// The trimmed end stands between the start and `j`.
proof fn lemma_trimmed_end_range(s: Seq<char>, j: int)
    requires
        0 <= j <= s.len(),
    ensures
        0 <= trimmed_end(s, j) <= j,
    decreases j,
{
    if j > 0 && is_white_space(s[j - 1]) {
        lemma_trimmed_end_range(s, j - 1);
    }
}

/// The first character that is not white space stands within the text.
proof fn lemma_first_non_ws_range(s: Seq<char>, i: int)
    requires
        0 <= i <= s.len(),
    ensures
        i <= first_non_ws(s, i) <= s.len(),
    decreases s.len() - i,
{
    if i < s.len() && is_white_space(s[i]) {
        lemma_first_non_ws_range(s, i + 1);
    }
}

/// Computes what one line adds to the complexity.
fn line_complexity_of(line: &Vec<char>) -> (r: usize)
    requires
        line@.len() <= usize::MAX / 8,
    ensures
        r == line_complexity(line@),
{
    proof {
        lemma_line_complexity_bound(line@);
    }
    let n = line.len();
    let stripped = match find_text(line, 0, "//") {
        Some(p) => slice_chars(line, 0, p),
        None => slice_chars(line, 0, n),
    };
    assert(stripped@ == strip_comment(line@)) by {
        assert(line@.subrange(0, n as int) =~= line@);
    }
    let a = skip_white_space(&stripped, 0);
    let b = trim_end_position(&stripped);
    let clean = if a < b {
        slice_chars(&stripped, a, b)
    } else {
        Vec::new()
    };
    assert(clean@ == spec_trim(stripped@));
    if clean.len() == 0 {
        return 0;
    }
    let k = skip_white_space(line, 0);
    let prefix = string_from_chars(line, 0, k);
    proof {
        assert(line@.subrange(0, k as int) =~= line@.take(k as int));
        lemma_utf8_len_bound(prefix@);
    }
    let indent = prefix.as_str().len();
    let nesting = indent / 4;
    let base = 1 + nesting.saturating_sub(1);
    assert(base == base_increment(line@));
    let mut complexity: usize = 0;
    if has_text(&clean, "if let") {
        complexity = complexity + base;
    } else if has_text(&clean, "else if") {
        complexity = complexity + base;
    } else if has_text(&clean, "if ") && !has_text(&clean, "else") {
        complexity = complexity + base;
    } else if has_text(&clean, "else") && !has_text(&clean, "if") && !has_text(&clean, "let")
        && !has_text(&clean, ".") {
        complexity = complexity + base;
    } else if has_text(&clean, "match ") {
        complexity = complexity + base;
    }
    if has_text(&clean, "for ") || has_text(&clean, "while ") || has_text(&clean, "loop ") {
        complexity = complexity + base;
    }
    let and_count = count_text(&clean, "&&");
    let or_count = count_text(&clean, "||");
    complexity + and_count + or_count
}

/// The characters of the body of a function.
fn function_body_chars(chars: &Vec<char>) -> (r: Vec<char>)
    ensures
        r@ == spec_function_body(chars@),
{
    let n = chars.len();
    match find_char(chars, '{', 0) {
        None => slice_chars(chars, 0, n),
        Some(start) => {
            let mut brace_count: usize = 1;
            let mut pos = start + 1;
            while pos < n && brace_count > 0
                invariant
                    n == chars@.len(),
                    start < pos <= n,
                    brace_count <= pos - start,
                    brace_scan(chars@, pos as int, brace_count as int) == brace_scan(
                        chars@,
                        start + 1,
                        1,
                    ),
                decreases n - pos,
            {
                if chars[pos] == '{' {
                    brace_count = brace_count + 1;
                } else if chars[pos] == '}' {
                    brace_count = brace_count - 1;
                }
                pos = pos + 1;
            }
            let mut body_begin = start + 1;
            while body_begin < n && chars[body_begin] != '\n'
                invariant
                    n == chars@.len(),
                    start < body_begin <= n,
                    first_index_of(chars@, '\n', start + 1) == first_index_of(
                        chars@,
                        '\n',
                        body_begin as int,
                    ),
                decreases n - body_begin,
            {
                body_begin = body_begin + 1;
            }
            if body_begin < n && chars[body_begin] == '\n' {
                body_begin = body_begin + 1;
            }
            let body_stop = if brace_count == 0 {
                pos - 1
            } else {
                n
            };
            if body_begin <= body_stop {
                slice_chars(chars, body_begin, body_stop)
            } else {
                Vec::new()
            }
        },
    }
}

/// The body of a function: the text from the line after its first `{` to
/// before the matching `}` (empty where the body closes on the line of that
/// `{`), or the whole text where it has no `{`.
pub fn extract_function_body(func_code: &str) -> (r: String)
    ensures
        r@ == spec_function_body(func_code@),
{
    let chars = to_chars(func_code);
    let body = function_body_chars(&chars);
    string_from_chars(&body, 0, body.len())
}

/// The rating of a complexity percentage.
pub fn get_label(percentage: u32) -> (r: String)
    ensures
        r@ == spec_label(percentage),
{
    if percentage == 0 {
        "極優".to_string()
    } else if percentage <= 30 {
        "優秀".to_string()
    } else if percentage <= 70 {
        "中等".to_string()
    } else if percentage <= 90 {
        "複雜".to_string()
    } else {
        "非常複雜".to_string()
    }
}

/// Analyzes the text of a function: its cognitive complexity, that
/// complexity as a percentage of fifteen, and the rating of the percentage.
pub fn analyze_function(func_code: &str, func_name: &str) -> (r: AnalysisResult)
    requires
        func_code@.len() <= usize::MAX / 8,
    ensures
        r.name@ == func_name@,
        r.cc == spec_cognitive_complexity(func_code@),
        r.percentage == spec_percentage(r.cc as nat),
        r.label@ == spec_label(r.percentage),
{
    let chars = to_chars(func_code);
    let body = function_body_chars(&chars);
    proof {
        lemma_body_within(chars@);
    }
    let n = body.len();
    let mut complexity: usize = 0;
    let mut pos: usize = 0;
    while pos < n
        invariant
            n == body@.len(),
            n <= usize::MAX / 8,
            pos <= n,
            complexity <= 6 * pos,
            complexity + sum_complexity(lines_from(body@, pos as int)) == sum_complexity(
                lines_from(body@, 0),
            ),
        decreases n - pos,
    {
        let ghost rest = lines_from(body@, pos as int);
        match find_char(&body, '\n', pos) {
            Some(k) => {
                let mut line = slice_chars(&body, pos, k);
                if line.len() > 0 && line[line.len() - 1] == '\r' {
                    line.pop();
                    assert(line@ =~= body@.subrange(pos as int, k as int).drop_last());
                }
                assert(line@ == strip_cr(body@.subrange(pos as int, k as int)));
                proof {
                    lemma_line_complexity_bound(line@);
                    assert(rest.drop_first() =~= lines_from(body@, k + 1));
                }
                let add = line_complexity_of(&line);
                complexity = complexity + add;
                pos = k + 1;
            },
            None => {
                let line = slice_chars(&body, pos, n);
                proof {
                    lemma_line_complexity_bound(line@);
                    assert(rest.drop_first() =~= Seq::<Seq<char>>::empty());
                    assert(lines_from(body@, n as int) =~= Seq::<Seq<char>>::empty());
                }
                let add = line_complexity_of(&line);
                complexity = complexity + add;
                pos = n;
            },
        }
    }
    let percentage: u32 = if complexity >= 15 {
        100
    } else {
        ((20 * complexity + 1) / 3) as u32
    };
    let label = get_label(percentage);
    AnalysisResult { name: func_name.to_string(), cc: complexity, percentage, label }
}

/// Cuts a name to at most `k` bytes at a character boundary and appends
/// `...`.
fn cut_name(name: &str, k: usize) -> (r: String)
    ensures
        r@ == name@.take(cut_len(name@, k, 0)) + "..."@,
{
    let chars = to_chars(name);
    let n = chars.len();
    let mut j: usize = 0;
    while j < n && string_from_chars(&chars, 0, j + 1).as_str().len() <= k
        invariant
            n == chars@.len(),
            chars@ == name@,
            j <= n,
            cut_len(name@, k, 0) == cut_len(name@, k, j as int),
        decreases n - j,
    {
        proof {
            assert(chars@.subrange(0, j + 1) =~= name@.take(j + 1));
        }
        j = j + 1;
    }
    proof {
        if j < n {
            assert(chars@.subrange(0, j + 1) =~= name@.take(j + 1));
        }
    }
    let mut out = string_from_chars(&chars, 0, j);
    out.append("...");
    assert(chars@.subrange(0, j as int) =~= name@.take(j as int));
    out
}

/// The report of the analyses of the functions of a file: the width of the
/// name column, each name as it shows in that column, the average
/// percentage (rounded down), and the rating of the average.
pub fn complexity_report(results: &Vec<AnalysisResult>) -> (r: (usize, Vec<String>, u32, String))
    requires
        results@.len() > 0,
        results@.len() <= u32::MAX,
        spec_sum_percent(results@) <= u32::MAX,
    ensures
        r.0 == spec_name_width(results@),
        r.1@.len() == results@.len(),
        forall|i: int|
            0 <= i < results@.len() ==> #[trigger] r.1@[i]@ == spec_display_name(
                results@[i].name@,
                r.0,
            ),
        r.2 == spec_sum_percent(results@) / (results@.len() as nat),
        r.3@ == spec_label(r.2),
{
    let n = results.len();
    let mut longest: usize = 0;
    let mut total: u32 = 0;
    let mut i: usize = 0;
    assert(results@.skip(0) =~= results@);
    while i < n
        invariant
            n == results@.len(),
            i <= n,
            longest == spec_longest_name(results@.take(i as int)),
            total + spec_sum_percent(results@.skip(i as int)) == spec_sum_percent(results@),
            spec_sum_percent(results@) <= u32::MAX,
        decreases n - i,
    {
        proof {
            assert(results@.take(i + 1).drop_last() =~= results@.take(i as int));
            assert(results@.skip(i as int).drop_first() =~= results@.skip(i + 1));
        }
        let l = results[i].name.as_str().len();
        if l > longest {
            longest = l;
        }
        total = total + results[i].percentage;
        i = i + 1;
    }
    assert(results@.take(n as int) =~= results@);
    let capped = if longest > 58 { 58 } else { longest };
    let name_width: usize = if capped + 2 < 20 { 20 } else { capped + 2 };
    let mut names: Vec<String> = Vec::new();
    let mut j: usize = 0;
    while j < n
        invariant
            n == results@.len(),
            j <= n,
            name_width >= 20,
            names@.len() == j,
            forall|t: int|
                0 <= t < j ==> #[trigger] names@[t]@ == spec_display_name(
                    results@[t].name@,
                    name_width,
                ),
        decreases n - j,
    {
        let name = results[j].name.as_str();
        let shown = if name.len() > name_width - 2 {
            cut_name(name, name_width - 5)
        } else {
            name.to_string()
        };
        names.push(shown);
        j = j + 1;
    }
    let average = total / (n as u32);
    let label = get_label(average);
    (name_width, names, average, label)
}

/// The body of a function is no longer than its text.
proof fn lemma_body_within(c: Seq<char>)
    ensures
        spec_function_body(c).len() <= c.len(),
{
    match first_index_of(c, '{', 0) {
        None => {},
        Some(start) => {
            lemma_first_index_in_range(c, '{', 0);
            lemma_first_index_in_range(c, '\n', start + 1);
            lemma_brace_scan_within(c, start + 1, 1);
        },
    }
}

/// The brace scan stops within the text.
proof fn lemma_brace_scan_within(c: Seq<char>, pos: int, count: int)
    requires
        0 <= pos <= c.len(),
    ensures
        pos <= brace_scan(c, pos, count).0 <= c.len(),
    decreases c.len() - pos,
{
    if 0 <= pos < c.len() && count > 0 {
        let d: int = if c[pos] == '{' {
            1
        } else if c[pos] == '}' {
            -1
        } else {
            0
        };
        lemma_brace_scan_within(c, pos + 1, count + d);
    }
}


/// A name for what `char::is_alphanumeric` answers of a character.
pub uninterp spec fn char_is_alphanumeric(c: char) -> bool;

/// `char::is_alphanumeric`: whether a character is alphabetic or numeric in
/// Unicode (the `Alphabetic` property, or the categories `Nd`, `Nl`, `No`).
/// The contract names the answer, which depends on the character alone, and
/// states it for ASCII, where exactly the letters and the digits have one of
/// these properties; the tables beyond ASCII are not stated.
#[verifier::external_body]
fn is_alphanumeric(c: char) -> (r: bool)
    ensures
        r == char_is_alphanumeric(c),
        c <= '\u{7f}' ==> (r <==> ('a' <= c <= 'z' || 'A' <= c <= 'Z' || '0' <= c <= '9')),
{
    c.is_alphanumeric()
}

/// Whether a character may stand in a function name.
pub open spec fn is_name_char(c: char) -> bool {
    char_is_alphanumeric(c) || c == '_'
}

/// The end of the name that starts at `k`.
pub open spec fn name_end(c: Seq<char>, k: int) -> int
    decreases c.len() - k,
{
    if k < 0 || k >= c.len() {
        c.len() as int
    } else if is_name_char(c[k]) {
        name_end(c, k + 1)
    } else {
        k
    }
}

/// Where the signature that goes on from `k` gives way to the body: the
/// first `{` outside parentheses and angle brackets, or, once a `)` closes
/// the parameters, the first `{` after it; the length of the text where
/// there is none. `in_params` says whether a `(` was seen; `opened` and
/// `closed` count the `<` and `>` seen outside parentheses.
pub open spec fn signature_end(c: Seq<char>, k: int, in_params: bool, opened: nat, closed: nat) -> int
    decreases c.len() - k,
{
    if k < 0 || k >= c.len() {
        c.len() as int
    } else if c[k] == '(' {
        signature_end(c, k + 1, true, opened, closed)
    } else if c[k] == ')' {
        match first_index_of(c, '{', k + 1) {
            Some(j) => j,
            None => c.len() as int,
        }
    } else if c[k] == '<' && !in_params {
        signature_end(c, k + 1, in_params, opened + 1, closed)
    } else if c[k] == '>' && !in_params {
        signature_end(c, k + 1, in_params, opened, closed + 1)
    } else if c[k] == '{' && !in_params && opened == closed {
        k
    } else {
        signature_end(c, k + 1, in_params, opened, closed)
    }
}

/// The scan for the `}` that closes the braces counted so far: the position
/// after it, with a count of zero, or the end of the text with the braces
/// still open.
pub open spec fn closing_brace(c: Seq<char>, k: int, count: int) -> (int, int)
    decreases c.len() - k,
{
    if k < 0 || k >= c.len() {
        (k, count)
    } else if c[k] == '{' {
        closing_brace(c, k + 1, count + 1)
    } else if c[k] == '}' {
        if count - 1 == 0 {
            (k + 1, 0)
        } else {
            closing_brace(c, k + 1, count - 1)
        }
    } else {
        closing_brace(c, k + 1, count)
    }
}

/// Whether the keyword `fn ` stands at `i`.
pub open spec fn fn_keyword_at(c: Seq<char>, i: int) -> bool {
    i + 3 <= c.len() && c[i] == 'f' && c[i + 1] == 'n' && c[i + 2] == ' '
}

/// The functions of a source text from position `i` on, as pairs of a name
/// and the text from `fn` to the closing `}`. Where a `fn ` is followed by a
/// name and a body, the function is taken and the scan goes on after it;
/// where its braces never close, the scan ends.
pub open spec fn scan_functions(c: Seq<char>, i: int) -> Seq<(Seq<char>, Seq<char>)>
    decreases c.len() - i,
{
    if i < 0 || i >= c.len() {
        Seq::empty()
    } else if !fn_keyword_at(c, i) {
        scan_functions(c, i + 1)
    } else {
        let ns = first_non_ws(c, i + 3);
        let ne = name_end(c, ns);
        if ns >= ne {
            scan_functions(c, i + 1)
        } else {
            let bs = signature_end(c, ne, false, 0, 0);
            if bs < 0 || bs >= c.len() || c[bs] != '{' {
                scan_functions(c, i + 1)
            } else {
                let (be, count) = closing_brace(c, bs, 0);
                let rest = if i < be <= c.len() {
                    scan_functions(c, be)
                } else {
                    Seq::empty()
                };
                if count == 0 && be > bs {
                    seq![(c.subrange(ns, ne), c.subrange(i, be))] + rest
                } else {
                    rest
                }
            }
        }
    }
}

/// The text of the two strings of each pair.
pub open spec fn pairs_view(v: Seq<(String, String)>) -> Seq<(Seq<char>, Seq<char>)> {
    v.map_values(|p: (String, String)| (p.0@, p.1@))
}

/// Finds the end of the name that starts at `k`.
fn find_name_end(c: &Vec<char>, k: usize) -> (r: usize)
    requires
        k <= c@.len(),
    ensures
        r == name_end(c@, k as int),
        k <= r <= c@.len(),
{
    let n = c.len();
    let mut j = k;
    while j < n && (is_alphanumeric(c[j]) || c[j] == '_')
        invariant
            n == c@.len(),
            k <= j <= n,
            name_end(c@, k as int) == name_end(c@, j as int),
        decreases n - j,
    {
        j = j + 1;
    }
    j
}

/// Finds where the signature that goes on from `k` gives way to the body.
fn find_signature_end(c: &Vec<char>, k: usize) -> (r: usize)
    requires
        k <= c@.len(),
    ensures
        r == signature_end(c@, k as int, false, 0, 0),
        k <= r <= c@.len(),
{
    let n = c.len();
    let mut pos = k;
    let mut in_params = false;
    let mut opened: usize = 0;
    let mut closed: usize = 0;
    while pos < n
        invariant
            n == c@.len(),
            k <= pos <= n,
            opened <= pos - k,
            closed <= pos - k,
            signature_end(c@, k as int, false, 0, 0) == signature_end(
                c@,
                pos as int,
                in_params,
                opened as nat,
                closed as nat,
            ),
        decreases n - pos,
    {
        let ch = c[pos];
        if ch == '(' {
            in_params = true;
        } else if ch == ')' {
            proof {
                lemma_first_index_in_range(c@, '{', pos + 1);
            }
            return match find_char(c, '{', pos + 1) {
                Some(j) => j,
                None => n,
            };
        } else if ch == '<' && !in_params {
            opened = opened + 1;
        } else if ch == '>' && !in_params {
            closed = closed + 1;
        } else if ch == '{' && !in_params && opened == closed {
            return pos;
        }
        pos = pos + 1;
    }
    n
}

/// Finds the position after the `}` that closes the `{` at `bs`, with the
/// count of braces left open.
fn find_closing_brace(c: &Vec<char>, bs: usize) -> (r: (usize, usize))
    requires
        bs < c@.len(),
        c@[bs as int] == '{',
    ensures
        closing_brace(c@, bs as int, 0) == (r.0 as int, r.1 as int),
        bs < r.0 <= c@.len(),
{
    let n = c.len();
    let mut count: usize = 0;
    let mut pos = bs;
    while pos < n
        invariant
            n == c@.len(),
            bs <= pos <= n,
            c@[bs as int] == '{',
            pos == bs ==> count == 0,
            pos > bs ==> 1 <= count <= pos - bs,
            closing_brace(c@, bs as int, 0) == closing_brace(c@, pos as int, count as int),
        decreases n - pos,
    {
        if c[pos] == '{' {
            count = count + 1;
        } else if c[pos] == '}' {
            if count - 1 == 0 {
                return (pos + 1, 0);
            }
            count = count - 1;
        }
        pos = pos + 1;
    }
    (pos, count)
}

/// The functions of a Rust source text, each as its name and its text from
/// `fn` to the closing `}`, in the order in which they stand.
pub fn extract_functions(content: &str) -> (r: Vec<(String, String)>)
    ensures
        pairs_view(r@) == scan_functions(content@, 0),
{
    let chars = to_chars(content);
    let n = chars.len();
    let mut functions: Vec<(String, String)> = Vec::new();
    let mut i: usize = 0;
    while i < n
        invariant
            n == chars@.len(),
            chars@ == content@,
            i <= n,
            pairs_view(functions@) + scan_functions(chars@, i as int) == scan_functions(
                chars@,
                0,
            ),
        decreases n - i,
    {
        let ghost before = functions@;
        if n - i >= 3 && chars[i] == 'f' && chars[i + 1] == 'n' && chars[i + 2] == ' ' {
            let name_start = skip_white_space(&chars, i + 3);
            let name_stop = find_name_end(&chars, name_start);
            if name_start >= name_stop {
                i = i + 1;
            } else {
                let brace_start = find_signature_end(&chars, name_stop);
                if brace_start >= n || chars[brace_start] != '{' {
                    i = i + 1;
                } else {
                    let (brace_end, count) = find_closing_brace(&chars, brace_start);
                    if count == 0 && brace_end > brace_start {
                        let name = string_from_chars(&chars, name_start, name_stop);
                        let code = string_from_chars(&chars, i, brace_end);
                        functions.push((name, code));
                        proof {
                            assert(pairs_view(functions@) =~= pairs_view(before).push(
                                (chars@.subrange(name_start as int, name_stop as int), chars@.subrange(
                                    i as int,
                                    brace_end as int,
                                )),
                            ));
                            assert(pairs_view(functions@) + scan_functions(chars@, brace_end as int)
                                =~= pairs_view(before) + scan_functions(chars@, i as int));
                        }
                    }
                    i = brace_end;
                }
            }
        } else {
            i = i + 1;
        }
    }
    functions
}

} // verus!

verus! {

/// The percentage lies between 0 and 100, is 0 only for a complexity of 0,
/// reaches 100 exactly from a complexity of 15 on, and never falls as the
/// complexity grows.
pub proof fn law_percentage_scale(a: nat, b: nat)
    ensures
        spec_percentage(a) <= 100,
        spec_percentage(a) == 0 <==> a == 0,
        spec_percentage(a) == 100 <==> a >= 15,
        a <= b ==> spec_percentage(a) <= spec_percentage(b),
{
}

/// A line with nothing but white space and a comment adds nothing.
pub proof fn law_comment_lines_add_nothing(line: Seq<char>)
    requires
        spec_trim(strip_comment(line)).len() == 0,
    ensures
        line_complexity(line) == 0,
{
}

/// The complexity of a body is the sum of what its lines add.
pub proof fn law_complexity_adds_up(lines: Seq<Seq<char>>, more: Seq<Seq<char>>)
    ensures
        sum_complexity(lines + more) == sum_complexity(lines) + sum_complexity(more),
    decreases lines.len(),
{
    if lines.len() > 0 {
        assert((lines + more).drop_first() =~= lines.drop_first() + more);
        law_complexity_adds_up(lines.drop_first(), more);
    } else {
        assert(lines + more =~= more);
    }
}

/// Where `pat` does not stand in `s` from `k` on, it stands at no position
/// there.
proof fn lemma_no_occurrence(s: Seq<char>, pat: Seq<char>, k: int, j: int)
    requires
        0 <= k <= j,
        first_occurrence(s, pat, k) is None,
    ensures
        !literal_at(s, j, pat),
    decreases j - k,
{
    if j > k && k + pat.len() <= s.len() && k < s.len() {
        lemma_no_occurrence(s, pat, k + 1, j);
    }
}

/// In a line followed by `//` and a comment, the first `//` is the one that
/// follows the line, when the line holds none and does not end with `/`.
proof fn lemma_comment_found(line: Seq<char>, comment: Seq<char>, k: int)
    requires
        0 <= k <= line.len(),
        first_occurrence(line, "//"@, 0) is None,
        line.len() == 0 || line.last() != '/',
    ensures
        first_occurrence(line + "//"@ + comment, "//"@, k) == Some(line.len() as int),
    decreases line.len() - k,
{
    let full = line + "//"@ + comment;
    reveal_strlit("//");
    if k == line.len() {
        assert(full.subrange(k, k + 2) =~= "//"@);
    } else {
        lemma_comment_found(line, comment, k + 1);
        if k + 1 < line.len() {
            lemma_no_occurrence(line, "//"@, 0, k);
            assert(full.subrange(k, k + 2) =~= line.subrange(k, k + 2));
        } else {
            assert(full.subrange(k, k + 2)[0] == line.last());
        }
    }
}

/// Text after the first character that is not white space does not move it.
proof fn lemma_first_non_ws_extend(s: Seq<char>, more: Seq<char>, i: int)
    requires
        0 <= i <= s.len(),
        first_non_ws(s, i) < s.len(),
    ensures
        first_non_ws(s + more, i) == first_non_ws(s, i),
    decreases s.len() - i,
{
    if i < s.len() && is_white_space(s[i]) {
        lemma_first_non_ws_extend(s, more, i + 1);
    }
}

/// A comment at the end of a line adds nothing: the line with `//` and any
/// text after it counts as the line alone, when the line holds no `//` and
/// does not end with `/`.
pub proof fn law_trailing_comment_ignored(line: Seq<char>, comment: Seq<char>)
    requires
        first_occurrence(line, "//"@, 0) is None,
        line.len() == 0 || line.last() != '/',
    ensures
        line_complexity(line + "//"@ + comment) == line_complexity(line),
{
    let full = line + "//"@ + comment;
    lemma_comment_found(line, comment, 0);
    assert(strip_comment(full) =~= line);
    assert(strip_comment(line) == line);
    let clean = spec_trim(line);
    if clean.len() > 0 {
        lemma_trimmed_end_range(line, line.len() as int);
        lemma_first_non_ws_range(line, 0);
        let k = first_non_ws(line, 0);
        assert(k < line.len());
        assert(full =~= line + ("//"@ + comment));
        lemma_first_non_ws_extend(line, "//"@ + comment, 0);
        assert(full.take(k) =~= line.take(k));
    }
}

/// Whether a text has the shape of a function: it begins with `fn ` and ends
/// with `}`.
pub open spec fn is_function_text(code: Seq<char>) -> bool {
    &&& code.len() >= 4
    &&& code[0] == 'f' && code[1] == 'n' && code[2] == ' '
    &&& code.last() == '}'
}

/// The end of a name lies at or after its start.
proof fn lemma_name_end_range(c: Seq<char>, k: int)
    requires
        0 <= k <= c.len(),
    ensures
        k <= name_end(c, k) <= c.len(),
    decreases c.len() - k,
{
    if k < c.len() && is_name_char(c[k]) {
        lemma_name_end_range(c, k + 1);
    }
}

/// The end of a signature lies at or after where the scan starts.
proof fn lemma_signature_end_range(c: Seq<char>, k: int, in_params: bool, opened: nat, closed: nat)
    requires
        0 <= k <= c.len(),
    ensures
        k <= signature_end(c, k, in_params, opened, closed) <= c.len(),
    decreases c.len() - k,
{
    if k < c.len() {
        if c[k] == ')' {
            lemma_first_index_in_range(c, '{', k + 1);
        } else if c[k] == '(' {
            lemma_signature_end_range(c, k + 1, true, opened, closed);
        } else if c[k] == '<' && !in_params {
            lemma_signature_end_range(c, k + 1, in_params, opened + 1, closed);
        } else if c[k] == '>' && !in_params {
            lemma_signature_end_range(c, k + 1, in_params, opened, closed + 1);
        } else if !(c[k] == '{' && !in_params && opened == closed) {
            lemma_signature_end_range(c, k + 1, in_params, opened, closed);
        }
    }
}

/// When the braces close, the scan ends just after a `}`.
proof fn lemma_closing_brace_end(c: Seq<char>, k: int, count: int)
    requires
        0 <= k,
        count >= 1,
    ensures
        closing_brace(c, k, count).1 == 0 ==> ({
            let e = closing_brace(c, k, count).0;
            k < e <= c.len() && c[e - 1] == '}'
        }),
    decreases c.len() - k,
{
    if k < c.len() {
        if c[k] == '{' {
            lemma_closing_brace_end(c, k + 1, count + 1);
        } else if c[k] == '}' {
            if count - 1 != 0 {
                lemma_closing_brace_end(c, k + 1, count - 1);
            }
        } else {
            lemma_closing_brace_end(c, k + 1, count);
        }
    }
}

/// Every function found has a name and a text that begins with `fn ` and
/// ends with the `}` that closes its body.
pub proof fn law_functions_are_whole(c: Seq<char>, i: int)
    requires
        0 <= i,
    ensures
        forall|j: int|
            0 <= j < scan_functions(c, i).len() ==> {
                let (name, code) = #[trigger] scan_functions(c, i)[j];
                name.len() > 0 && is_function_text(code)
            },
    decreases c.len() - i,
{
    let r = scan_functions(c, i);
    if i < c.len() {
        let ns = first_non_ws(c, i + 3);
        let ne = name_end(c, ns);
        let bs = signature_end(c, ne, false, 0, 0);
        if !fn_keyword_at(c, i) || ns >= ne || bs < 0 || bs >= c.len() || c[bs] != '{' {
            law_functions_are_whole(c, i + 1);
            assert(r == scan_functions(c, i + 1));
        } else {
            lemma_first_non_ws_range(c, i + 3);
            lemma_name_end_range(c, ns);
            lemma_signature_end_range(c, ne, false, 0, 0);
            let (be, count) = closing_brace(c, bs, 0);
            assert(closing_brace(c, bs, 0) == closing_brace(c, bs + 1, 1));
            lemma_closing_brace_end(c, bs + 1, 1);
            let rest = if i < be <= c.len() {
                law_functions_are_whole(c, be);
                scan_functions(c, be)
            } else {
                Seq::empty()
            };
            if count == 0 && be > bs {
                let code = c.subrange(i, be);
                assert(is_function_text(code));
                assert(r == seq![(c.subrange(ns, ne), code)] + rest);
                assert forall|j: int| 0 <= j < r.len() implies {
                    let (name, code) = #[trigger] r[j];
                    name.len() > 0 && is_function_text(code)
                } by {
                    if j > 0 {
                        assert(r[j] == rest[j - 1]);
                    }
                }
            } else {
                assert(r == rest);
            }
        }
    }
}

/// Where `pat` does not stand in `s` from `i` on, it counts no occurrence
/// there.
proof fn lemma_no_occurrence_counts_none(s: Seq<char>, pat: Seq<char>, i: int)
    requires
        0 <= i,
        first_occurrence(s, pat, i) is None,
    ensures
        count_matches(s, pat, i) == 0,
    decreases s.len() - i,
{
    if pat.len() > 0 && i + pat.len() <= s.len() {
        assert(!literal_at(s, i, pat));
        if i < s.len() {
            lemma_no_occurrence_counts_none(s, pat, i + 1);
        }
    }
}

/// A text that holds `longer` holds every beginning `shorter` of it.
proof fn lemma_contains_beginning(s: Seq<char>, shorter: Seq<char>, longer: Seq<char>)
    requires
        shorter.len() <= longer.len(),
        longer.take(shorter.len() as int) == shorter,
        contains_text(s, longer),
    ensures
        contains_text(s, shorter),
{
    lemma_first_occurrence_range(s, longer, 0);
    let k = first_occurrence(s, longer, 0)->0;
    lemma_first_occurrence_found(s, longer, 0);
    assert(s.subrange(k, k + shorter.len()) =~= longer.take(shorter.len() as int));
    if first_occurrence(s, shorter, 0) is None {
        lemma_no_occurrence(s, shorter, 0, k);
    }
}

/// A first occurrence is an occurrence.
proof fn lemma_first_occurrence_found(s: Seq<char>, pat: Seq<char>, i: int)
    requires
        0 <= i,
    ensures
        first_occurrence(s, pat, i) matches Some(k) ==> literal_at(s, k, pat),
    decreases s.len() - i,
{
    if i + pat.len() <= s.len() && !literal_at(s, i, pat) && i < s.len() {
        lemma_first_occurrence_found(s, pat, i + 1);
    }
}

/// A loop line counts like the other loops: a line whose code (before any
/// `//` comment) holds `for `, `while ` or `loop `, and holds no `if`,
/// `else`, `match `, `&&` or `||`, adds exactly its increment, which is at
/// least one.
pub proof fn law_loop_line_adds_its_increment(line: Seq<char>)
    requires
        contains_text(spec_trim(strip_comment(line)), "for "@) || contains_text(
            spec_trim(strip_comment(line)),
            "while "@,
        ) || contains_text(spec_trim(strip_comment(line)), "loop "@),
        !contains_text(spec_trim(strip_comment(line)), "if"@),
        !contains_text(spec_trim(strip_comment(line)), "else"@),
        !contains_text(spec_trim(strip_comment(line)), "match "@),
        !contains_text(spec_trim(strip_comment(line)), "&&"@),
        !contains_text(spec_trim(strip_comment(line)), "||"@),
    ensures
        line_complexity(line) == base_increment(line),
        base_increment(line) >= 1,
{
    let clean = spec_trim(strip_comment(line));
    reveal_strlit("if");
    reveal_strlit("if let");
    reveal_strlit("if ");
    reveal_strlit("else");
    reveal_strlit("else if");
    reveal_strlit("for ");
    reveal_strlit("while ");
    reveal_strlit("loop ");
    if contains_text(clean, "if let"@) {
        assert("if let"@.take(2) =~= "if"@);
        lemma_contains_beginning(clean, "if"@, "if let"@);
    }
    if contains_text(clean, "else if"@) {
        assert("else if"@.take(4) =~= "else"@);
        lemma_contains_beginning(clean, "else"@, "else if"@);
    }
    if contains_text(clean, "if "@) {
        assert("if "@.take(2) =~= "if"@);
        lemma_contains_beginning(clean, "if"@, "if "@);
    }
    lemma_first_occurrence_range(clean, "for "@, 0);
    lemma_first_occurrence_range(clean, "while "@, 0);
    lemma_first_occurrence_range(clean, "loop "@, 0);
    assert(clean.len() > 0);
    lemma_no_occurrence_counts_none(clean, "&&"@, 0);
    lemma_no_occurrence_counts_none(clean, "||"@, 0);
}

} // verus!
