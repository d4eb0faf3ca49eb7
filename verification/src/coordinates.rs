//! The coordinates of a track, as the `<coordinates>` element lists them.
use vstd::prelude::*;
use crate::text::{has_literal_at, is_white_space, string_from_chars, to_chars, white_space};

verus! {

/// ASCII letters in lower case; other characters unchanged.
pub open spec fn ascii_lower(c: char) -> char {
    if 'A' <= c <= 'Z' {
        ((c as u8) + 32) as char
    } else {
        c
    }
}

/// Whether a character is an ASCII digit.
pub open spec fn is_digit(c: char) -> bool {
    '0' <= c <= '9'
}

/// `Number ::= ( Digit+ | Digit+ '.' Digit* | Digit* '.' Digit+ )`: digits
/// and at most one `.`, with at least one digit.
pub open spec fn is_mantissa(m: Seq<char>) -> bool {
    &&& forall|i: int| 0 <= i < m.len() ==> is_digit(#[trigger] m[i]) || m[i] == '.'
    &&& forall|i: int, j: int|
        #![trigger m[i], m[j]]
        0 <= i < j < m.len() ==> !(m[i] == '.' && m[j] == '.')
    &&& exists|i: int| 0 <= i < m.len() && is_digit(#[trigger] m[i])
}

/// `Exp ::= 'e' Sign? Digit+` without its `e`.
pub open spec fn is_exponent(x: Seq<char>) -> bool {
    let d = unsigned_part(x);
    d.len() > 0 && forall|i: int| 0 <= i < d.len() ==> is_digit(#[trigger] unsigned_part(x)[i])
}

/// `Number Exp?`, split at its first `e`.
pub open spec fn is_number(b: Seq<char>) -> bool {
    match first_index_of(b, 'e', 0) {
        None => is_mantissa(b),
        Some(k) => is_mantissa(b.take(k)) && is_exponent(b.skip(k + 1)),
    }
}

/// The text in lower case, for ASCII letters.
pub open spec fn lower_text(s: Seq<char>) -> Seq<char> {
    s.map_values(|c: char| ascii_lower(c))
}

/// The text without a leading sign.
pub open spec fn unsigned_part(t: Seq<char>) -> Seq<char> {
    if t.len() > 0 && (t[0] == '+' || t[0] == '-') {
        t.skip(1)
    } else {
        t
    }
}

/// The texts that `f64::from_str` accepts, by the grammar that its
/// documentation gives for the text in lower case:
/// `Float ::= Sign? ( 'inf' | 'infinity' | 'nan' | Number )`.
pub open spec fn is_float_literal(s: Seq<char>) -> bool {
    let b = unsigned_part(lower_text(s));
    b == "inf"@ || b == "infinity"@ || b == "nan"@ || is_number(b)
}

/// Tests a text against the grammar of `is_mantissa`, in `s[from..to]`.
fn mantissa_ok(s: &Vec<char>, from: usize, to: usize) -> (r: bool)
    requires
        from <= to <= s@.len(),
    ensures
        r == is_mantissa(s@.subrange(from as int, to as int)),
{
    let ghost m = s@.subrange(from as int, to as int);
    let mut seen_dot = false;
    let mut seen_digit = false;
    let mut i = from;
    while i < to
        invariant
            from <= i <= to <= s@.len(),
            m == s@.subrange(from as int, to as int),
            forall|k: int| 0 <= k < i - from ==> is_digit(#[trigger] m[k]) || m[k] == '.',
            seen_dot == (exists|k: int| 0 <= k < i - from && #[trigger] m[k] == '.'),
            forall|a: int, b: int|
                #![trigger m[a], m[b]]
                0 <= a < b < i - from ==> !(m[a] == '.' && m[b] == '.'),
            seen_digit == (exists|k: int| 0 <= k < i - from && is_digit(#[trigger] m[k])),
        decreases to - i,
    {
        let c = s[i];
        assert(m[i - from] == c);
        if '0' <= c && c <= '9' {
            seen_digit = true;
        } else if c == '.' {
            if seen_dot {
                let ghost k = choose|k: int| 0 <= k < i - from && #[trigger] m[k] == '.';
                assert(m[k] == '.' && m[i - from] == '.');
                return false;
            }
            seen_dot = true;
        } else {
            return false;
        }
        i = i + 1;
    }
    seen_digit
}

/// Tests `s[from..to]` against the grammar of `is_exponent`.
fn exponent_ok(s: &Vec<char>, from: usize, to: usize) -> (r: bool)
    requires
        from <= to <= s@.len(),
    ensures
        r == is_exponent(s@.subrange(from as int, to as int)),
{
    let ghost x = s@.subrange(from as int, to as int);
    let mut i = from;
    if i < to && (s[i] == '+' || s[i] == '-') {
        i = i + 1;
    }
    let ghost d = s@.subrange(i as int, to as int);
    assert(d =~= unsigned_part(x));
    if i == to {
        return false;
    }
    let start = i;
    while i < to
        invariant
            start <= i <= to <= s@.len(),
            d == s@.subrange(start as int, to as int),
            x == s@.subrange(from as int, to as int),
            from <= start,
            d == unsigned_part(x),
            forall|k: int| 0 <= k < i - start ==> is_digit(#[trigger] d[k]),
        decreases to - i,
    {
        let c = s[i];
        assert(d[i - start] == c);
        if !('0' <= c && c <= '9') {
            assert(!is_digit(d[i - start]));
            return false;
        }
        i = i + 1;
    }
    true
}

/// Lower-cases the ASCII letters of a text.
pub fn lower_chars(s: &Vec<char>) -> (r: Vec<char>)
    ensures
        r@ == lower_text(s@),
{
    let mut r: Vec<char> = Vec::new();
    let n = s.len();
    let mut i: usize = 0;
    while i < n
        invariant
            n == s@.len(),
            i <= n,
            r@ =~= lower_text(s@.take(i as int)),
        decreases n - i,
    {
        let c = s[i];
        let l = if 'A' <= c && c <= 'Z' {
            ((c as u8) + 32) as char
        } else {
            c
        };
        r.push(l);
        i = i + 1;
    }
    assert(s@.take(n as int) =~= s@);
    r
}

/// Tests whether a text reads as an `f64` (`is_float_literal`).
pub fn parses_as_f64(s: &str) -> (r: bool)
    ensures
        r == is_float_literal(s@),
{
    let t = lower_chars(&to_chars(s));
    let n = t.len();
    let from: usize = if n > 0 && (t[0] == '+' || t[0] == '-') { 1 } else { 0 };
    let ghost b = t@.subrange(from as int, n as int);
    assert(b =~= unsigned_part(t@));
    if has_literal_at(&t, from, "inf") && n - from == 3 {
        proof { reveal_strlit("inf"); assert(b =~= "inf"@); }
        return true;
    }
    if has_literal_at(&t, from, "infinity") && n - from == 8 {
        proof { reveal_strlit("infinity"); assert(b =~= "infinity"@); }
        return true;
    }
    if has_literal_at(&t, from, "nan") && n - from == 3 {
        proof { reveal_strlit("nan"); assert(b =~= "nan"@); }
        return true;
    }
    proof {
        reveal_strlit("inf");
        reveal_strlit("infinity");
        reveal_strlit("nan");
        if b == "inf"@ { assert(t@.subrange(from as int, from + 3) =~= "inf"@); }
        if b == "infinity"@ { assert(t@.subrange(from as int, from + 8) =~= "infinity"@); }
        if b == "nan"@ { assert(t@.subrange(from as int, from + 3) =~= "nan"@); }
    }
    let e = find_char(&t, 'e', from);
    proof {
        lemma_first_index_shift(t@, b, 'e', from as int, 0);
    }
    match e {
        None => mantissa_ok(&t, from, n),
        Some(k) => {
            proof {
                assert(b.take(k - from) =~= t@.subrange(from as int, k as int));
                assert(b.skip(k - from + 1) =~= t@.subrange(k + 1, n as int));
            }
            mantissa_ok(&t, from, k) && exponent_ok(&t, k + 1, n)
        },
    }
}

/// The first position at or after `i` that holds `c`.
pub open spec fn first_index_of(s: Seq<char>, c: char, i: int) -> Option<int>
    decreases s.len() - i,
{
    if i < 0 || i >= s.len() {
        None
    } else if s[i] == c {
        Some(i)
    } else {
        first_index_of(s, c, i + 1)
    }
}

/// Finds the first position at or after `i` that holds `c`.
pub fn find_char(s: &Vec<char>, c: char, i: usize) -> (r: Option<usize>)
    ensures
        r matches Some(k) ==> first_index_of(s@, c, i as int) == Some(k as int) && i <= k < s@.len()
            && s@[k as int] == c,
        r is None ==> first_index_of(s@, c, i as int) is None,
{
    let n = s.len();
    let mut k = i;
    while k < n
        invariant
            n == s@.len(),
            i <= k,
            first_index_of(s@, c, i as int) == first_index_of(s@, c, k as int),
        decreases n - k,
    {
        if s[k] == c {
            return Some(k);
        }
        k = k + 1;
    }
    None
}

/// The first two comma-separated fields of a coordinate token, as
/// `split(',')` gives them: the token has at least two fields when it holds a
/// comma.
pub open spec fn coordinate_fields(t: Seq<char>) -> Option<(Seq<char>, Seq<char>)> {
    match first_index_of(t, ',', 0) {
        None => None,
        Some(k) => {
            let rest = t.skip(k + 1);
            let lat = match first_index_of(rest, ',', 0) {
                None => rest,
                Some(j) => rest.take(j),
            };
            Some((t.take(k), lat))
        },
    }
}

/// The `(longitude, latitude)` texts of a token, where both read as numbers.
pub open spec fn spec_coordinate(t: Seq<char>) -> Option<(Seq<char>, Seq<char>)> {
    match coordinate_fields(t) {
        Some((lon, lat)) => if is_float_literal(lon) && is_float_literal(lat) {
            Some((lon, lat))
        } else {
            None
        },
        None => None,
    }
}

/// One step of splitting a text at white space: the finished tokens and the
/// token being read.
pub open spec fn ws_step(acc: (Seq<Seq<char>>, Seq<char>), c: char) -> (Seq<Seq<char>>, Seq<char>) {
    if is_white_space(c) {
        if acc.1.len() > 0 {
            (acc.0.push(acc.1), Seq::empty())
        } else {
            acc
        }
    } else {
        (acc.0, acc.1.push(c))
    }
}

/// Splitting the characters of a text, one at a time.
pub open spec fn ws_fold(s: Seq<char>) -> (Seq<Seq<char>>, Seq<char>)
    decreases s.len(),
{
    if s.len() == 0 {
        (Seq::empty(), Seq::empty())
    } else {
        ws_step(ws_fold(s.drop_last()), s.last())
    }
}

/// The maximal runs of characters that are not white space, in order
/// (`str::split_whitespace`).
pub open spec fn split_whitespace(s: Seq<char>) -> Seq<Seq<char>> {
    let a = ws_fold(s);
    if a.1.len() > 0 {
        a.0.push(a.1)
    } else {
        a.0
    }
}

/// The coordinates that a `<coordinates>` text lists: every token that has a
/// longitude and a latitude that read as numbers, in order; other tokens are
/// skipped.
pub open spec fn spec_coordinates(s: Seq<char>) -> Seq<(Seq<char>, Seq<char>)> {
    split_whitespace(s).filter_map(|t: Seq<char>| spec_coordinate(t))
}

/// The texts of a list of coordinates.
pub open spec fn coordinates_view(v: Seq<(String, String)>) -> Seq<(Seq<char>, Seq<char>)> {
    v.map_values(|p: (String, String)| (p.0@, p.1@))
}

/// Reads the longitude and latitude of one coordinate token
/// (`lon,lat[,alt]`).
pub fn parse_single_coordinate(token: &Vec<char>) -> (r: Option<(String, String)>)
    ensures
        r matches Some(p) ==> spec_coordinate(token@) == Some((p.0@, p.1@)),
        r is None ==> spec_coordinate(token@) is None,
{
    let n = token.len();
    match find_char(token, ',', 0) {
        None => None,
        Some(k) => {
            let lon = string_from_chars(token, 0, k);
            let lat_end = match find_char(token, ',', k + 1) {
                None => n,
                Some(j) => j,
            };
            proof {
                let rest = token@.skip(k + 1);
                lemma_first_index_shift(token@, rest, ',', k + 1, 0);
            }
            let lat = string_from_chars(token, k + 1, lat_end);
            proof {
                let rest = token@.skip(k + 1);
                assert(token@.take(k as int) =~= token@.subrange(0, k as int));
                match first_index_of(rest, ',', 0) {
                    None => {
                        assert(rest =~= token@.subrange(k + 1, lat_end as int));
                    },
                    Some(j) => {
                        assert(rest.take(j) =~= token@.subrange(k + 1, lat_end as int));
                    },
                }
            }
            if parses_as_f64(lon.as_str()) && parses_as_f64(lat.as_str()) {
                Some((lon, lat))
            } else {
                None
            }
        },
    }
}

/// Searching `s` from `base + i` is searching `s.skip(base)` from `i`.
proof fn lemma_first_index_shift(s: Seq<char>, rest: Seq<char>, c: char, base: int, i: int)
    requires
        0 <= base <= s.len(),
        rest == s.skip(base),
        0 <= i,
    ensures
        first_index_of(s, c, base + i) == (match first_index_of(rest, c, i) {
            Some(j) => Some(base + j),
            None => None,
        }),
    decreases s.len() - (base + i),
{
    if base + i < s.len() {
        lemma_first_index_shift(s, rest, c, base, i + 1);
    }
}

/// Reads the coordinates of a `<coordinates>` text: its white-space
/// separated tokens, each kept when it has a longitude and a latitude that
/// read as numbers.
pub fn parse_coordinates(coords_str: &str) -> (r: Vec<(String, String)>)
    ensures
        coordinates_view(r@) == spec_coordinates(coords_str@),
{
    let s = to_chars(coords_str);
    let n = s.len();
    let mut out: Vec<(String, String)> = Vec::new();
    let mut token: Vec<char> = Vec::new();
    let ghost mut done: Seq<Seq<char>> = Seq::empty();
    let mut i: usize = 0;
    while i < n
        invariant
            n == s@.len(),
            s@ == coords_str@,
            i <= n,
            ws_fold(s@.take(i as int)) == (done, token@),
            coordinates_view(out@) == done.filter_map(|t: Seq<char>| spec_coordinate(t)),
        decreases n - i,
    {
        proof {
            assert(s@.take(i + 1).drop_last() =~= s@.take(i as int));
        }
        let c = s[i];
        if white_space(c) {
            if token.len() > 0 {
                let found = parse_single_coordinate(&token);
                proof {
                    assert(done.push(token@).drop_last() =~= done);
                }
                match found {
                    Some(p) => {
                        let ghost before = out@;
                        out.push(p);
                        proof {
                            assert(coordinates_view(out@) =~= coordinates_view(before).push(
                                (p.0@, p.1@),
                            ));
                        }
                    },
                    None => {},
                }
                proof {
                    done = done.push(token@);
                }
                token = Vec::new();
            }
        } else {
            token.push(c);
        }
        i = i + 1;
    }
    proof {
        assert(s@.take(n as int) =~= s@);
    }
    if token.len() > 0 {
        let found = parse_single_coordinate(&token);
        proof {
            assert(done.push(token@).drop_last() =~= done);
        }
        match found {
            Some(p) => {
                let ghost before = out@;
                out.push(p);
                proof {
                    assert(coordinates_view(out@) =~= coordinates_view(before).push((p.0@, p.1@)));
                }
            },
            None => {},
        }
    }
    out
}

} // verus!
