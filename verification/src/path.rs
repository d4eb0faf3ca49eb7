//! Classification of a track by the folders that enclose it in the KML tree.
use vstd::prelude::*;
use vstd::utf8::encode_utf8;

verus! {

/// The text of each string of a sequence.
pub open spec fn views(s: Seq<String>) -> Seq<Seq<char>> {
    s.map_values(|x: String| x@)
}

/// The folder names that carry meaning: every name but the root name.
pub open spec fn spec_meaningful(path: Seq<Seq<char>>, root_name: Seq<char>) -> Seq<Seq<char>> {
    path.filter(differs_from(root_name))
}

/// The test that a folder name is not the root name.
pub open spec fn differs_from(root_name: Seq<char>) -> spec_fn(Seq<char>) -> bool {
    |name: Seq<char>| name != root_name
}

/// Whether a folder name has the shape of a month label: it holds a `-`
/// and its UTF-8 encoding is seven bytes long (`YYYY-MM`).
pub open spec fn spec_is_month_format(s: Seq<char>) -> bool {
    s.contains('-') && byte_len(s) == 7
}

/// The length in bytes of the UTF-8 encoding of a text, as `str::len` reports it.
pub open spec fn byte_len(s: Seq<char>) -> usize {
    encode_utf8(s).len() as usize
}

/// The four labels `(category, activity, year, month)` of a meaningful path,
/// read from its last four elements.
pub open spec fn spec_categorize(p: Seq<Seq<char>>) -> (Seq<char>, Seq<char>, Seq<char>, Seq<char>) {
    let e = Seq::<char>::empty();
    let n = p.len();
    if n == 0 {
        (e, e, e, e)
    } else if n == 1 {
        if spec_is_month_format(p[0]) {
            (e, e, e, p[0])
        } else {
            (e, e, p[0], e)
        }
    } else if n == 2 {
        (e, e, p[0], p[1])
    } else if n == 3 {
        (e, p[0], p[1], p[2])
    } else {
        (p[n - 4], p[n - 3], p[n - 2], p[n - 1])
    }
}

/// The labels that `extract_categories` gives a folder path.
pub open spec fn spec_extract_categories(path: Seq<Seq<char>>, root_name: Seq<char>) -> (
    Seq<char>,
    Seq<char>,
    Seq<char>,
    Seq<char>,
) {
    spec_categorize(spec_meaningful(path, root_name))
}

/// The text of the four strings of a tuple.
pub open spec fn tuple_view(t: (String, String, String, String)) -> (
    Seq<char>,
    Seq<char>,
    Seq<char>,
    Seq<char>,
) {
    (t.0@, t.1@, t.2@, t.3@)
}

/// Extracts `(category, activity, year, month)` from the folder path of a track.
///
/// Folders named `root_name` (the name of the KML/KMZ file without its
/// extension) are dropped first; the labels are then read from the depth of
/// what is left.
pub fn extract_categories(folder_path: &[String], root_name: &str) -> (r: (
    String,
    String,
    String,
    String,
))
    ensures
        tuple_view(r) == spec_extract_categories(views(folder_path@), root_name@),
{
    let meaningful_path = filter_meaningful_path(folder_path, root_name);
    categorize_by_depth(&meaningful_path)
}

/// Keeps the folder names that differ from the root name, in order.
fn filter_meaningful_path(folder_path: &[String], root_name: &str) -> (r: Vec<String>)
    ensures
        views(r@) == spec_meaningful(views(folder_path@), root_name@),
{
    let ghost src = views(folder_path@);
    let mut out: Vec<String> = Vec::new();
    let n = folder_path.len();
    let mut i: usize = 0;
    while i < n
        invariant
            n == folder_path@.len(),
            src == views(folder_path@),
            i <= n,
            views(out@) == spec_meaningful(src.take(i as int), root_name@),
        decreases n - i,
    {
        proof {
            reveal(Seq::filter);
            assert(src.take(i + 1).drop_last() =~= src.take(i as int));
            assert(src.take(i + 1).last() == folder_path@[i as int]@);
        }
        let name = &folder_path[i];
        let same = str_equal(name.as_str(), root_name);
        proof {
            assert(src[i as int] == folder_path@[i as int]@);
            assert(src.take(i + 1).last() == src[i as int]);
        }
        if !same {
            let c = name.clone();
            let ghost before = out@;
            out.push(c);
            proof {
                assert(views(out@) =~= views(before).push(name@));
            }
        }
        i = i + 1;
    }
    proof {
        assert(src.take(n as int) =~= src);
    }
    out
}

/// Compares two strings character by character.
pub fn str_equal(a: &str, b: &str) -> (r: bool)
    ensures
        r == (a@ == b@),
{
    let n = a.unicode_len();
    let m = b.unicode_len();
    if n != m {
        return false;
    }
    let mut i: usize = 0;
    while i < n
        invariant
            n == a@.len(),
            m == b@.len(),
            n == m,
            i <= n,
            forall|j: int| 0 <= j < i ==> a@[j] == b@[j],
        decreases n - i,
    {
        if a.get_char(i) != b.get_char(i) {
            return false;
        }
        i = i + 1;
    }
    assert(a@ =~= b@);
    true
}

/// Chooses the labels from the number of meaningful folders.
fn categorize_by_depth(meaningful_path: &Vec<String>) -> (r: (String, String, String, String))
    ensures
        tuple_view(r) == spec_categorize(views(meaningful_path@)),
{
    let len = meaningful_path.len();
    if len == 0 {
        empty_tuple()
    } else if len == 1 {
        classify_single_element(meaningful_path[0].as_str())
    } else if len == 2 {
        create_category_tuple(None, None, Some(0), Some(1), meaningful_path)
    } else if len == 3 {
        create_category_tuple(None, Some(0), Some(1), Some(2), meaningful_path)
    } else {
        create_category_tuple(
            Some(len - 4),
            Some(len - 3),
            Some(len - 2),
            Some(len - 1),
            meaningful_path,
        )
    }
}

/// The text at an optional index of a path: empty where there is no index.
pub open spec fn label_at(path: Seq<Seq<char>>, idx: Option<usize>) -> Seq<char> {
    match idx {
        Some(i) => path[i as int],
        None => Seq::<char>::empty(),
    }
}

/// The string at an optional index, or the empty string.
fn label_from(idx: Option<usize>, path: &Vec<String>) -> (r: String)
    requires
        idx matches Some(i) ==> i < path@.len(),
    ensures
        r@ == label_at(views(path@), idx),
{
    match idx {
        Some(i) => path[i].clone(),
        None => String::new(),
    }
}

/// Builds the label tuple from four optional indices into the path.
fn create_category_tuple(
    cat_idx: Option<usize>,
    act_idx: Option<usize>,
    year_idx: Option<usize>,
    month_idx: Option<usize>,
    path: &Vec<String>,
) -> (r: (String, String, String, String))
    requires
        cat_idx matches Some(i) ==> i < path@.len(),
        act_idx matches Some(i) ==> i < path@.len(),
        year_idx matches Some(i) ==> i < path@.len(),
        month_idx matches Some(i) ==> i < path@.len(),
    ensures
        tuple_view(r) == (
            label_at(views(path@), cat_idx),
            label_at(views(path@), act_idx),
            label_at(views(path@), year_idx),
            label_at(views(path@), month_idx),
        ),
{
    (
        label_from(cat_idx, path),
        label_from(act_idx, path),
        label_from(year_idx, path),
        label_from(month_idx, path),
    )
}

/// Four empty labels.
fn empty_tuple() -> (r: (String, String, String, String))
    ensures
        tuple_view(r) == (
            Seq::<char>::empty(),
            Seq::<char>::empty(),
            Seq::<char>::empty(),
            Seq::<char>::empty(),
        ),
{
    (String::new(), String::new(), String::new(), String::new())
}

/// Whether a folder name looks like a month (`YYYY-MM`): it holds a `-` and is
/// seven bytes long.
fn is_month_format(s: &str) -> (r: bool)
    ensures
        r == spec_is_month_format(s@),
{
    let n = s.unicode_len();
    let mut found = false;
    let mut i: usize = 0;
    while i < n
        invariant
            n == s@.len(),
            i <= n,
            found == (exists|j: int| 0 <= j < i && s@[j] == '-'),
        decreases n - i,
    {
        if s.get_char(i) == '-' {
            found = true;
        }
        i = i + 1;
    }
    assert(found == s@.contains('-'));
    found && s.len() == 7
}

/// Labels a lone meaningful folder as a month or as a year.
fn classify_single_element(elem: &str) -> (r: (String, String, String, String))
    ensures
        tuple_view(r) == (if spec_is_month_format(elem@) {
            (Seq::<char>::empty(), Seq::<char>::empty(), Seq::<char>::empty(), elem@)
        } else {
            (Seq::<char>::empty(), Seq::<char>::empty(), elem@, Seq::<char>::empty())
        }),
{
    if is_month_format(elem) {
        (String::new(), String::new(), String::new(), elem.to_string())
    } else {
        (String::new(), String::new(), elem.to_string(), String::new())
    }
}

} // verus!

verus! {

/// Folders named like the root anywhere in the path change nothing: the
/// labels of a path with one more such folder are the same.
pub proof fn law_root_folders_ignored(path: Seq<Seq<char>>, root_name: Seq<char>, k: int)
    requires
        0 <= k <= path.len(),
    ensures
        spec_extract_categories(path.insert(k, root_name), root_name) == spec_extract_categories(
            path,
            root_name,
        ),
{
    let pred = differs_from(root_name);
    let a = path.take(k);
    let b = path.skip(k);
    assert(path.insert(k, root_name) =~= a + (seq![root_name] + b));
    assert(path =~= a + b);
    Seq::filter_distributes_over_add(a, seq![root_name] + b, pred);
    Seq::filter_distributes_over_add(seq![root_name], b, pred);
    Seq::filter_distributes_over_add(a, b, pred);
    reveal_with_fuel(Seq::filter, 2);
    assert(seq![root_name].drop_last() =~= Seq::<Seq<char>>::empty());
    assert(seq![root_name].filter(pred) =~= Seq::<Seq<char>>::empty());
    assert(spec_meaningful(path.insert(k, root_name), root_name) =~= spec_meaningful(path, root_name));
}

/// Each label is empty or the name of one of the folders of the path, and
/// never the root name.
pub proof fn law_labels_from_path(path: Seq<Seq<char>>, root_name: Seq<char>)
    ensures
        ({
            let (c, a, y, m) = spec_extract_categories(path, root_name);
            &&& (c.len() == 0 || (path.contains(c) && c != root_name))
            &&& (a.len() == 0 || (path.contains(a) && a != root_name))
            &&& (y.len() == 0 || (path.contains(y) && y != root_name))
            &&& (m.len() == 0 || (path.contains(m) && m != root_name))
        }),
{
    let pred = differs_from(root_name);
    let p = spec_meaningful(path, root_name);
    assert forall|i: int| 0 <= i < p.len() implies path.contains(#[trigger] p[i]) && p[i] != root_name by {
        path.lemma_filter_pred(pred, i);
        path.lemma_filter_contains_rev(pred, p[i]);
        assert(p.contains(p[i]));
    }
}

} // verus!
