use movement_tracks_analyzer::complexity::{
    analyze_function, complexity_report, extract_function_body, extract_functions, get_label,
    AnalysisResult,
};

const BRANCHES: &str = "fn f(x: i32) -> i32 {
    if x > 0 && x < 10 {
        return 1;
    } else if x < 0 {
        return 2;
    } else {
        return 3;
    }
}";

const LOOPS: &str = "fn g(v: &[i32]) -> i32 {
    let mut t = 0;
    for x in v {
        if *x > 0 || *x < -5 {
            t += 1;
        }
    }
    while t > 100 {
        t -= 1;
    }
    match t {
        0 => 1,
        _ => t,
    }
}";

const QUIET: &str = "fn h() -> Option<i32> {
    let v = read()?; // if x && y
    // if a || b
    let Some(x) = v else { return None };
    if let Some(y) = x.checked_add(1) {
        return Some(y);
    }
    None
}";

#[test]
fn branches_else_and_logic() {
    let r = analyze_function(BRANCHES, "f");
    assert_eq!(r.name, "f");
    assert_eq!(r.cc, 4);
    assert_eq!(r.percentage, 27);
    assert_eq!(r.label, "優秀");
}

#[test]
fn nesting_loops_and_match() {
    let r = analyze_function(LOOPS, "g");
    assert_eq!(r.cc, 6);
    assert_eq!(r.percentage, 40);
    assert_eq!(r.label, "中等");
}

#[test]
fn question_marks_comments_and_let_else_add_nothing() {
    let r = analyze_function(QUIET, "h");
    assert_eq!(r.cc, 1);
    assert_eq!(r.percentage, 7);
}

#[test]
fn crlf_lines_and_wide_indentation() {
    let code = "fn w() {\r\n\u{3000}\u{3000}if a {\r\n    }\r\n}";
    // Two ideographic spaces are six bytes: one level of nesting.
    let r = analyze_function(code, "w");
    assert_eq!(r.cc, 1);
    let deep = "fn d() {\n                if a && b && c {\n                }\n}";
    // Sixteen spaces are four levels: an increment of four, plus two for the `&&`.
    assert_eq!(analyze_function(deep, "d").cc, 6);
}

#[test]
fn overlapping_operators_count_from_the_left() {
    let code = "fn o() {\n    x &&& y ||| z &&&& w\n}";
    assert_eq!(analyze_function(code, "o").cc, 4);
}

#[test]
fn percentage_scale_and_labels() {
    let many_ifs: String = {
        let mut s = String::from("fn m() {\n");
        for _ in 0..15 {
            s.push_str("    if a {\n    }\n");
        }
        s.push('}');
        s
    };
    let r = analyze_function(&many_ifs, "m");
    assert_eq!(r.cc, 15);
    assert_eq!(r.percentage, 100);
    assert_eq!(r.label, "非常複雜");
    let empty = analyze_function("fn e() {\n}", "e");
    assert_eq!((empty.cc, empty.percentage, empty.label.as_str()), (0, 0, "極優"));
    assert_eq!(get_label(0), "極優");
    assert_eq!(get_label(1), "優秀");
    assert_eq!(get_label(30), "優秀");
    assert_eq!(get_label(31), "中等");
    assert_eq!(get_label(70), "中等");
    assert_eq!(get_label(71), "複雜");
    assert_eq!(get_label(90), "複雜");
    assert_eq!(get_label(91), "非常複雜");
    assert_eq!(get_label(100), "非常複雜");
}

#[test]
fn percentages_round_to_the_nearest() {
    for cc in 0..15usize {
        let mut s = String::from("fn p() {\n");
        for _ in 0..cc {
            s.push_str("    a && b\n");
        }
        s.push('}');
        let r = analyze_function(&s, "p");
        assert_eq!(r.cc, cc);
        let expected = ((cc as f32 / 15.0) * 100.0).round() as u32;
        assert_eq!(r.percentage, expected.min(100));
    }
}

#[test]
fn function_bodies() {
    assert_eq!(extract_function_body(BRANCHES).lines().count(), 7);
    assert_eq!(extract_function_body("fn a() {\n    x\n}"), "    x\n");
    assert_eq!(extract_function_body("fn a();"), "fn a();");
    assert_eq!(extract_function_body("fn a() {\n    x"), "    x");
    assert_eq!(extract_function_body("fn f() {}"), "");
    assert_eq!(extract_function_body("fn k() { 1 }"), "");
    assert_eq!(analyze_function("fn k() { if a && b { 1 } else { 2 } }", "k").cc, 0);
}

#[test]
fn functions_of_a_source_text() {
    let src = "use std::fmt;

pub fn alpha(a: u32) -> u32 {
    a + 1
}

fn beta<T: Clone>(x: T) -> Vec<T> where T: Copy {
    vec![x]
}

impl S {
    fn gamma(&self) { if true { } }
}
fn  spaced () {}
fn 計算(x: u8) {
}
fn broken() {
    {
";
    let found = extract_functions(src);
    let names: Vec<&str> = found.iter().map(|(n, _)| n.as_str()).collect();
    assert_eq!(names, vec!["alpha", "beta", "gamma", "spaced", "計算"]);
    assert_eq!(found[0].1, "fn alpha(a: u32) -> u32 {\n    a + 1\n}");
    assert_eq!(found[1].1, "fn beta<T: Clone>(x: T) -> Vec<T> where T: Copy {\n    vec![x]\n}");
    assert_eq!(found[2].1, "fn gamma(&self) { if true { } }");
    assert_eq!(found[3].1, "fn  spaced () {}");
    assert_eq!(found[4].1, "fn 計算(x: u8) {\n}");
}

#[test]
fn a_fn_keyword_without_a_name_or_body_is_passed_over() {
    assert!(extract_functions("fn (x)").is_empty());
    assert!(extract_functions("fn x").is_empty());
    assert!(extract_functions("").is_empty());
    let found = extract_functions("fn a<T>() {}");
    assert_eq!(found.len(), 1);
    assert_eq!(found[0].1, "fn a<T>() {}");
}

#[test]
fn a_trailing_comment_counts_for_nothing() {
    let plain = analyze_function("fn t() {\n    if a && b \n}", "t");
    let commented = analyze_function("fn t() {\n    if a && b // || c && d while x\n}", "t");
    assert_eq!(plain.cc, 2);
    assert_eq!(commented.cc, plain.cc);
}

#[test]
fn the_complexity_of_a_body_is_the_sum_of_its_lines() {
    let a = analyze_function("fn a() {\n    if x {\n    }\n}", "a").cc;
    let b = analyze_function("fn b() {\n    for y in z {\n    }\n}", "b").cc;
    let both = analyze_function("fn c() {\n    if x {\n    }\n    for y in z {\n    }\n}", "c").cc;
    assert_eq!(both, a + b);
}

#[test]
fn the_question_mark_adds_nothing_to_its_line() {
    let r = analyze_function("fn f() -> R {\n    if g()? {\n    }\n}", "f");
    assert_eq!((r.cc, r.percentage), (1, 7));
    let r = analyze_function("fn f() -> R {\n    let x = a()? && b()?;\n}", "f");
    assert_eq!(r.cc, 1);
}

fn result(name: &str, percentage: u32) -> AnalysisResult {
    AnalysisResult { name: name.to_string(), cc: 0, percentage, label: get_label(percentage) }
}

#[test]
fn report_widths_names_and_average() {
    let (w, names, avg, label) = complexity_report(&vec![result("a", 10), result("bb", 21)]);
    assert_eq!((w, avg, label.as_str()), (20, 15, "優秀"));
    assert_eq!(names, vec!["a", "bb"]);

    let long = "x".repeat(40);
    let (w, names, avg, _) = complexity_report(&vec![result(&long, 100)]);
    assert_eq!((w, avg), (42, 100));
    assert_eq!(names[0], long);

    let very_long = "abcdefghij".repeat(8);
    let (w, names, _, label) = complexity_report(&vec![result(&very_long, 80), result("s", 81)]);
    assert_eq!(w, 60);
    assert_eq!(names[0], format!("{}...", &very_long[..55]));
    assert_eq!(names[1], "s");
    assert_eq!(label, "複雜");

    // A name of wide characters is cut at a character boundary.
    let han = "漢".repeat(30);
    let (w, names, _, _) = complexity_report(&vec![result(&han, 0)]);
    assert_eq!(w, 60);
    assert_eq!(names[0], format!("{}...", "漢".repeat(18)));
}
