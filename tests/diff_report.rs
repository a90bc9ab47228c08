use different::align::{align, is_identical, split_lines, DiffLine};
use different::report::{
    color_policy, display_str, header, line_diff, ColorPolicy, Diff, DiffSettings, Side,
};

fn sides(d: &[DiffLine]) -> (Vec<String>, Vec<String>) {
    let mut l = Vec::new();
    let mut r = Vec::new();
    for e in d {
        match e {
            DiffLine::Left(a) => l.push(a.clone()),
            DiffLine::Both(a, b) => {
                l.push(a.clone());
                r.push(b.clone());
            }
            DiffLine::Right(b) => r.push(b.clone()),
        }
    }
    (l, r)
}

#[test]
fn split_lines_drops_final_newline() {
    assert_eq!(split_lines("a\nb\n"), vec!["a".to_string(), "b".to_string()]);
    assert_eq!(split_lines("a\nb"), vec!["a".to_string(), "b".to_string()]);
    assert_eq!(split_lines(""), Vec::<String>::new());
    assert_eq!(split_lines("a\n\n"), vec!["a".to_string(), "".to_string()]);
}

#[test]
fn split_lines_strips_carriage_return() {
    assert_eq!(split_lines("a\r\nb\r\n"), vec!["a".to_string(), "b".to_string()]);
    assert_eq!(split_lines("a\rb\r"), vec!["a\rb\r".to_string()]);
    assert_eq!(split_lines("\r\r\n"), vec!["\r".to_string()]);
}

#[test]
fn align_equal_inputs_pairs_everything() {
    let d = align("x\ny\nz\n", "x\ny\nz\n");
    assert_eq!(d.len(), 3);
    assert!(is_identical(&d));
    let settings = DiffSettings::new();
    let diff = line_diff("x\ny\nz\n", "x\ny\nz\n", &settings);
    assert!(matches!(diff, Diff::Same));
    assert_eq!(diff.render(), "");
    assert_eq!(diff.plain_report(), "");
}

#[test]
fn align_reconstructs_both_sides() {
    let left = "a\nb\nc\nd\n";
    let right = "b\nx\nd\ne\n";
    let d = align(left, right);
    let (l, r) = sides(&d);
    assert_eq!(l, split_lines(left));
    assert_eq!(r, split_lines(right));
    let both = d.iter().filter(|e| matches!(e, DiffLine::Both(_, _))).count();
    assert_eq!(both, 2);
    assert!(!is_identical(&d));
}

#[test]
fn align_empty_against_text() {
    let d = align("", "a\nb\n");
    assert_eq!(d.len(), 2);
    assert!(d.iter().all(|e| matches!(e, DiffLine::Right(_))));
}

#[test]
fn display_str_widths() {
    assert_eq!(display_str(Some(7), None), "7");
    assert_eq!(display_str(None, None), " ");
    assert_eq!(display_str(Some(7), Some(3)), "  7");
    assert_eq!(display_str(None, Some(3)), "   ");
    assert_eq!(display_str(Some(1234), Some(2)), "1234");
    assert_eq!(display_str(Some(0), None), "0");
}

#[test]
fn header_layout() {
    assert_eq!(header(Side::Left, None, '-', 4), "---- left");
    assert_eq!(header(Side::Right, None, '+', 4), "++++ right");
    let l = "one".to_string();
    let r = "two".to_string();
    assert_eq!(header(Side::Left, Some(&l), '-', 4), "---- left:  one");
    assert_eq!(header(Side::Right, Some(&r), '+', 4), "++++ right: two");
    assert_eq!(header(Side::Left, None, '=', 0), " left");
}

#[test]
fn report_of_changed_line() {
    let settings = DiffSettings::new();
    let diff = line_diff("a\nb\n", "a\nc\n", &settings);
    let lines = diff.report_lines();
    assert_eq!(
        lines,
        vec![
            "---- left".to_string(),
            "++++ right".to_string(),
            "  1  1 | a".to_string(),
            "  2    - b".to_string(),
            "     2 + c".to_string(),
        ]
    );
    assert_eq!(diff.plain_report(), "---- left\n++++ right\n  1  1 | a\n  2    - b\n     2 + c\n");
}

#[test]
fn report_with_fixed_width_and_names() {
    let settings = DiffSettings::new()
        .names("x.txt".to_string(), "y.txt".to_string())
        .max_line_number(12);
    let diff = line_diff("a\n", "b\n", &settings);
    let lines = diff.report_lines();
    assert_eq!(lines[0], "---- left:  x.txt");
    assert_eq!(lines[1], "++++ right: y.txt");
    assert_eq!(lines[2], "   1     - a");
    assert_eq!(lines[3], "       1 + b");
}

#[test]
fn numbering_grows_per_side() {
    let settings = DiffSettings::new();
    let diff = line_diff("a\nb\nc\n", "c\nd\n", &settings);
    let lines = diff.report_lines();
    assert_eq!(lines[2], "  1    - a");
    assert_eq!(lines[3], "  2    - b");
    assert_eq!(lines[4], "  3  1 | c");
    assert_eq!(lines[5], "     2 + d");
}

#[test]
fn render_without_color_is_plain() {
    let mut settings = DiffSettings::new();
    settings.no_color = true;
    let diff = line_diff("a\n", "b\n", &settings);
    assert_eq!(diff.render(), diff.plain_report());
}

#[test]
fn render_with_forced_color_styles_lines() {
    let mut settings = DiffSettings::new();
    settings.force_color = true;
    let diff = line_diff("a\n", "b\n", &settings);
    let out = diff.render();
    assert!(out.contains("\u{1b}["));
    assert!(out.contains("---- left"));
    assert_ne!(out, diff.plain_report());
}

#[test]
fn no_color_wins_over_force() {
    let mut settings = DiffSettings::new();
    assert_eq!(color_policy(&settings), ColorPolicy::Auto);
    settings.force_color = true;
    assert_eq!(color_policy(&settings), ColorPolicy::Always);
    settings.no_color = true;
    assert_eq!(color_policy(&settings), ColorPolicy::Never);
}

#[test]
fn settings_defaults() {
    let s = DiffSettings::default();
    assert_eq!(s.left_marker, '-');
    assert_eq!(s.right_marker, '+');
    assert_eq!(s.marker_count, 4);
    assert_eq!(s.indent_spaces, 2);
    assert_eq!(s.left_color, Some(colored::Color::Green));
    assert_eq!(s.right_color, Some(colored::Color::Red));
    assert!(s.left_name.is_none() && s.max_line_number.is_none());
}
