//! The numbered, two-column text report of an alignment.
use vstd::prelude::*;
use crate::align::{
    DiffLine, align, is_alignment, is_identical, left_parts, lines_of,
    lemma_all_paired_iff_equal, push_char, right_parts,
};

verus! {

/// The marker of the left header when none is given.
pub const DEFAULT_LEFT_MARKER: char = '-';

/// The marker of the right header when none is given.
pub const DEFAULT_RIGHT_MARKER: char = '+';

/// How many times a header repeats its marker when no count is given.
pub const DEFAULT_MARKER_COUNT: usize = 4;

/// The indent before each number column when none is given.
pub const DEFAULT_INDENT_SPACES: usize = 2;

/// `n` copies of `c`.
pub open spec fn repeat(c: char, n: nat) -> Seq<char> {
    Seq::new(n, |i: int| c)
}

pub open spec fn digit_of(d: nat) -> char {
    if d == 0 { '0' }
    else if d == 1 { '1' }
    else if d == 2 { '2' }
    else if d == 3 { '3' }
    else if d == 4 { '4' }
    else if d == 5 { '5' }
    else if d == 6 { '6' }
    else if d == 7 { '7' }
    else if d == 8 { '8' }
    else { '9' }
}

/// The decimal digits of `n`, without leading zeros.
pub open spec fn decimal(n: nat) -> Seq<char>
    decreases n,
{
    if n < 10 {
        seq![digit_of(n)]
    } else {
        decimal(n / 10).push(digit_of(n % 10))
    }
}

/// One of the two texts compared.
#[derive(Debug, Clone, Copy, PartialEq, Eq, Structural)]
pub enum Side {
    Left,
    Right,
}

/// The header of one side: the marker bar, then `left`, `left:  <name>`,
/// `right` or `right: <name>`, so that both names start in one column.
pub open spec fn header_text(side: Side, name: Option<Seq<char>>, marker: char, count: nat) -> Seq<char> {
    let word = match side {
        Side::Left => seq!['l', 'e', 'f', 't'],
        Side::Right => seq!['r', 'i', 'g', 'h', 't'],
    };
    let label = match name {
        Some(n) => word + (if side == Side::Left { seq![':', ' ', ' '] } else { seq![':', ' '] }) + n,
        None => word,
    };
    repeat(marker, count) + seq![' '] + label
}

/// A line-number field: the number right-justified to `width` when a width is
/// given (never cut), blank of that width without a number; without a width,
/// the digits or one space.
pub open spec fn number_field(num: Option<nat>, width: Option<nat>) -> Seq<char> {
    match width {
        Some(w) => match num {
            Some(k) => if decimal(k).len() < w {
                repeat(' ', (w - decimal(k).len()) as nat) + decimal(k)
            } else {
                decimal(k)
            },
            None => repeat(' ', w),
        },
        None => match num {
            Some(k) => decimal(k),
            None => seq![' '],
        },
    }
}

proof fn lemma_decimal_nonempty(n: nat)
    ensures
        decimal(n).len() >= 1,
    decreases n,
{
    if n >= 10 {
        lemma_decimal_nonempty(n / 10);
    }
}

fn digit_char(d: usize) -> (c: char)
    requires
        d < 10,
    ensures
        c == digit_of(d as nat),
{
    if d == 0 { '0' }
    else if d == 1 { '1' }
    else if d == 2 { '2' }
    else if d == 3 { '3' }
    else if d == 4 { '4' }
    else if d == 5 { '5' }
    else if d == 6 { '6' }
    else if d == 7 { '7' }
    else if d == 8 { '8' }
    else { '9' }
}

/// Appends the decimal digits of `n`.
fn push_decimal(s: &mut String, n: usize)
    ensures
        final(s)@ == old(s)@ + decimal(n as nat),
    decreases n,
{
    if n < 10 {
        push_char(s, digit_char(n));
    } else {
        push_decimal(s, n / 10);
        push_char(s, digit_char(n % 10));
    }
}

/// The number of decimal digits of `n`.
fn decimal_len(n: usize) -> (r: usize)
    ensures
        r == decimal(n as nat).len(),
        r <= n + 1,
    decreases n,
{
    if n < 10 {
        1
    } else {
        let k = decimal_len(n / 10);
        proof {
            lemma_decimal_nonempty(n as nat);
        }
        k + 1
    }
}

/// Appends `n` copies of `c`.
fn push_repeat(s: &mut String, c: char, n: usize)
    ensures
        final(s)@ == old(s)@ + repeat(c, n as nat),
{
    let ghost start = s@;
    let mut i: usize = 0;
    while i < n
        invariant
            i <= n,
            s@ == start + repeat(c, i as nat),
        decreases n - i,
    {
        push_char(s, c);
        i = i + 1;
        proof {
            assert(s@ =~= start + repeat(c, i as nat));
        }
    }
}

/// Appends a string slice.
fn push_str(s: &mut String, t: &str)
    ensures
        final(s)@ == old(s)@ + t@,
{
    s.append(t);
}

/// The header line of one side.
pub fn header(side: Side, name: Option<&String>, marker: char, marker_len: usize) -> (r: String)
    ensures
        r@ == header_text(side, match name { Some(n) => Some(n@), None => None }, marker, marker_len as nat),
{
    let mut s = String::new();
    push_repeat(&mut s, marker, marker_len);
    push_char(&mut s, ' ');
    match side {
        Side::Left => push_str(&mut s, "left"),
        Side::Right => push_str(&mut s, "right"),
    }
    match name {
        Some(n) => {
            push_char(&mut s, ':');
            // "right" is one character longer than "left": pad so both names line up
            if side == Side::Left {
                push_char(&mut s, ' ');
            }
            push_char(&mut s, ' ');
            push_str(&mut s, n.as_str());
        },
        None => {},
    }
    proof {
        reveal_strlit("left");
        reveal_strlit("right");
        let ghost nm = match name { Some(n) => Some(n@), None => None };
        assert(s@ =~= header_text(side, nm, marker, marker_len as nat));
    }
    s
}

/// A line-number field (see `number_field`).
pub fn display_str(num: Option<usize>, max_width: Option<usize>) -> (r: String)
    ensures
        r@ == number_field(
            match num { Some(k) => Some(k as nat), None => None },
            match max_width { Some(w) => Some(w as nat), None => None },
        ),
{
    let mut s = String::new();
    match max_width {
        Some(width) => match num {
            Some(k) => {
                let len = decimal_len(k);
                if len < width {
                    push_repeat(&mut s, ' ', width - len);
                }
                push_decimal(&mut s, k);
            },
            None => {
                push_repeat(&mut s, ' ', width);
            },
        },
        None => match num {
            Some(k) => {
                push_decimal(&mut s, k);
            },
            None => {
                push_char(&mut s, ' ');
            },
        },
    }
    proof {
        assert(s@ =~= number_field(
            match num { Some(k) => Some(k as nat), None => None },
            match max_width { Some(w) => Some(w as nat), None => None },
        ));
    }
    s
}

} // verus!
verus! {

/// The colors of `colored`, whose variants the settings name.
#[verifier::external_type_specification]
pub struct ExColor(colored::Color);

/// How a report is laid out and colored.
#[derive(Debug)]
pub struct DiffSettings {
    pub left_name: Option<String>,
    pub right_name: Option<String>,
    pub left_marker: char,
    pub right_marker: char,
    pub marker_count: usize,
    pub indent_spaces: usize,
    pub force_color: bool,
    pub left_color: Option<colored::Color>,
    pub right_color: Option<colored::Color>,
    pub no_color: bool,
    /// The largest line number to be shown; it fixes the width of the number
    /// columns.
    pub max_line_number: Option<usize>,
}

/// The settings hold their defaults.
pub open spec fn is_default(s: DiffSettings) -> bool {
    &&& s.left_name is None
    &&& s.right_name is None
    &&& s.left_marker == DEFAULT_LEFT_MARKER
    &&& s.right_marker == DEFAULT_RIGHT_MARKER
    &&& s.marker_count == DEFAULT_MARKER_COUNT
    &&& s.indent_spaces == DEFAULT_INDENT_SPACES
    &&& !s.force_color
    &&& s.left_color == Some(colored::Color::Green)
    &&& s.right_color == Some(colored::Color::Red)
    &&& !s.no_color
    &&& s.max_line_number is None
}

impl DiffSettings {
    /// The default settings.
    pub fn new() -> (r: Self)
        ensures
            is_default(r),
    {
        DiffSettings {
            left_name: None,
            right_name: None,
            left_marker: DEFAULT_LEFT_MARKER,
            right_marker: DEFAULT_RIGHT_MARKER,
            marker_count: DEFAULT_MARKER_COUNT,
            indent_spaces: DEFAULT_INDENT_SPACES,
            force_color: false,
            left_color: Some(colored::Color::Green),
            right_color: Some(colored::Color::Red),
            no_color: false,
            max_line_number: None,
        }
    }

    /// Sets the names shown in the two headers.
    pub fn names(self, left: String, right: String) -> (r: Self)
        ensures
            r == (DiffSettings { left_name: Some(left), right_name: Some(right), ..self }),
    {
        let mut s = self;
        s.left_name = Some(left);
        s.right_name = Some(right);
        s
    }

    /// Sets the largest line number to be shown.
    pub fn max_line_number(self, n: usize) -> (r: Self)
        ensures
            r == (DiffSettings { max_line_number: Some(n), ..self }),
    {
        let mut s = self;
        s.max_line_number = Some(n);
        s
    }
}

impl Default for DiffSettings {
    fn default() -> (r: Self)
        ensures
            is_default(r),
    {
        DiffSettings::new()
    }
}

/// The width of the number columns: as many digits as the largest number has.
pub open spec fn width_of(max: Option<usize>) -> Option<nat> {
    match max {
        Some(m) => Some(decimal(m as nat).len()),
        None => None,
    }
}

pub open spec fn has_left(e: DiffLine) -> bool {
    !(e is Right)
}

pub open spec fn has_right(e: DiffLine) -> bool {
    !(e is Left)
}

/// How many left lines the first `i` entries hold.
pub open spec fn left_count(d: Seq<DiffLine>, i: int) -> nat {
    left_parts(d.take(i)).len()
}

/// How many right lines the first `i` entries hold.
pub open spec fn right_count(d: Seq<DiffLine>, i: int) -> nat {
    right_parts(d.take(i)).len()
}

/// The left line number shown at entry `i`, if it has a left line.
pub open spec fn left_number(d: Seq<DiffLine>, i: int) -> Option<nat> {
    if has_left(d[i]) { Some(left_count(d, i + 1)) } else { None }
}

/// The right line number shown at entry `i`, if it has a right line.
pub open spec fn right_number(d: Seq<DiffLine>, i: int) -> Option<nat> {
    if has_right(d[i]) { Some(right_count(d, i + 1)) } else { None }
}

pub open spec fn separator(e: DiffLine) -> char {
    match e {
        DiffLine::Left(_) => '-',
        DiffLine::Both(_, _) => '|',
        DiffLine::Right(_) => '+',
    }
}

/// The text shown for an entry: its left line, or its right line if it has
/// no left one.
pub open spec fn content(e: DiffLine) -> Seq<char> {
    match e {
        DiffLine::Left(l) => l@,
        DiffLine::Both(l, _) => l@,
        DiffLine::Right(r) => r@,
    }
}

/// The report line of entry `i`.
pub open spec fn body_line(d: Seq<DiffLine>, i: int, indent: nat, width: Option<nat>) -> Seq<char> {
    repeat(' ', indent) + number_field(left_number(d, i), width) + repeat(' ', indent)
        + number_field(right_number(d, i), width) + seq![' ', separator(d[i]), ' '] + content(d[i])
}

pub open spec fn opt_view(n: Option<String>) -> Option<Seq<char>> {
    match n {
        Some(s) => Some(s@),
        None => None,
    }
}

/// The lines of the report of `d`: the two headers, then one line per entry.
pub open spec fn report_text(s: DiffSettings, d: Seq<DiffLine>) -> Seq<Seq<char>> {
    seq![
        header_text(Side::Left, opt_view(s.left_name), s.left_marker, s.marker_count as nat),
        header_text(Side::Right, opt_view(s.right_name), s.right_marker, s.marker_count as nat),
    ] + Seq::new(d.len(), |i: int| body_line(d, i, s.indent_spaces as nat, width_of(s.max_line_number)))
}

/// The lines, each followed by a newline.
pub open spec fn join_lines(p: Seq<Seq<char>>) -> Seq<char>
    decreases p.len(),
{
    if p.len() == 0 {
        Seq::empty()
    } else {
        join_lines(p.drop_last()) + p.last() + seq!['\n']
    }
}

proof fn lemma_count_step(d: Seq<DiffLine>, i: int)
    requires
        0 <= i < d.len(),
    ensures
        left_count(d, i + 1) == left_count(d, i) + if has_left(d[i]) { 1nat } else { 0nat },
        right_count(d, i + 1) == right_count(d, i) + if has_right(d[i]) { 1nat } else { 0nat },
{
    assert(d.take(i + 1).drop_last() == d.take(i));
}

proof fn lemma_count_bound(d: Seq<DiffLine>, i: int)
    requires
        0 <= i <= d.len(),
    ensures
        left_count(d, i) <= i,
        right_count(d, i) <= i,
    decreases i,
{
    if i > 0 {
        lemma_count_bound(d, i - 1);
        lemma_count_step(d, i - 1);
    }
}

/// In a report the left number grows by one exactly at entries with a left
/// line and stays otherwise, and is shown exactly there; the same holds of
/// the right number and entries with a right line.
pub proof fn lemma_numbering(d: Seq<DiffLine>, i: int)
    requires
        0 <= i < d.len(),
    ensures
        has_left(d[i]) ==> left_count(d, i + 1) == left_count(d, i) + 1,
        !has_left(d[i]) ==> left_count(d, i + 1) == left_count(d, i),
        has_right(d[i]) ==> right_count(d, i + 1) == right_count(d, i) + 1,
        !has_right(d[i]) ==> right_count(d, i + 1) == right_count(d, i),
        left_number(d, i) == if has_left(d[i]) { Some(left_count(d, i + 1)) } else { None },
        right_number(d, i) == if has_right(d[i]) { Some(right_count(d, i + 1)) } else { None },
{
    lemma_count_step(d, i);
}

/// The report lines of entries, after the headers.
fn body_lines(d: &Vec<DiffLine>, settings: &DiffSettings) -> (r: Vec<String>)
    ensures
        r@.len() == d@.len(),
        forall|i: int| 0 <= i < d@.len() ==> #[trigger] r@[i]@ == body_line(
            d@, i, settings.indent_spaces as nat, width_of(settings.max_line_number),
        ),
{
    let width = match settings.max_line_number {
        Some(m) => Some(decimal_len(m)),
        None => None,
    };
    let ghost w = width_of(settings.max_line_number);
    let indent = settings.indent_spaces;
    let mut out: Vec<String> = Vec::new();
    let mut na: usize = 0;
    let mut nb: usize = 0;
    let mut i: usize = 0;
    while i < d.len()
        invariant
            i <= d.len(),
            out@.len() == i,
            na == left_count(d@, i as int),
            nb == right_count(d@, i as int),
            w == match width { Some(k) => Some(k as nat), None => None::<nat> },
            indent == settings.indent_spaces,
            forall|j: int| 0 <= j < i ==> #[trigger] out@[j]@ == body_line(
                d@, j, indent as nat, w,
            ),
        decreases d.len() - i,
    {
        proof {
            lemma_count_step(d@, i as int);
            lemma_count_bound(d@, i as int);
        }
        let (sep, text, a, b): (char, &String, Option<usize>, Option<usize>) = match &d[i] {
            DiffLine::Left(l) => {
                na = na + 1;
                ('-', l, Some(na), None)
            },
            DiffLine::Both(l, _) => {
                na = na + 1;
                nb = nb + 1;
                ('|', l, Some(na), Some(nb))
            },
            DiffLine::Right(r) => {
                nb = nb + 1;
                ('+', r, None, Some(nb))
            },
        };
        let mut line = String::new();
        push_repeat(&mut line, ' ', indent);
        let fa = display_str(a, width);
        push_str(&mut line, fa.as_str());
        push_repeat(&mut line, ' ', indent);
        let fb = display_str(b, width);
        push_str(&mut line, fb.as_str());
        push_char(&mut line, ' ');
        push_char(&mut line, sep);
        push_char(&mut line, ' ');
        push_str(&mut line, text.as_str());
        proof {
            assert(line@ =~= body_line(d@, i as int, indent as nat, w));
        }
        out.push(line);
        i = i + 1;
    }
    out
}

/// The result of comparing two texts line by line.
#[derive(Debug)]
pub enum Diff<'a> {
    /// The texts hold the same lines.
    Same,
    /// The texts differ; `diff` aligns their lines.
    Diff { settings: &'a DiffSettings, diff: Vec<DiffLine> },
}

/// Compares the lines of `left` with those of `right`.
pub fn line_diff<'a>(left: &str, right: &str, settings: &'a DiffSettings) -> (r: Diff<'a>)
    ensures
        r is Same <==> lines_of(left@) == lines_of(right@),
        r is Diff ==> r->settings == settings && is_alignment(r->diff@, lines_of(left@), lines_of(right@)),
{
    let diff = align(left, right);
    proof {
        lemma_all_paired_iff_equal(diff@, lines_of(left@), lines_of(right@));
    }
    if is_identical(&diff) {
        Diff::Same
    } else {
        Diff::Diff { settings, diff }
    }
}

impl<'a> Diff<'a> {
    /// The lines of the report without color: none for `Same`.
    pub fn report_lines(&self) -> (r: Vec<String>)
        ensures
            self is Same ==> r@.len() == 0,
            self is Diff ==> r@.map_values(|x: String| x@) == report_text(*self->settings, self->diff@),
    {
        match self {
            Diff::Same => Vec::new(),
            Diff::Diff { settings, diff } => {
                let mut out: Vec<String> = Vec::new();
                out.push(header(Side::Left, settings.left_name.as_ref(), settings.left_marker, settings.marker_count));
                out.push(header(Side::Right, settings.right_name.as_ref(), settings.right_marker, settings.marker_count));
                let body = body_lines(diff, settings);
                let mut i: usize = 0;
                while i < body.len()
                    invariant
                        i <= body@.len(),
                        out@.len() == i + 2,
                        out@.map_values(|x: String| x@) == report_text(**settings, diff@).take(i + 2),
                        body@.len() == diff@.len(),
                        forall|j: int| 0 <= j < diff@.len() ==> #[trigger] body@[j]@ == body_line(
                            diff@, j, settings.indent_spaces as nat, width_of(settings.max_line_number),
                        ),
                    decreases body.len() - i,
                {
                    out.push(body[i].clone());
                    i = i + 1;
                    proof {
                        assert(out@.map_values(|x: String| x@) =~= report_text(**settings, diff@).take(i + 2));
                    }
                }
                proof {
                    assert(report_text(**settings, diff@).take(i + 2) =~= report_text(**settings, diff@));
                }
                out
            },
        }
    }

    /// The report as text without color: empty for `Same`, else each report
    /// line followed by a newline.
    pub fn plain_report(&self) -> (r: String)
        ensures
            self is Same ==> r@.len() == 0,
            self is Diff ==> r@ == join_lines(report_text(*self->settings, self->diff@)),
    {
        let lines = self.report_lines();
        let ghost t = lines@.map_values(|x: String| x@);
        let mut s = String::new();
        let mut i: usize = 0;
        while i < lines.len()
            invariant
                i <= lines@.len(),
                t == lines@.map_values(|x: String| x@),
                s@ == join_lines(t.take(i as int)),
            decreases lines.len() - i,
        {
            push_str(&mut s, lines[i].as_str());
            push_char(&mut s, '\n');
            i = i + 1;
            proof {
                assert(t.take(i as int).drop_last() =~= t.take(i - 1));
            }
        }
        proof {
            assert(t.take(i as int) =~= t);
        }
        s
    }
}

/// The sequence that ends a styled text.
pub open spec fn reset_code() -> Seq<char> {
    seq!['\u{1b}', '[', '0', 'm']
}

/// `text` under an escape sequence `style`, then the reset sequence.
pub open spec fn styled(style: Seq<char>, text: Seq<char>) -> Seq<char> {
    style + text + reset_code()
}

/// `out` shows `text`: plainly, or styled.
pub open spec fn shows(out: Seq<char>, text: Seq<char>) -> bool {
    out == text || exists|style: Seq<char>| out == #[trigger] styled(style, text)
}

/// Each of `p` shows the line of `lines` at its place, where that line holds
/// no escape character.
pub open spec fn painted_as(p: Seq<Seq<char>>, lines: Seq<Seq<char>>) -> bool {
    &&& p.len() == lines.len()
    &&& forall|i: int|
        0 <= i < p.len() ==> (!lines[i].contains('\u{1b}') ==> shows(#[trigger] p[i], lines[i]))
}

/// Relies on `colored`'s `Colorize::color` and the `Display` of the result:
/// the text alone, or a style sequence, the text and the reset sequence where
/// the text holds no reset sequence of its own.
#[verifier::external_body]
fn paint(s: &String, color: colored::Color) -> (r: String)
    ensures
        !s@.contains('\u{1b}') ==> shows(r@, s@),
{
    colored::Colorize::color(s.as_str(), color).to_string()
}

/// Relies on `colored`'s `Colorize::dimmed` and the `Display` of the result,
/// as `paint` does.
#[verifier::external_body]
fn dim(s: &String) -> (r: String)
    ensures
        !s@.contains('\u{1b}') ==> shows(r@, s@),
{
    colored::Colorize::dimmed(s.as_str()).to_string()
}

/// Relies on `colored::control::set_override`: from now on the process colors
/// always (`true`) or never (`false`), whatever its environment says.
#[verifier::external_body]
fn set_color_override(colorize: bool) {
    colored::control::set_override(colorize)
}

/// Whether a report is colored.
#[derive(Debug, Clone, Copy, PartialEq, Eq, Structural)]
pub enum ColorPolicy {
    Always,
    Never,
    /// As the environment decides.
    Auto,
}

/// The color policy of the settings: `no_color` wins over `force_color`.
pub fn color_policy(settings: &DiffSettings) -> (r: ColorPolicy)
    ensures
        r == if settings.no_color {
            ColorPolicy::Never
        } else if settings.force_color {
            ColorPolicy::Always
        } else {
            ColorPolicy::Auto
        },
{
    if settings.no_color {
        ColorPolicy::Never
    } else if settings.force_color {
        ColorPolicy::Always
    } else {
        ColorPolicy::Auto
    }
}

impl<'a> Diff<'a> {
    /// The report, colored as the settings ask: empty for `Same`; else each
    /// report line, left headers and lines in the left color, right ones in
    /// the right color and paired lines dimmed, followed by a newline.
    pub fn render(&self) -> (r: String)
        ensures
            self is Same ==> r@.len() == 0,
            self is Diff ==> exists|p: Seq<Seq<char>>|
                #[trigger] painted_as(p, report_text(*self->settings, self->diff@)) && r@
                    == join_lines(p),
    {
        match self {
            Diff::Same => String::new(),
            Diff::Diff { settings, diff } => {
                match color_policy(settings) {
                    ColorPolicy::Always => set_color_override(true),
                    ColorPolicy::Never => set_color_override(false),
                    ColorPolicy::Auto => {},
                }
                let left_color = match settings.left_color {
                    Some(c) => c,
                    None => colored::Color::Green,
                };
                let right_color = match settings.right_color {
                    Some(c) => c,
                    None => colored::Color::Red,
                };
                let lines = self.report_lines();
                let ghost t = lines@.map_values(|x: String| x@);
                let ghost mut p: Seq<Seq<char>> = Seq::empty();
                proof {
                    assert(t.len() == lines@.len());
                    assert(report_text(**settings, diff@).len() == diff@.len() + 2);
                }
                let mut s = String::new();
                let mut i: usize = 0;
                while i < lines.len()
                    invariant
                        i <= lines@.len(),
                        lines@.len() == diff@.len() + 2,
                        t == lines@.map_values(|x: String| x@),
                        p.len() == i,
                        painted_as(p, t.take(i as int)),
                        s@ == join_lines(p),
                    decreases lines.len() - i,
                {
                    let piece = if i == 0 {
                        paint(&lines[i], left_color)
                    } else if i == 1 {
                        paint(&lines[i], right_color)
                    } else {
                        match &diff[i - 2] {
                            DiffLine::Left(_) => paint(&lines[i], left_color),
                            DiffLine::Both(_, _) => dim(&lines[i]),
                            DiffLine::Right(_) => paint(&lines[i], right_color),
                        }
                    };
                    push_str(&mut s, piece.as_str());
                    push_char(&mut s, '\n');
                    proof {
                        let p0 = p;
                        p = p.push(piece@);
                        assert(p.drop_last() == p0);
                        assert(painted_as(p, t.take(i + 1))) by {
                            assert forall|j: int| 0 <= j < p.len() && !t.take(i + 1)[j].contains('\u{1b}')
                                implies shows(#[trigger] p[j], t.take(i + 1)[j]) by {
                                if j < i {
                                    assert(p[j] == p0[j]);
                                    assert(t.take(i + 1)[j] == t.take(i as int)[j]);
                                }
                            }
                        }
                    }
                    i = i + 1;
                }
                proof {
                    assert(t.take(i as int) =~= t);
                }
                s
            },
        }
    }
}

} // verus!
