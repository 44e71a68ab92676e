use vstd::prelude::*;
use vstd::string::StringExecFns;
use crate::text::{chars_of, string_of, push_str, push_all, slice_of};
use crate::ansi::{views, ansi_html, ansi_to_html_chars, background_of, extract_line_background};
use crate::layout::{
    SEP, text_lines, split_lines, last_index_of, rfind, line_number, extract_line_number,
    middle_index, split_at_middle_separator, panel_row, split_line_number_and_content, row_open,
    num_open, num_close_content_open, content_only_open, row_close, bg_attr, trim_end,
    trim_html_trailing_whitespace,
};

verus! {

/// Why producing a diff failed.
#[derive(Debug, Clone)]
pub enum DeltaError {
    Io(String),
    AnsiConversion(String),
    Utf8(String),
    DeltaNotInstalled,
}

impl DeltaError {
    /// The message shown for this error.
    pub fn message(&self) -> (r: String)
        ensures
            r@ == (match self {
                DeltaError::Io(m) => "IO error: "@ + m@,
                DeltaError::AnsiConversion(m) => "ANSI conversion error: "@ + m@,
                DeltaError::Utf8(m) => "UTF-8 error: "@ + m@,
                DeltaError::DeltaNotInstalled => "Delta not installed"@,
            }),
    {
        match self {
            DeltaError::Io(m) => String::from_str("IO error: ").concat(m.as_str()),
            DeltaError::AnsiConversion(m) => String::from_str("ANSI conversion error: ").concat(
                m.as_str(),
            ),
            DeltaError::Utf8(m) => String::from_str("UTF-8 error: ").concat(m.as_str()),
            DeltaError::DeltaNotInstalled => String::from_str("Delta not installed"),
        }
    }
}

/// How a diff is to be rendered.
#[derive(Debug, Clone, Copy, PartialEq, Eq, Structural)]
pub struct DiffOptions {
    pub side_by_side: bool,
    pub line_numbers: bool,
    pub collapsed: bool,
    pub show_whitespace: bool,
}

impl DiffOptions {
    /// All options off.
    pub fn new() -> (r: DiffOptions)
        ensures
            !r.side_by_side && !r.line_numbers && !r.collapsed && !r.show_whitespace,
    {
        DiffOptions { side_by_side: false, line_numbers: false, collapsed: false, show_whitespace: false }
    }
}

/// A rendered diff: one markup string inline, or a left and a right panel
/// side by side.
#[derive(Debug, Clone)]
pub struct DiffResult {
    pub html: String,
    pub has_changes: bool,
    pub hunk_count: usize,
    pub left_html: Option<String>,
    pub right_html: Option<String>,
}

// ---------------------------------------------------------------------------
// Hunk gaps

/// The last line number seen in one pane.
#[derive(Debug, Clone, Copy, PartialEq, Eq, Structural)]
pub struct GapTracker {
    pub last: Option<u32>,
}

impl GapTracker {
    /// Whether a line numbered `n` follows elided lines.
    pub open spec fn gap_before(self, n: Option<u32>) -> bool {
        match (self.last, n) {
            (Some(p), Some(c)) => c > p + 1,
            _ => false,
        }
    }

    /// The tracker after a line numbered `n`; lines without a number leave
    /// it as it was.
    pub open spec fn after(self, n: Option<u32>) -> GapTracker {
        if n is Some { GapTracker { last: n } } else { self }
    }

    pub open spec fn fresh() -> GapTracker {
        GapTracker { last: None }
    }

    /// A tracker that has seen no line.
    pub fn new() -> (r: GapTracker)
        ensures
            r == GapTracker::fresh(),
    {
        GapTracker { last: None }
    }

    /// Takes in the number of the next line, and tells whether lines were
    /// elided before it.
    pub fn observe(&mut self, n: Option<u32>) -> (gap: bool)
        ensures
            gap == old(self).gap_before(n),
            *final(self) == old(self).after(n),
    {
        let gap = match (self.last, n) {
            (Some(p), Some(c)) => c as u64 > p as u64 + 1,
            _ => false,
        };
        if n.is_some() {
            self.last = n;
        }
        gap
    }
}

pub open spec fn separator_row() -> Seq<char> {
    "<div class=\"diff-separator\"></div>"@
}

/// The row that marks elided lines.
pub fn create_hunk_separator() -> (r: Vec<char>)
    ensures
        r@ == separator_row(),
{
    let mut out: Vec<char> = Vec::new();
    push_str(&mut out, "<div class=\"diff-separator\"></div>");
    out
}

/// `rows` joined by newlines.
pub open spec fn join_rows(rows: Seq<Seq<char>>) -> Seq<char>
    decreases rows.len(),
{
    if rows.len() == 0 {
        Seq::empty()
    } else if rows.len() == 1 {
        rows[0]
    } else {
        join_rows(rows.drop_last()) + seq!['\n'] + rows.last()
    }
}

fn push_joined(out: &mut Vec<char>, rows: &Vec<Vec<char>>)
    ensures
        final(out)@ == old(out)@ + join_rows(views(rows@)),
{
    let ghost vs = views(rows@);
    let mut i: usize = 0;
    while i < rows.len()
        invariant
            0 <= i <= rows.len(),
            vs == views(rows@),
            out@ == old(out)@ + join_rows(vs.take(i as int)),
        decreases rows.len() - i,
    {
        assert(vs.take(i as int + 1).drop_last() =~= vs.take(i as int));
        assert(vs.take(i as int + 1).last() == rows[i as int]@);
        if i > 0 {
            out.push('\n');
        }
        push_all(out, &rows[i]);
        i += 1;
        assert(out@ =~= old(out)@ + join_rows(vs.take(i as int)));
    }
    assert(vs.take(rows.len() as int) =~= vs);
}

/// The line number in the gutter of a segment: the gutter is what stands
/// before its last separator.
pub open spec fn gutter_number(s: Seq<char>) -> Option<u32> {
    match last_index_of(s, SEP) {
        Some(k) => line_number(s.take(k)),
        None => None,
    }
}

fn gutter_line_number(s: &Vec<char>) -> (r: Option<u32>)
    ensures
        r == gutter_number(s@),
{
    proof {
        crate::layout::lemma_last_index_bound(s@, SEP);
    }
    match rfind(s, SEP) {
        Some(k) => {
            let part = slice_of(s, 0, k);
            assert(part@ =~= s@.take(k as int));
            extract_line_number(&part)
        },
        None => None,
    }
}

// ---------------------------------------------------------------------------
// Side-by-side panels

/// A line without a separator, shown across both panels.
pub open spec fn shared_row(line: Seq<char>) -> Seq<char> {
    row_open() + content_only_open() + trim_end(ansi_html(line)) + row_close()
}

fn shared_row_chars(line: &Vec<char>) -> (r: Vec<char>)
    ensures
        r@ == shared_row(line@),
{
    let html = trim_html_trailing_whitespace(&ansi_to_html_chars(line));
    let mut out: Vec<char> = Vec::new();
    push_str(&mut out, "<div class=\"diff-line\"");
    push_str(&mut out, "><span class=\"line-content\">");
    push_all(&mut out, &html);
    push_str(&mut out, "</span></div>");
    assert(out@ =~= shared_row(line@));
    out
}

/// The left rows, right rows and the two panes' trackers after `lines`.
/// A gap in either pane puts a separator row into both.
pub open spec fn panel_rows(lines: Seq<Seq<char>>) -> (
    Seq<Seq<char>>,
    Seq<Seq<char>>,
    GapTracker,
    GapTracker,
)
    decreases lines.len(),
{
    if lines.len() == 0 {
        (Seq::empty(), Seq::empty(), GapTracker::fresh(), GapTracker::fresh())
    } else {
        let prev = panel_rows(lines.drop_last());
        let l = lines.last();
        match middle_index(l) {
            Some(k) => {
                let a = l.take(k);
                let b = l.skip(k + 1);
                let ln = gutter_number(a);
                let rn = gutter_number(b);
                let gap = prev.2.gap_before(ln) || prev.3.gap_before(rn);
                let left = if gap { prev.0.push(separator_row()) } else { prev.0 };
                let right = if gap { prev.1.push(separator_row()) } else { prev.1 };
                (left.push(panel_row(a)), right.push(panel_row(b)), prev.2.after(ln), prev.3.after(rn))
            },
            None => (prev.0.push(shared_row(l)), prev.1.push(shared_row(l)), prev.2, prev.3),
        }
    }
}

pub open spec fn panel_html(rows: Seq<Seq<char>>) -> Seq<char> {
    "<div class=\"sbs-panel\">"@ + join_rows(rows) + "</div>"@
}

fn panel_markup(rows: &Vec<Vec<char>>) -> (r: String)
    ensures
        r@ == panel_html(views(rows@)),
{
    let mut out: Vec<char> = Vec::new();
    push_str(&mut out, "<div class=\"sbs-panel\">");
    push_joined(&mut out, rows);
    push_str(&mut out, "</div>");
    string_of(out.as_slice())
}

/// Splits side-by-side output into a left and a right panel.
pub fn split_side_by_side_output(ansi_output: &str) -> (r: (String, String))
    ensures
        r.0@ == panel_html(panel_rows(text_lines(ansi_output@)).0),
        r.1@ == panel_html(panel_rows(text_lines(ansi_output@)).1),
{
    let cs = chars_of(ansi_output);
    let lines = split_lines(&cs);
    let ghost ls = views(lines@);
    let mut left_rows: Vec<Vec<char>> = Vec::new();
    let mut right_rows: Vec<Vec<char>> = Vec::new();
    let mut left_numbers = GapTracker::new();
    let mut right_numbers = GapTracker::new();
    let mut i: usize = 0;
    while i < lines.len()
        invariant
            0 <= i <= lines.len(),
            ls == views(lines@),
            panel_rows(ls.take(i as int)) == (
                views(left_rows@),
                views(right_rows@),
                left_numbers,
                right_numbers,
            ),
        decreases lines.len() - i,
    {
        let line = &lines[i];
        assert(ls.take(i as int + 1).drop_last() =~= ls.take(i as int));
        assert(ls.take(i as int + 1).last() == line@);
        let ghost l0 = views(left_rows@);
        let ghost r0 = views(right_rows@);
        match split_at_middle_separator(line) {
            Some(halves) => {
                let (a, b) = halves;
                let ln = gutter_line_number(&a);
                let rn = gutter_line_number(&b);
                let left_gap = left_numbers.observe(ln);
                let right_gap = right_numbers.observe(rn);
                if left_gap || right_gap {
                    left_rows.push(create_hunk_separator());
                    right_rows.push(create_hunk_separator());
                }
                let ghost l1 = views(left_rows@);
                let ghost r1 = views(right_rows@);
                assert(l1 =~= (if left_gap || right_gap { l0.push(separator_row()) } else { l0 }));
                assert(r1 =~= (if left_gap || right_gap { r0.push(separator_row()) } else { r0 }));
                let lrow = split_line_number_and_content(&a);
                let rrow = split_line_number_and_content(&b);
                let ghost lr = lrow@;
                let ghost rr = rrow@;
                left_rows.push(lrow);
                right_rows.push(rrow);
                assert(views(left_rows@) =~= l1.push(lr));
                assert(views(right_rows@) =~= r1.push(rr));
            },
            None => {
                let row = shared_row_chars(line);
                let copy = slice_of(&row, 0, row.len());
                assert(copy@ =~= row@);
                let ghost rw = row@;
                left_rows.push(row);
                right_rows.push(copy);
                assert(views(left_rows@) =~= l0.push(rw));
                assert(views(right_rows@) =~= r0.push(rw));
            },
        }
        i += 1;
    }
    assert(ls.take(lines.len() as int) =~= ls);
    (panel_markup(&left_rows), panel_markup(&right_rows))
}

// ---------------------------------------------------------------------------
// Inline output

/// An inline row: the last separator divides gutter from content.
pub open spec fn inline_row(line: Seq<char>) -> Seq<char> {
    match last_index_of(line, SEP) {
        Some(k) => row_open() + bg_attr(background_of(line.skip(k + 1))) + num_open() + ansi_html(
            line.take(k),
        ) + num_close_content_open() + ansi_html(line.skip(k + 1)) + seq!['\n'] + row_close(),
        None => row_open() + bg_attr(background_of(line)) + content_only_open() + ansi_html(line)
            + seq!['\n'] + row_close(),
    }
}

/// The rows of inline output after `lines`, and the tracker of its pane.
pub open spec fn inline_rows(lines: Seq<Seq<char>>) -> (Seq<Seq<char>>, GapTracker)
    decreases lines.len(),
{
    if lines.len() == 0 {
        (Seq::empty(), GapTracker::fresh())
    } else {
        let prev = inline_rows(lines.drop_last());
        let l = lines.last();
        let n = gutter_number(l);
        let rows = if prev.1.gap_before(n) { prev.0.push(separator_row()) } else { prev.0 };
        (rows.push(inline_row(l)), prev.1.after(n))
    }
}

pub open spec fn inline_html(text: Seq<char>) -> Seq<char> {
    "<div class=\"delta-output\">"@ + join_rows(inline_rows(text_lines(text)).0) + "</div>"@
}

fn inline_row_chars(line: &Vec<char>) -> (r: Vec<char>)
    ensures
        r@ == inline_row(line@),
{
    let mut out: Vec<char> = Vec::new();
    proof {
        crate::layout::lemma_last_index_bound(line@, SEP);
    }
    match rfind(line, SEP) {
        Some(k) => {
            let num = slice_of(line, 0, k);
            let content = slice_of(line, k + 1, line.len());
            assert(num@ =~= line@.take(k as int));
            assert(content@ =~= line@.skip(k + 1));
            let bg = extract_line_background(&content);
            push_str(&mut out, "<div class=\"diff-line\"");
            crate::layout::push_bg_attr(&mut out, bg);
            push_str(&mut out, "><span class=\"line-num\">");
            push_all(&mut out, &ansi_to_html_chars(&num));
            push_str(&mut out, "</span><span class=\"line-content\">");
            push_all(&mut out, &ansi_to_html_chars(&content));
            out.push('\n');
            push_str(&mut out, "</span></div>");
        },
        None => {
            let bg = extract_line_background(line);
            push_str(&mut out, "<div class=\"diff-line\"");
            crate::layout::push_bg_attr(&mut out, bg);
            push_str(&mut out, "><span class=\"line-content\">");
            push_all(&mut out, &ansi_to_html_chars(line));
            out.push('\n');
            push_str(&mut out, "</span></div>");
        },
    }
    assert(out@ =~= inline_row(line@));
    out
}

/// Renders inline output: one row per line, with a separator row before a
/// line whose number jumps past the previous one.
pub fn render_inline(ansi_output: &str) -> (r: String)
    ensures
        r@ == inline_html(ansi_output@),
{
    let cs = chars_of(ansi_output);
    let lines = split_lines(&cs);
    let ghost ls = views(lines@);
    let mut rows: Vec<Vec<char>> = Vec::new();
    let mut numbers = GapTracker::new();
    let mut i: usize = 0;
    while i < lines.len()
        invariant
            0 <= i <= lines.len(),
            ls == views(lines@),
            inline_rows(ls.take(i as int)) == (views(rows@), numbers),
        decreases lines.len() - i,
    {
        let line = &lines[i];
        assert(ls.take(i as int + 1).drop_last() =~= ls.take(i as int));
        assert(ls.take(i as int + 1).last() == line@);
        let ghost r0 = views(rows@);
        let n = gutter_line_number(line);
        if numbers.observe(n) {
            rows.push(create_hunk_separator());
        }
        let ghost r1 = views(rows@);
        assert(r1 =~= (if (inline_rows(ls.take(i as int)).1).gap_before(n) {
            r0.push(separator_row())
        } else {
            r0
        }));
        let row = inline_row_chars(line);
        let ghost rw = row@;
        rows.push(row);
        assert(views(rows@) =~= r1.push(rw));
        i += 1;
    }
    assert(ls.take(lines.len() as int) =~= ls);
    let mut out: Vec<char> = Vec::new();
    push_str(&mut out, "<div class=\"delta-output\">");
    push_joined(&mut out, &rows);
    push_str(&mut out, "</div>");
    string_of(out.as_slice())
}

// ---------------------------------------------------------------------------
// The steps of one diff request

pub open spec fn is_hunk_header(l: Seq<char>) -> bool {
    l.len() >= 2 && l[0] == '@' && l[1] == '@'
}

/// How many of `lines` begin with `@@`.
pub open spec fn count_headers(lines: Seq<Seq<char>>) -> nat
    decreases lines.len(),
{
    if lines.len() == 0 {
        0
    } else {
        count_headers(lines.drop_last()) + (if is_hunk_header(lines.last()) { 1nat } else { 0nat })
    }
}

/// The number of hunks of a unified diff: its lines that begin with `@@`.
pub fn count_hunks(diff_text: &str) -> (r: usize)
    ensures
        r == count_headers(text_lines(diff_text@)),
{
    let cs = chars_of(diff_text);
    let lines = split_lines(&cs);
    let ghost ls = views(lines@);
    let mut count: usize = 0;
    let mut i: usize = 0;
    while i < lines.len()
        invariant
            0 <= i <= lines.len(),
            ls == views(lines@),
            count <= i,
            count == count_headers(ls.take(i as int)),
        decreases lines.len() - i,
    {
        assert(ls.take(i as int + 1).drop_last() =~= ls.take(i as int));
        assert(ls.take(i as int + 1).last() == lines[i as int]@);
        let l = &lines[i];
        if l.len() >= 2 && l[0] == '@' && l[1] == '@' {
            count += 1;
        }
        i += 1;
    }
    assert(ls.take(lines.len() as int) =~= ls);
    count
}

pub open spec fn string_views(v: Seq<String>) -> Seq<Seq<char>> {
    v.map_values(|s: String| s@)
}

/// The arguments of the colour-diff backend for `o`.
pub open spec fn delta_args(o: DiffOptions) -> Seq<Seq<char>> {
    (if o.side_by_side {
        seq!["--side-by-side"@, "--width"@, "160"@]
    } else {
        Seq::empty()
    }) + (if o.line_numbers {
        seq!["--line-numbers"@]
    } else {
        Seq::empty()
    }) + seq!["--file-style"@, "omit"@, "--hunk-header-style"@, "omit"@, "--dark"@]
}

fn push_arg(args: &mut Vec<String>, a: &str)
    ensures
        string_views(final(args)@) == string_views(old(args)@).push(a@),
{
    args.push(String::from_str(a));
    assert(string_views(args@) =~= string_views(old(args)@).push(a@));
}

/// The arguments of the colour-diff backend for `options`.
pub fn delta_arguments(options: &DiffOptions) -> (r: Vec<String>)
    ensures
        string_views(r@) == delta_args(*options),
{
    let mut args: Vec<String> = Vec::new();
    assert(string_views(args@) =~= Seq::empty());
    if options.side_by_side {
        push_arg(&mut args, "--side-by-side");
        push_arg(&mut args, "--width");
        push_arg(&mut args, "160");
    }
    let ghost a = string_views(args@);
    assert(a =~= (if options.side_by_side {
        seq!["--side-by-side"@, "--width"@, "160"@]
    } else {
        Seq::empty()
    }));
    if options.line_numbers {
        push_arg(&mut args, "--line-numbers");
    }
    let ghost b = string_views(args@);
    assert(b =~= a + (if options.line_numbers {
        seq!["--line-numbers"@]
    } else {
        Seq::empty()
    }));
    push_arg(&mut args, "--file-style");
    push_arg(&mut args, "omit");
    push_arg(&mut args, "--hunk-header-style");
    push_arg(&mut args, "omit");
    push_arg(&mut args, "--dark");
    assert(string_views(args@) =~= delta_args(*options));
    args
}

/// What a diff request does next.
#[derive(Debug)]
pub enum DiffStep {
    /// The request is answered.
    Done(DiffResult),
    /// Run the line diff on two paths, with this many lines of context.
    RunDiff { left: String, right: String, context_lines: u32 },
    /// Feed the line diff's text to the colour-diff backend with these
    /// arguments; the diff has this many hunks.
    RunDelta { args: Vec<String>, hunk_count: usize },
}

pub open spec fn context_lines_for(o: DiffOptions) -> u32 {
    if o.collapsed { 3 } else { 99999 }
}

pub open spec fn null_device() -> Seq<char> {
    "/dev/null"@
}

/// The path that stands for a missing side.
pub open spec fn side_path(p: Option<&str>) -> Seq<char> {
    match p {
        Some(s) => s@,
        None => null_device(),
    }
}

fn side_string(p: Option<&str>) -> (r: String)
    ensures
        r@ == side_path(p),
{
    match p {
        Some(s) => String::from_str(s),
        None => String::from_str("/dev/null"),
    }
}

/// The first step of a diff request. Without the backend it fails; with no
/// path at all it answers with an empty result; else it asks for the line
/// diff, a missing side standing as the empty file.
pub fn generate_diff(
    left_path: Option<&str>,
    right_path: Option<&str>,
    options: &DiffOptions,
    delta_installed: bool,
) -> (r: Result<DiffStep, DeltaError>)
    ensures
        r is Err <==> !delta_installed,
        r matches Err(e) ==> e is DeltaNotInstalled,
        delta_installed && left_path is None && right_path is None ==> (r matches Ok(
            DiffStep::Done(d),
        ) && d.html@ == Seq::<char>::empty() && !d.has_changes && d.hunk_count == 0
            && d.left_html is None && d.right_html is None),
        delta_installed && (left_path is Some || right_path is Some) ==> (r matches Ok(
            DiffStep::RunDiff { left, right, context_lines },
        ) && left@ == side_path(left_path) && right@ == side_path(right_path) && context_lines
            == context_lines_for(*options)),
{
    if !delta_installed {
        return Err(DeltaError::DeltaNotInstalled);
    }
    if left_path.is_none() && right_path.is_none() {
        return Ok(
            DiffStep::Done(
                DiffResult {
                    html: String::new(),
                    has_changes: false,
                    hunk_count: 0,
                    left_html: None,
                    right_html: None,
                },
            ),
        );
    }
    let context_lines: u32 = if options.collapsed { 3 } else { 99999 };
    Ok(
        DiffStep::RunDiff {
            left: side_string(left_path),
            right: side_string(right_path),
            context_lines,
        },
    )
}

pub open spec fn identical_html() -> Seq<char> {
    "<div class=\"no-changes\">Files are identical</div>"@
}

/// The second step: an empty diff that exited with success means identical
/// files; anything else goes to the colour-diff backend.
pub fn inspect_diff_output(diff_text: &str, exit_success: bool, options: &DiffOptions) -> (r:
    DiffStep)
    ensures
        diff_text@.len() == 0 && exit_success ==> (r matches DiffStep::Done(d) && d.html@
            == identical_html() && !d.has_changes && d.hunk_count == 0 && d.left_html is None
            && d.right_html is None),
        !(diff_text@.len() == 0 && exit_success) ==> (r matches DiffStep::RunDelta {
            args,
            hunk_count,
        } && string_views(args@) == delta_args(*options) && hunk_count == count_headers(
            text_lines(diff_text@),
        )),
{
    if diff_text.is_empty() && exit_success {
        return DiffStep::Done(
            DiffResult {
                html: String::from_str("<div class=\"no-changes\">Files are identical</div>"),
                has_changes: false,
                hunk_count: 0,
                left_html: None,
                right_html: None,
            },
        );
    }
    DiffStep::RunDelta { args: delta_arguments(options), hunk_count: count_hunks(diff_text) }
}

/// The last step: renders the backend's output, as two panels side by side
/// or as one inline markup string.
pub fn render_delta_output(ansi_output: &str, options: &DiffOptions, hunk_count: usize) -> (r:
    DiffResult)
    ensures
        r.has_changes,
        r.hunk_count == hunk_count,
        options.side_by_side ==> r.html@ == Seq::<char>::empty(),
        options.side_by_side ==> (r.left_html matches Some(l) && l@ == panel_html(
            panel_rows(text_lines(ansi_output@)).0,
        )),
        options.side_by_side ==> (r.right_html matches Some(rt) && rt@ == panel_html(
            panel_rows(text_lines(ansi_output@)).1,
        )),
        !options.side_by_side ==> (r.html@ == inline_html(ansi_output@) && r.left_html is None
            && r.right_html is None),
{
    if options.side_by_side {
        let (left_html, right_html) = split_side_by_side_output(ansi_output);
        DiffResult {
            html: String::new(),
            has_changes: true,
            hunk_count,
            left_html: Some(left_html),
            right_html: Some(right_html),
        }
    } else {
        DiffResult {
            html: render_inline(ansi_output),
            has_changes: true,
            hunk_count,
            left_html: None,
            right_html: None,
        }
    }
}

} // verus!
