use vstd::prelude::*;
use crate::color::{Rgb, hex_color, push_hex_color};
use crate::text::{strip_ansi, strip_state, strip_ansi_chars, push_str, push_all, slice_of};
use crate::ansi::{
    views, bounded_decimal, parse_bounded, is_digit, ansi_html, ansi_to_html_chars,
    background_of, extract_line_background,
};

verus! {

/// The box-drawing glyph that separates columns of side-by-side output.
pub const SEP: char = '\u{2502}';

// ---------------------------------------------------------------------------
// Lines, words and whitespace

pub open spec fn strip_cr(l: Seq<char>) -> Seq<char> {
    if l.len() > 0 && l.last() == '\r' { l.drop_last() } else { l }
}

/// The finished lines of a prefix and the unfinished last one.
pub open spec fn lines_state(s: Seq<char>) -> (Seq<Seq<char>>, Seq<char>)
    decreases s.len(),
{
    if s.len() == 0 {
        (Seq::empty(), Seq::empty())
    } else {
        let p = lines_state(s.drop_last());
        if s.last() == '\n' {
            (p.0.push(strip_cr(p.1)), Seq::empty())
        } else {
            (p.0, p.1.push(s.last()))
        }
    }
}

/// The lines of `s`: split at `\n`, with a `\r` before it dropped, and no
/// empty line after a final `\n`.
pub open spec fn text_lines(s: Seq<char>) -> Seq<Seq<char>> {
    let p = lines_state(s);
    if p.1.len() > 0 { p.0.push(p.1) } else { p.0 }
}

/// Splits `s` into its lines.
pub fn split_lines(s: &Vec<char>) -> (r: Vec<Vec<char>>)
    ensures
        views(r@) == text_lines(s@),
{
    let mut done: Vec<Vec<char>> = Vec::new();
    let mut cur: Vec<char> = Vec::new();
    let mut i: usize = 0;
    while i < s.len()
        invariant
            0 <= i <= s.len(),
            lines_state(s@.take(i as int)) == (views(done@), cur@),
        decreases s.len() - i,
    {
        let c = s[i];
        assert(s@.take(i as int + 1).drop_last() =~= s@.take(i as int));
        if c == '\n' {
            let ghost before = views(done@);
            let ghost line = strip_cr(cur@);
            if cur.len() > 0 && cur[cur.len() - 1] == '\r' {
                cur.pop();
            }
            assert(cur@ == line);
            done.push(cur);
            cur = Vec::new();
            assert(views(done@) =~= before.push(line));
        } else {
            cur.push(c);
        }
        i += 1;
    }
    assert(s@.take(s.len() as int) =~= s@);
    if cur.len() > 0 {
        let ghost before = views(done@);
        let ghost last = cur@;
        done.push(cur);
        assert(views(done@) =~= before.push(last));
    }
    done
}

/// Whitespace as Unicode's `White_Space` property defines it.
pub open spec fn is_white(c: char) -> bool {
    c == ' ' || ('\t' <= c && c <= '\r') || c == '\u{85}' || c == '\u{a0}' || c == '\u{1680}'
        || ('\u{2000}' <= c && c <= '\u{200a}') || c == '\u{2028}' || c == '\u{2029}' || c
        == '\u{202f}' || c == '\u{205f}' || c == '\u{3000}'
}

fn is_white_char(c: char) -> (r: bool)
    ensures
        r == is_white(c),
{
    c == ' ' || ('\t' <= c && c <= '\r') || c == '\u{85}' || c == '\u{a0}' || c == '\u{1680}'
        || ('\u{2000}' <= c && c <= '\u{200a}') || c == '\u{2028}' || c == '\u{2029}' || c
        == '\u{202f}' || c == '\u{205f}' || c == '\u{3000}'
}

/// `s` without its trailing whitespace.
pub open spec fn trim_end(s: Seq<char>) -> Seq<char>
    decreases s.len(),
{
    if s.len() > 0 && is_white(s.last()) { trim_end(s.drop_last()) } else { s }
}

/// Removes trailing whitespace from rendered markup.
pub fn trim_html_trailing_whitespace(html: &Vec<char>) -> (r: Vec<char>)
    ensures
        r@ == trim_end(html@),
{
    let mut k: usize = html.len();
    assert(html@.take(k as int) =~= html@);
    while k > 0 && is_white_char(html[k - 1])
        invariant
            k <= html.len(),
            trim_end(html@.take(k as int)) == trim_end(html@),
        decreases k,
    {
        assert(html@.take(k as int).drop_last() =~= html@.take(k - 1));
        k -= 1;
    }
    assert(trim_end(html@.take(k as int)) == html@.take(k as int));
    slice_of(html, 0, k)
}

/// The words of a prefix so far, and the unfinished last one.
pub open spec fn words_state(s: Seq<char>) -> (Seq<Seq<char>>, Seq<char>)
    decreases s.len(),
{
    if s.len() == 0 {
        (Seq::empty(), Seq::empty())
    } else {
        let p = words_state(s.drop_last());
        if is_white(s.last()) {
            (if p.1.len() > 0 { p.0.push(p.1) } else { p.0 }, Seq::empty())
        } else {
            (p.0, p.1.push(s.last()))
        }
    }
}

/// The maximal runs of non-whitespace characters of `s`.
pub open spec fn words(s: Seq<char>) -> Seq<Seq<char>> {
    let p = words_state(s);
    if p.1.len() > 0 { p.0.push(p.1) } else { p.0 }
}

fn split_words(s: &Vec<char>) -> (r: Vec<Vec<char>>)
    ensures
        views(r@) == words(s@),
{
    let mut done: Vec<Vec<char>> = Vec::new();
    let mut cur: Vec<char> = Vec::new();
    let mut i: usize = 0;
    while i < s.len()
        invariant
            0 <= i <= s.len(),
            words_state(s@.take(i as int)) == (views(done@), cur@),
        decreases s.len() - i,
    {
        let c = s[i];
        assert(s@.take(i as int + 1).drop_last() =~= s@.take(i as int));
        if is_white_char(c) {
            if cur.len() > 0 {
                let ghost before = views(done@);
                let ghost w = cur@;
                done.push(cur);
                assert(views(done@) =~= before.push(w));
            }
            cur = Vec::new();
        } else {
            cur.push(c);
        }
        i += 1;
    }
    assert(s@.take(s.len() as int) =~= s@);
    if cur.len() > 0 {
        let ghost before = views(done@);
        let ghost w = cur@;
        done.push(cur);
        assert(views(done@) =~= before.push(w));
    }
    done
}

/// The last of `ws` that reads as a `u32`.
pub open spec fn last_number(ws: Seq<Seq<char>>) -> Option<u32>
    decreases ws.len(),
{
    if ws.len() == 0 {
        None
    } else {
        match bounded_decimal(ws.last(), u32::MAX as nat) {
            Some(v) => Some(v as u32),
            None => last_number(ws.drop_last()),
        }
    }
}

/// The line number that a gutter segment shows: the last word of its
/// visible text that reads as a `u32`.
pub open spec fn line_number(part: Seq<char>) -> Option<u32> {
    last_number(words(strip_ansi(part)))
}

/// The line number shown by a gutter segment, if any.
pub fn extract_line_number(line_num_part: &Vec<char>) -> (r: Option<u32>)
    ensures
        r == line_number(line_num_part@),
{
    let visible = strip_ansi_chars(line_num_part);
    let ws = split_words(&visible);
    let ghost vs = views(ws@);
    let mut k: usize = ws.len();
    assert(vs.take(k as int) =~= vs);
    while k > 0
        invariant
            k <= ws.len(),
            vs == views(ws@),
            last_number(vs.take(k as int)) == line_number(line_num_part@),
        decreases k,
    {
        assert(vs.take(k as int).last() == ws[k - 1]@);
        assert(vs.take(k as int).drop_last() =~= vs.take(k - 1));
        match parse_bounded(&ws[k - 1], u32::MAX) {
            Some(v) => {
                return Some(v);
            },
            None => {},
        }
        k -= 1;
    }
    None
}

// ---------------------------------------------------------------------------
// Column splitting

/// The visible column at which position `k` of `s` stands.
pub open spec fn visible_col(s: Seq<char>, k: int) -> int {
    strip_ansi(s.take(k)).len() as int
}

/// How far the visible column of position `k` lies from the visible middle
/// of `s`.
pub open spec fn mid_distance(s: Seq<char>, k: int) -> int {
    let d = visible_col(s, k) - strip_ansi(s).len() as int / 2;
    if d < 0 { -d } else { d }
}

/// `k` is the separator nearest to the visible middle of `s`, the first one
/// among equally near ones.
pub open spec fn is_middle_separator(s: Seq<char>, k: int) -> bool {
    &&& 0 <= k < s.len()
    &&& s[k] == SEP
    &&& forall|j: int| 0 <= j < s.len() && s[j] == SEP ==> mid_distance(s, k) <= #[trigger] mid_distance(s, j)
    &&& forall|j: int| 0 <= j < k && s[j] == SEP ==> mid_distance(s, k) < #[trigger] mid_distance(s, j)
}

pub open spec fn has_sep(s: Seq<char>) -> bool {
    exists|j: int| 0 <= j < s.len() && s[j] == SEP
}

/// There is at most one middle separator.
pub proof fn lemma_middle_unique(s: Seq<char>, a: int, b: int)
    requires
        is_middle_separator(s, a),
        is_middle_separator(s, b),
    ensures
        a == b,
{
    if a < b {
        assert(mid_distance(s, b) < mid_distance(s, a));
    } else if b < a {
        assert(mid_distance(s, a) < mid_distance(s, b));
    }
}

/// The position of the middle separator of `s`, if `s` has a separator.
pub open spec fn middle_index(s: Seq<char>) -> Option<int> {
    if exists|k: int| is_middle_separator(s, k) {
        Some(choose|k: int| is_middle_separator(s, k))
    } else {
        None
    }
}

fn visible_length(s: &Vec<char>) -> (r: usize)
    ensures
        r == strip_ansi(s@).len(),
{
    strip_ansi_chars(s).len()
}

/// The position of the separator nearest to the visible middle of `line`.
pub fn middle_separator(line: &Vec<char>) -> (r: Option<usize>)
    ensures
        r matches Some(k) ==> is_middle_separator(line@, k as int),
        r is None ==> !has_sep(line@),
        r == (match middle_index(line@) { Some(k) => Some(k as usize), None => None::<usize> }),
{
    let mid = visible_length(line) / 2;
    let mut best: Option<usize> = None;
    let mut best_d: usize = 0;
    let mut vis: usize = 0;
    let mut esc = false;
    let mut i: usize = 0;
    while i < line.len()
        invariant
            0 <= i <= line.len(),
            mid == strip_ansi(line@).len() / 2,
            vis == strip_state(line@.take(i as int)).0.len(),
            esc == strip_state(line@.take(i as int)).1,
            vis <= i,
            best is None ==> forall|j: int| 0 <= j < i ==> line@[j] != SEP,
            best matches Some(k) ==> {
                &&& k < i
                &&& line@[k as int] == SEP
                &&& best_d == mid_distance(line@, k as int)
                &&& forall|j: int| 0 <= j < i && line@[j] == SEP ==> mid_distance(line@, k as int) <= #[trigger] mid_distance(line@, j)
                &&& forall|j: int| 0 <= j < k && line@[j] == SEP ==> mid_distance(line@, k as int) < #[trigger] mid_distance(line@, j)
            },
        decreases line.len() - i,
    {
        let c = line[i];
        assert(line@.take(i as int + 1).drop_last() =~= line@.take(i as int));
        if c == SEP {
            let d = if vis >= mid { vis - mid } else { mid - vis };
            assert(d == mid_distance(line@, i as int));
            match best {
                Some(_) => {
                    if d < best_d {
                        best = Some(i);
                        best_d = d;
                    }
                },
                None => {
                    best = Some(i);
                    best_d = d;
                },
            }
        }
        if c == crate::text::ESC {
            esc = true;
        } else if esc {
            if c == 'm' {
                esc = false;
            }
        } else {
            vis += 1;
        }
        i += 1;
    }
    match best {
        Some(k) => {
            assert(is_middle_separator(line@, k as int));
            proof {
                let c = choose|c: int| is_middle_separator(line@, c);
                lemma_middle_unique(line@, c, k as int);
            }
        },
        None => {
            assert(!has_sep(line@));
            assert(!exists|k: int| is_middle_separator(line@, k));
        },
    }
    best
}

/// Splits `line` at its middle separator, dropping the separator.
pub fn split_at_middle_separator(line: &Vec<char>) -> (r: Option<(Vec<char>, Vec<char>)>)
    ensures
        r is None <==> middle_index(line@) is None,
        r matches Some(p) ==> (middle_index(line@) matches Some(k) && p.0@ == line@.take(k)
            && p.1@ == line@.skip(k + 1)),
{
    match middle_separator(line) {
        Some(k) => {
            let left = slice_of(line, 0, k);
            let right = slice_of(line, k + 1, line.len());
            assert(left@ =~= line@.take(k as int));
            assert(right@ =~= line@.skip(k + 1));
            Some((left, right))
        },
        None => None,
    }
}

/// The position of the last `c` in `s`.
pub open spec fn last_index_of(s: Seq<char>, c: char) -> Option<int>
    decreases s.len(),
{
    if s.len() == 0 {
        None
    } else if s.last() == c {
        Some(s.len() - 1)
    } else {
        last_index_of(s.drop_last(), c)
    }
}

/// The position of the last `c` in `s`.
pub fn rfind(s: &Vec<char>, c: char) -> (r: Option<usize>)
    ensures
        r == (match last_index_of(s@, c) { Some(k) => Some(k as usize), None => None::<usize> }),
        r matches Some(k) ==> k < s.len(),
{
    let mut k: usize = s.len();
    assert(s@.take(k as int) =~= s@);
    while k > 0
        invariant
            k <= s.len(),
            last_index_of(s@.take(k as int), c) == last_index_of(s@, c),
        decreases k,
    {
        assert(s@.take(k as int).drop_last() =~= s@.take(k - 1));
        if s[k - 1] == c {
            return Some(k - 1);
        }
        k -= 1;
    }
    None
}

pub(crate) proof fn lemma_last_index_bound(s: Seq<char>, c: char)
    ensures
        last_index_of(s, c) matches Some(k) ==> 0 <= k < s.len() && s[k] == c,
    decreases s.len(),
{
    if s.len() > 0 && s.last() != c {
        lemma_last_index_bound(s.drop_last(), c);
    }
}

// ---------------------------------------------------------------------------
// Row markup

pub open spec fn row_open() -> Seq<char> {
    "<div class=\"diff-line\""@
}

pub open spec fn num_open() -> Seq<char> {
    "><span class=\"line-num\">"@
}

pub open spec fn num_close_content_open() -> Seq<char> {
    "</span><span class=\"line-content\">"@
}

pub open spec fn content_only_open() -> Seq<char> {
    "><span class=\"line-content\">"@
}

pub open spec fn row_close() -> Seq<char> {
    "</span></div>"@
}

/// The ` style='background:#rrggbb'` attribute of a row, if it has a
/// background.
pub open spec fn bg_attr(bg: Option<Rgb>) -> Seq<char> {
    match bg {
        Some(c) => " style='background:"@ + hex_color(c) + "'"@,
        None => Seq::empty(),
    }
}

pub(crate) fn push_bg_attr(out: &mut Vec<char>, bg: Option<Rgb>)
    ensures
        final(out)@ == old(out)@ + bg_attr(bg),
{
    let ghost start = out@;
    match bg {
        Some(c) => {
            push_str(out, " style='background:");
            push_hex_color(out, c);
            push_str(out, "'");
            assert(out@ =~= start + bg_attr(bg));
        },
        None => {
            assert(out@ =~= start + bg_attr(bg));
        },
    }
}

pub open spec fn has_digit(s: Seq<char>) -> bool {
    exists|i: int| 0 <= i < s.len() && is_digit(#[trigger] s[i])
}

fn any_digit(s: &Vec<char>) -> (r: bool)
    ensures
        r == has_digit(s@),
{
    let mut i: usize = 0;
    while i < s.len()
        invariant
            0 <= i <= s.len(),
            forall|j: int| 0 <= j < i ==> !is_digit(#[trigger] s@[j]),
        decreases s.len() - i,
    {
        if '0' <= s[i] && s[i] <= '9' {
            assert(is_digit(s@[i as int]));
            return true;
        }
        i += 1;
    }
    false
}

/// `s` with every separator glyph replaced by a space.
pub open spec fn blank_separators(s: Seq<char>) -> Seq<char> {
    s.map_values(|c: char| if c == SEP { ' ' } else { c })
}

fn blank_separator_chars(s: &Vec<char>) -> (r: Vec<char>)
    ensures
        r@ == blank_separators(s@),
{
    let mut r: Vec<char> = Vec::new();
    let mut i: usize = 0;
    while i < s.len()
        invariant
            0 <= i <= s.len(),
            r@ == blank_separators(s@.take(i as int)),
        decreases s.len() - i,
    {
        r.push(if s[i] == SEP { ' ' } else { s[i] });
        i += 1;
        assert(r@ =~= blank_separators(s@.take(i as int)));
    }
    assert(s@.take(s.len() as int) =~= s@);
    r
}

/// A row of one panel of side-by-side output. The last separator of
/// `half` divides its gutter from its content; a row whose gutter shows no
/// digit is padding and gets no trailing newline.
pub open spec fn panel_row(half: Seq<char>) -> Seq<char> {
    match last_index_of(half, SEP) {
        Some(k) => {
            let num = half.take(k);
            let content = half.skip(k + 1);
            row_open() + bg_attr(background_of(content)) + num_open() + blank_separators(
                ansi_html(num),
            ) + num_close_content_open() + trim_end(ansi_html(content)) + (if has_digit(
                strip_ansi(num),
            ) {
                seq!['\n']
            } else {
                Seq::empty()
            }) + row_close()
        },
        None => row_open() + bg_attr(background_of(half)) + content_only_open() + trim_end(
            ansi_html(half),
        ) + seq!['\n'] + row_close(),
    }
}

/// Renders one half of a side-by-side line as a panel row.
pub fn split_line_number_and_content(line: &Vec<char>) -> (r: Vec<char>)
    ensures
        r@ == panel_row(line@),
{
    let mut out: Vec<char> = Vec::new();
    proof {
        lemma_last_index_bound(line@, SEP);
    }
    match rfind(line, SEP) {
        Some(k) => {
            let num = slice_of(line, 0, k);
            let content = slice_of(line, k + 1, line.len());
            assert(num@ =~= line@.take(k as int));
            assert(content@ =~= line@.skip(k + 1));
            let visible = strip_ansi_chars(&num);
            let has_number = any_digit(&visible);
            let bg = extract_line_background(&content);
            let num_html = blank_separator_chars(&ansi_to_html_chars(&num));
            let content_html = trim_html_trailing_whitespace(&ansi_to_html_chars(&content));
            push_str(&mut out, "<div class=\"diff-line\"");
            push_bg_attr(&mut out, bg);
            push_str(&mut out, "><span class=\"line-num\">");
            push_all(&mut out, &num_html);
            push_str(&mut out, "</span><span class=\"line-content\">");
            push_all(&mut out, &content_html);
            let ghost before_nl = out@;
            if has_number {
                out.push('\n');
            }
            assert(out@ =~= before_nl + (if has_digit(visible@) {
                seq!['\n']
            } else {
                Seq::empty()
            }));
            push_str(&mut out, "</span></div>");
            assert(out@ =~= panel_row(line@));
        },
        None => {
            let bg = extract_line_background(line);
            let html = trim_html_trailing_whitespace(&ansi_to_html_chars(line));
            push_str(&mut out, "<div class=\"diff-line\"");
            push_bg_attr(&mut out, bg);
            push_str(&mut out, "><span class=\"line-content\">");
            push_all(&mut out, &html);
            out.push('\n');
            push_str(&mut out, "</span></div>");
            assert(out@ =~= panel_row(line@));
        },
    }
    out
}

} // verus!
