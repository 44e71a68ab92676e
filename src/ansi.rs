use vstd::prelude::*;
use crate::color::{Rgb, rgb, basic16, palette_256, hex_color, basic_color, ansi_256_color, push_hex_color};
use crate::text::{ESC, chars_of, string_of, push_str};

verus! {

// ---------------------------------------------------------------------------
// Splitting and decimal parameters

/// The pieces of `s` between occurrences of `sep`; the empty sequence gives
/// one empty piece.
pub open spec fn split_on(s: Seq<char>, sep: char) -> Seq<Seq<char>>
    decreases s.len(),
{
    if s.len() == 0 {
        seq![Seq::empty()]
    } else {
        let p = split_on(s.drop_last(), sep);
        if s.last() == sep {
            p.push(Seq::empty())
        } else {
            p.update(p.len() - 1, p.last().push(s.last()))
        }
    }
}

pub open spec fn views(v: Seq<Vec<char>>) -> Seq<Seq<char>> {
    v.map_values(|p: Vec<char>| p@)
}

/// Splits `s` at every `sep`.
pub fn split_chars(s: &Vec<char>, sep: char) -> (r: Vec<Vec<char>>)
    ensures
        views(r@) == split_on(s@, sep),
{
    let mut done: Vec<Vec<char>> = Vec::new();
    let mut cur: Vec<char> = Vec::new();
    let mut i: usize = 0;
    while i < s.len()
        invariant
            0 <= i <= s.len(),
            split_on(s@.take(i as int), sep) == views(done@).push(cur@),
        decreases s.len() - i,
    {
        let c = s[i];
        assert(s@.take(i as int + 1).drop_last() =~= s@.take(i as int));
        let ghost before = views(done@);
        if c == sep {
            let full = cur;
            done.push(full);
            cur = Vec::new();
            assert(views(done@) =~= before.push(full@));
        } else {
            cur.push(c);
        }
        i += 1;
        assert(split_on(s@.take(i as int), sep) =~= views(done@).push(cur@));
    }
    assert(s@.take(s.len() as int) =~= s@);
    let ghost before = views(done@);
    done.push(cur);
    assert(views(done@) =~= before.push(cur@));
    done
}

pub open spec fn is_digit(c: char) -> bool {
    '0' <= c && c <= '9'
}

pub open spec fn all_digits(s: Seq<char>) -> bool {
    forall|i: int| 0 <= i < s.len() ==> is_digit(#[trigger] s[i])
}

/// The value of a string of decimal digits.
pub open spec fn digits_value(s: Seq<char>) -> nat
    decreases s.len(),
{
    if s.len() == 0 {
        0
    } else {
        digits_value(s.drop_last()) * 10 + (s.last() as nat - '0' as nat) as nat
    }
}

/// `s` without one leading `+`.
pub open spec fn unsigned_digits(s: Seq<char>) -> Seq<char> {
    if s.len() > 0 && s[0] == '+' { s.drop_first() } else { s }
}

/// An optional `+` then one or more decimal digits, as an unsigned integer
/// parse accepts it.
pub open spec fn decimal_value(s: Seq<char>) -> Option<nat> {
    let d = unsigned_digits(s);
    if d.len() > 0 && all_digits(d) {
        Some(digits_value(d))
    } else {
        None
    }
}

/// The number that `s` spells when it is at most `cap`.
pub open spec fn bounded_decimal(s: Seq<char>, cap: nat) -> Option<nat> {
    match decimal_value(s) {
        Some(v) => if v <= cap { Some(v) } else { None },
        None => None,
    }
}

/// A colour component: its decimal value when it fits a byte, else 0.
pub open spec fn component(s: Seq<char>) -> int {
    match bounded_decimal(s, 255) {
        Some(v) => v as int,
        None => 0,
    }
}

/// Parses `s` as an unsigned decimal no greater than `cap`.
pub fn parse_bounded(s: &Vec<char>, cap: u32) -> (r: Option<u32>)
    ensures
        r matches Some(v) ==> bounded_decimal(s@, cap as nat) == Some(v as nat),
        r is None ==> bounded_decimal(s@, cap as nat) is None,
{
    let start: usize = if s.len() > 0 && s[0] == '+' { 1 } else { 0 };
    let ghost d = unsigned_digits(s@);
    assert(d =~= s@.subrange(start as int, s@.len() as int));
    if start == s.len() {
        return None;
    }
    let mut val: u64 = 0;
    let mut over = false;
    let mut i: usize = start;
    while i < s.len()
        invariant
            start <= i <= s.len(),
            d == unsigned_digits(s@),
            d == s@.subrange(start as int, s@.len() as int),
            all_digits(d.take(i - start)),
            !over ==> val == digits_value(d.take(i - start)) && val <= cap,
            over ==> digits_value(d.take(i - start)) > cap,
        decreases s.len() - i,
    {
        let c = s[i];
        if !('0' <= c && c <= '9') {
            assert(d[i - start] == c);
            assert(!all_digits(d));
            assert(decimal_value(s@) is None);
            return None;
        }
        let ghost t = d.take(i - start);
        assert(d.take(i - start + 1).drop_last() =~= t);
        assert(d.take(i - start + 1).last() == c);
        if !over {
            let nv = val * 10 + (c as u64 - 48);
            if nv > cap as u64 {
                over = true;
            } else {
                val = nv;
            }
        }
        i += 1;
        assert forall|k: int| 0 <= k < d.take(i - start).len() implies is_digit(
            #[trigger] d.take(i - start)[k],
        ) by {
            if k < t.len() {
                assert(d.take(i - start)[k] == t[k]);
            }
        }
    }
    assert(d.take(i - start) =~= d);
    if over {
        None
    } else {
        Some(val as u32)
    }
}

/// A colour component, 0 when `s` is not a decimal byte value.
pub fn parse_component(s: &Vec<char>) -> (r: u8)
    ensures
        r as int == component(s@),
{
    match parse_bounded(s, 255) {
        Some(v) => v as u8,
        None => 0,
    }
}

// ---------------------------------------------------------------------------
// SGR parameters

/// The current foreground and background colours; `None` is unset.
#[derive(Clone, Copy, Debug, PartialEq, Eq, Structural)]
pub struct Style {
    pub fg: Option<Rgb>,
    pub bg: Option<Rgb>,
}

pub open spec fn plain() -> Style {
    Style { fg: None, bg: None }
}

pub open spec fn with_color(st: Style, fore: bool, c: Rgb) -> Style {
    if fore {
        Style { fg: Some(c), bg: st.bg }
    } else {
        Style { fg: st.fg, bg: Some(c) }
    }
}

/// The colour of `38;2;r;g;b` or `48;2;r;g;b` whose code stands at `i`.
pub open spec fn truecolor_at(parts: Seq<Seq<char>>, i: int) -> Rgb {
    rgb(component(parts[i + 2]), component(parts[i + 3]), component(parts[i + 4]))
}

/// The style after the SGR codes `parts[i..]`, applied left to right to `st`.
pub open spec fn sgr_apply(parts: Seq<Seq<char>>, i: int, st: Style) -> Style
    decreases parts.len() - i,
{
    if i < 0 || i >= parts.len() {
        st
    } else {
        let p = parts[i];
        if p == seq!['0'] {
            sgr_apply(parts, i + 1, plain())
        } else if p == seq!['3', '8'] || p == seq!['4', '8'] {
            let fore = p[0] == '3';
            if i + 4 < parts.len() && parts[i + 1] == seq!['2'] {
                sgr_apply(parts, i + 5, with_color(st, fore, truecolor_at(parts, i)))
            } else if i + 2 < parts.len() && parts[i + 1] == seq!['5'] {
                let c = palette_256(component(parts[i + 2]) as u8);
                sgr_apply(parts, i + 3, with_color(st, fore, c))
            } else {
                sgr_apply(parts, i + 1, st)
            }
        } else if p.len() == 2 && '0' <= p[1] && p[1] <= '7' && p[0] == '3' {
            sgr_apply(parts, i + 1, with_color(st, true, basic16(p[1] as int - '0' as int)))
        } else if p.len() == 2 && '0' <= p[1] && p[1] <= '7' && p[0] == '4' {
            sgr_apply(parts, i + 1, with_color(st, false, basic16(p[1] as int - '0' as int)))
        } else if p.len() == 2 && '0' <= p[1] && p[1] <= '7' && p[0] == '9' {
            sgr_apply(parts, i + 1, with_color(st, true, basic16(p[1] as int - '0' as int + 8)))
        } else {
            sgr_apply(parts, i + 1, st)
        }
    }
}

/// The style that the parameter text of one escape sequence gives to `st`.
pub open spec fn sgr_style(params: Seq<char>, st: Style) -> Style {
    sgr_apply(split_on(params, ';'), 0, st)
}

fn is_text1(p: &Vec<char>, a: char) -> (r: bool)
    ensures
        r == (p@ == seq![a]),
{
    let r = p.len() == 1 && p[0] == a;
    if r {
        assert(p@ =~= seq![a]);
    }
    r
}

fn is_text2(p: &Vec<char>, a: char, b: char) -> (r: bool)
    ensures
        r == (p@ == seq![a, b]),
{
    let r = p.len() == 2 && p[0] == a && p[1] == b;
    if r {
        assert(p@ =~= seq![a, b]);
    }
    r
}

fn set_color(st: Style, fore: bool, c: Rgb) -> (r: Style)
    ensures
        r == with_color(st, fore, c),
{
    if fore {
        Style { fg: Some(c), bg: st.bg }
    } else {
        Style { fg: st.fg, bg: Some(c) }
    }
}

/// Applies the SGR parameter text `seq` (the part between `ESC[` and `m`)
/// to the style `current`.
pub fn parse_ansi_codes(seq: &Vec<char>, current: Style) -> (r: Style)
    ensures
        r == sgr_style(seq@, current),
{
    let parts = split_chars(seq, ';');
    let ghost vs = views(parts@);
    let mut cur = current;
    let mut i: usize = 0;
    while i < parts.len()
        invariant
            vs == views(parts@),
            vs == split_on(seq@, ';'),
            i <= parts.len() ==> sgr_apply(vs, i as int, cur) == sgr_style(seq@, current),
            i <= parts.len(),
        decreases parts.len() - i,
    {
        let p = &parts[i];
        assert(vs[i as int] == p@);
        if is_text1(p, '0') {
            cur = Style { fg: None, bg: None };
            i += 1;
        } else if is_text2(p, '3', '8') || is_text2(p, '4', '8') {
            let fore = p[0] == '3';
            if parts.len() - i > 4 && is_text1(&parts[i + 1], '2') {
                assert(vs[i + 1] == parts[i + 1]@);
                assert(vs[i + 2] == parts[i + 2]@);
                assert(vs[i + 3] == parts[i + 3]@);
                assert(vs[i + 4] == parts[i + 4]@);
                let c = Rgb {
                    r: parse_component(&parts[i + 2]),
                    g: parse_component(&parts[i + 3]),
                    b: parse_component(&parts[i + 4]),
                };
                cur = set_color(cur, fore, c);
                i += 5;
            } else if parts.len() - i > 2 && is_text1(&parts[i + 1], '5') {
                assert(vs[i + 1] == parts[i + 1]@);
                assert(vs[i + 2] == parts[i + 2]@);
                let n = parse_component(&parts[i + 2]);
                cur = set_color(cur, fore, ansi_256_color(n));
                i += 3;
            } else {
                i += 1;
            }
        } else if p.len() == 2 && '0' <= p[1] && p[1] <= '7' && (p[0] == '3' || p[0] == '4'
            || p[0] == '9') {
            let k = (p[1] as u32 - 48) as u8;
            if p[0] == '3' {
                cur = set_color(cur, true, basic_color(k));
            } else if p[0] == '4' {
                cur = set_color(cur, false, basic_color(k));
            } else {
                cur = set_color(cur, true, basic_color(k + 8));
            }
            i += 1;
        } else {
            i += 1;
        }
    }
    cur
}

// ---------------------------------------------------------------------------
// Escape sequence scanning

/// Whether a prefix ends inside an escape sequence, and the characters of
/// that sequence read so far, starting with `ESC`.
pub open spec fn escape_state(s: Seq<char>) -> (bool, Seq<char>)
    decreases s.len(),
{
    if s.len() == 0 {
        (false, Seq::empty())
    } else {
        let prev = escape_state(s.drop_last());
        let c = s.last();
        if c == ESC {
            (true, seq![ESC])
        } else if prev.0 {
            (c != 'm', prev.1.push(c))
        } else {
            (false, prev.1)
        }
    }
}

/// The parameter text of a finished sequence `full` (from `ESC` to `m`):
/// it drops `ESC`, the character after it, and the final `m`.
pub open spec fn params_of(full: Seq<char>) -> Seq<char> {
    full.subrange(2, full.len() - 1)
}

// ---------------------------------------------------------------------------
// HTML output

pub open spec fn escape_char(c: char) -> Seq<char> {
    if c == '<' {
        "&lt;"@
    } else if c == '>' {
        "&gt;"@
    } else if c == '&' {
        "&amp;"@
    } else if c == '"' {
        "&quot;"@
    } else {
        seq![c]
    }
}

/// `s` with the characters `< > & "` written as HTML entities.
pub open spec fn escape_html(s: Seq<char>) -> Seq<char>
    decreases s.len(),
{
    if s.len() == 0 {
        Seq::empty()
    } else {
        escape_html(s.drop_last()) + escape_char(s.last())
    }
}

fn push_escaped(out: &mut Vec<char>, c: char)
    ensures
        final(out)@ == old(out)@ + escape_char(c),
{
    if c == '<' {
        push_str(out, "&lt;");
    } else if c == '>' {
        push_str(out, "&gt;");
    } else if c == '&' {
        push_str(out, "&amp;");
    } else if c == '"' {
        push_str(out, "&quot;");
    } else {
        out.push(c);
        assert(final(out)@ =~= old(out)@ + seq![c]);
    }
}

/// Writes the characters `< > & "` of `s` as HTML entities.
pub fn html_escape(s: &str) -> (r: String)
    ensures
        r@ == escape_html(s@),
{
    let cs = chars_of(s);
    let mut out: Vec<char> = Vec::new();
    let mut i: usize = 0;
    while i < cs.len()
        invariant
            0 <= i <= cs.len(),
            out@ == escape_html(cs@.take(i as int)),
        decreases cs.len() - i,
    {
        assert(cs@.take(i as int + 1).drop_last() =~= cs@.take(i as int));
        push_escaped(&mut out, cs[i]);
        i += 1;
    }
    assert(cs@.take(cs.len() as int) =~= cs@);
    string_of(out.as_slice())
}

pub open spec fn is_plain(st: Style) -> bool {
    st.fg is None && st.bg is None
}

/// The opening tag of a region in style `st`: background first, then
/// foreground.
pub open spec fn span_open(st: Style) -> Seq<char> {
    "<span style='"@ + (match st.bg {
        Some(c) => "background:"@ + hex_color(c) + seq![';'],
        None => Seq::empty(),
    }) + (match st.fg {
        Some(c) => "color:"@ + hex_color(c) + seq![';'],
        None => Seq::empty(),
    }) + "'>"@
}

pub open spec fn span_close() -> Seq<char> {
    "</span>"@
}

/// What a change of style from `from` to `to` appends: the open region is
/// closed, and a region is opened for a style that is not plain.
pub open spec fn restyle(from: Style, to: Style) -> Seq<char> {
    if to == from {
        Seq::empty()
    } else {
        (if is_plain(from) { Seq::empty() } else { span_close() }) + (if is_plain(to) {
            Seq::empty()
        } else {
            span_open(to)
        })
    }
}

/// The markup written for a prefix, and the style in force after it.
pub open spec fn render_state(s: Seq<char>) -> (Seq<char>, Style)
    decreases s.len(),
{
    if s.len() == 0 {
        (Seq::empty(), plain())
    } else {
        let prev = render_state(s.drop_last());
        let esc = escape_state(s.drop_last());
        let c = s.last();
        if c == ESC {
            prev
        } else if esc.0 {
            let full = esc.1.push(c);
            if c == 'm' && full.len() > 2 {
                let next = sgr_style(params_of(full), prev.1);
                (prev.0 + restyle(prev.1, next), next)
            } else {
                prev
            }
        } else {
            (prev.0 + escape_char(c), prev.1)
        }
    }
}

/// The markup for a line of escape-laden text: its literal characters
/// HTML-escaped, with one flat `<span>` region for each run in one style,
/// and the last region closed at the end.
pub open spec fn ansi_html(s: Seq<char>) -> Seq<char> {
    let st = render_state(s);
    if is_plain(st.1) {
        st.0
    } else {
        st.0 + span_close()
    }
}

fn is_plain_style(st: Style) -> (r: bool)
    ensures
        r == is_plain(st),
{
    st.fg.is_none() && st.bg.is_none()
}

fn push_span_open(out: &mut Vec<char>, st: Style)
    ensures
        final(out)@ == old(out)@ + span_open(st),
{
    let ghost start = out@;
    push_str(out, "<span style='");
    let ghost a = out@;
    match st.bg {
        Some(c) => {
            push_str(out, "background:");
            push_hex_color(out, c);
            out.push(';');
        },
        None => {},
    }
    let ghost b = out@;
    match st.fg {
        Some(c) => {
            push_str(out, "color:");
            push_hex_color(out, c);
            out.push(';');
        },
        None => {},
    }
    let ghost f = out@;
    push_str(out, "'>");
    assert(b =~= a + (match st.bg {
        Some(c) => "background:"@ + hex_color(c) + seq![';'],
        None => Seq::<char>::empty(),
    }));
    assert(f =~= b + (match st.fg {
        Some(c) => "color:"@ + hex_color(c) + seq![';'],
        None => Seq::<char>::empty(),
    }));
    assert(out@ =~= start + span_open(st));
}

fn push_restyle(out: &mut Vec<char>, from: Style, to: Style)
    ensures
        final(out)@ == old(out)@ + restyle(from, to),
{
    if to == from {
        assert(out@ =~= out@ + restyle(from, to));
        return;
    }
    let ghost start = out@;
    if !is_plain_style(from) {
        push_str(out, "</span>");
    }
    let ghost mid = out@;
    if !is_plain_style(to) {
        push_span_open(out, to);
    }
    assert(mid =~= start + (if is_plain(from) { Seq::empty() } else { span_close() }));
    assert(out@ =~= start + restyle(from, to));
}

/// Renders one line of escape-laden text as markup.
pub fn ansi_to_html_chars(input: &Vec<char>) -> (r: Vec<char>)
    ensures
        r@ == ansi_html(input@),
{
    let mut out: Vec<char> = Vec::new();
    let mut style = Style { fg: None, bg: None };
    let mut in_escape = false;
    let mut buf: Vec<char> = Vec::new();
    let mut i: usize = 0;
    while i < input.len()
        invariant
            0 <= i <= input.len(),
            (out@, style) == render_state(input@.take(i as int)),
            (in_escape, buf@) == escape_state(input@.take(i as int)),
        decreases input.len() - i,
    {
        let c = input[i];
        assert(input@.take(i as int + 1).drop_last() =~= input@.take(i as int));
        if c == ESC {
            in_escape = true;
            buf = Vec::new();
            buf.push(c);
            assert(buf@ =~= seq![ESC]);
        } else if in_escape {
            buf.push(c);
            if c == 'm' {
                if buf.len() > 2 {
                    let params = crate::text::slice_of(&buf, 2, buf.len() - 1);
                    let next = parse_ansi_codes(&params, style);
                    push_restyle(&mut out, style, next);
                    style = next;
                }
                in_escape = false;
            }
        } else {
            push_escaped(&mut out, c);
        }
        i += 1;
    }
    assert(input@.take(input.len() as int) =~= input@);
    if !is_plain_style(style) {
        push_str(&mut out, "</span>");
    }
    out
}

/// Renders one line of escape-laden text as markup.
pub fn ansi_to_html(input: &str) -> (r: String)
    ensures
        r@ == ansi_html(input@),
{
    let cs = chars_of(input);
    let out = ansi_to_html_chars(&cs);
    string_of(out.as_slice())
}

// ---------------------------------------------------------------------------
// Row background

/// The first `48;2;r;g;b` in `parts[i..]`.
pub open spec fn truecolor_background(parts: Seq<Seq<char>>, i: int) -> Option<Rgb>
    decreases parts.len() - i,
{
    if i < 0 || i >= parts.len() {
        None
    } else if parts[i] == seq!['4', '8'] && i + 4 < parts.len() && parts[i + 1] == seq!['2'] {
        Some(truecolor_at(parts, i))
    } else {
        truecolor_background(parts, i + 1)
    }
}

/// The first truecolor background set by an escape sequence of a prefix.
pub open spec fn background_of(s: Seq<char>) -> Option<Rgb>
    decreases s.len(),
{
    if s.len() == 0 {
        None
    } else {
        let prev = background_of(s.drop_last());
        let esc = escape_state(s.drop_last());
        let c = s.last();
        if prev is Some {
            prev
        } else if c != ESC && esc.0 && c == 'm' && esc.1.push(c).len() > 2 {
            truecolor_background(split_on(params_of(esc.1.push(c)), ';'), 0)
        } else {
            None
        }
    }
}

fn find_truecolor_background(params: &Vec<char>) -> (r: Option<Rgb>)
    ensures
        r == truecolor_background(split_on(params@, ';'), 0),
{
    let parts = split_chars(params, ';');
    let ghost vs = views(parts@);
    let mut i: usize = 0;
    while i < parts.len()
        invariant
            vs == views(parts@),
            vs == split_on(params@, ';'),
            i <= parts.len(),
            truecolor_background(vs, i as int) == truecolor_background(vs, 0),
        decreases parts.len() - i,
    {
        assert(vs[i as int] == parts[i as int]@);
        if is_text2(&parts[i], '4', '8') && parts.len() - i > 4 && is_text1(&parts[i + 1], '2') {
            assert(vs[i + 1] == parts[i + 1]@);
            assert(vs[i + 2] == parts[i + 2]@);
            assert(vs[i + 3] == parts[i + 3]@);
            assert(vs[i + 4] == parts[i + 4]@);
            return Some(
                Rgb {
                    r: parse_component(&parts[i + 2]),
                    g: parse_component(&parts[i + 3]),
                    b: parse_component(&parts[i + 4]),
                },
            );
        }
        i += 1;
    }
    None
}

/// The first truecolor background (`48;2;r;g;b`) that an escape sequence of
/// `ansi` sets, if any.
pub fn extract_line_background(ansi: &Vec<char>) -> (r: Option<Rgb>)
    ensures
        r == background_of(ansi@),
{
    let mut found: Option<Rgb> = None;
    let mut in_escape = false;
    let mut buf: Vec<char> = Vec::new();
    let mut i: usize = 0;
    while i < ansi.len()
        invariant
            0 <= i <= ansi.len(),
            found == background_of(ansi@.take(i as int)),
            (in_escape, buf@) == escape_state(ansi@.take(i as int)),
        decreases ansi.len() - i,
    {
        let c = ansi[i];
        assert(ansi@.take(i as int + 1).drop_last() =~= ansi@.take(i as int));
        if c == ESC {
            in_escape = true;
            buf = Vec::new();
            buf.push(c);
            assert(buf@ =~= seq![ESC]);
        } else if in_escape {
            buf.push(c);
            if c == 'm' {
                if found.is_none() && buf.len() > 2 {
                    let params = crate::text::slice_of(&buf, 2, buf.len() - 1);
                    found = find_truecolor_background(&params);
                }
                in_escape = false;
            }
        }
        i += 1;
    }
    assert(ansi@.take(ansi.len() as int) =~= ansi@);
    found
}

} // verus!
