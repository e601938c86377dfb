//! Layout of one slide as a sequence of terminal directives: title, body
//! lines, footer and progress bar.
use crate::classify::{classify, classify_spec};
use crate::text::{decimal, decimal_string, is_blank, is_whitespace, repeat_char, split_lines, text_lines};
use crate::theme::{Rgb, Theme};
use vstd::prelude::*;

verus! {

/// One step of drawing on a terminal.
#[derive(Debug)]
pub enum Directive {
    /// Clear the whole screen.
    ClearAll,
    /// Move the cursor to a 1-based column and row.
    Goto(u16, u16),
    /// Turn bold on.
    Bold,
    /// Reset all styles.
    StyleReset,
    /// Set the foreground colour.
    Fg(Rgb),
    /// Reset the foreground colour to the terminal's default.
    FgReset,
    /// Write text at the cursor.
    Text(String),
}

/// The mathematical value of a `Directive`.
pub enum Op {
    ClearAll,
    Goto(u16, u16),
    Bold,
    StyleReset,
    Fg(Rgb),
    FgReset,
    Text(Seq<char>),
}

impl View for Directive {
    type V = Op;

    open spec fn view(&self) -> Op {
        match self {
            Directive::ClearAll => Op::ClearAll,
            Directive::Goto(c, r) => Op::Goto(*c, *r),
            Directive::Bold => Op::Bold,
            Directive::StyleReset => Op::StyleReset,
            Directive::Fg(c) => Op::Fg(*c),
            Directive::FgReset => Op::FgReset,
            Directive::Text(s) => Op::Text(s@),
        }
    }
}

/// The values of a sequence of directives.
pub open spec fn ops_of(ds: Seq<Directive>) -> Seq<Op> {
    ds.map_values(|d: Directive| d@)
}

/// The state that a slide is drawn from. It is well formed when the current
/// slide is one of the slides.
pub struct Presentation {
    pub slides: Vec<String>,
    pub current_slide: usize,
    pub title: Option<String>,
    pub theme: Theme,
}

/// Why a slide cannot be laid out.
#[derive(Clone, Copy, Debug, PartialEq, Eq, Structural)]
pub enum RenderError {
    /// The presentation holds no slide.
    NoSlides,
    /// The current slide index is not below the number of slides.
    SlideOutOfRange,
    /// The terminal has fewer than two rows: no room for footer and bar.
    TerminalTooSmall,
}

/// The row of the first body line.
pub const FIRST_BODY_ROW: u16 = 4;

/// The largest number of body lines: rows run up to `u16::MAX`.
pub const MAX_BODY_LINES: usize = 65532;

/// The character that fills the progress bar.
pub const BAR_CHAR: char = '\u{eacc}';

/// Left padding that centres a text of `len` characters in `width` columns;
/// a text wider than the screen is not padded and overflows to the right.
pub open spec fn padding(len: nat, width: nat) -> nat {
    if len <= width {
        ((width - len) / 2) as nat
    } else {
        0
    }
}

/// A text centred on `row`, bold, in `color`.
pub open spec fn centered_ops(text: Seq<char>, width: nat, row: u16, color: Rgb) -> Seq<Op> {
    seq![
        Op::Goto(1, row),
        Op::Bold,
        Op::Fg(color),
        Op::Text(repeat_char(' ', padding(text.len(), width))),
        Op::Text(text),
        Op::FgReset,
        Op::StyleReset,
    ]
}

/// One body line on `row`, bold: a heading in its level's colour, without its
/// marker; body text in the default colour.
pub open spec fn line_ops(line: Seq<char>, row: u16, theme: Theme) -> Seq<Op> {
    let c = classify_spec(line);
    let color = match c.1 {
        Some(h) => Op::Fg(h.spec_color(theme)),
        None => Op::FgReset,
    };
    seq![
        Op::Bold,
        Op::Goto(1, row),
        color,
        Op::Text(c.0),
        Op::FgReset,
        Op::StyleReset,
        Op::Text(seq!['\n']),
    ]
}

/// Body lines on consecutive rows from `FIRST_BODY_ROW` on.
pub open spec fn body_ops(lines: Seq<Seq<char>>, theme: Theme) -> Seq<Op>
    decreases lines.len(),
{
    if lines.len() == 0 {
        seq![]
    } else {
        body_ops(lines.drop_last(), theme) + line_ops(
            lines.last(),
            (FIRST_BODY_ROW + lines.len() - 1) as u16,
            theme,
        )
    }
}

/// Number of blank lines at the start of `ls`.
pub open spec fn blank_lead(ls: Seq<Seq<char>>) -> nat
    decreases ls.len(),
{
    if ls.len() > 0 && is_blank(ls[0]) {
        1 + blank_lead(ls.drop_first())
    } else {
        0
    }
}

/// The lines of a slide that are drawn: its lines from the first that is not
/// blank on, as many as there are rows for.
pub open spec fn shown_lines(text: Seq<char>) -> Seq<Seq<char>> {
    let ls = text_lines(text);
    let rest = ls.skip(blank_lead(ls) as int);
    if rest.len() <= MAX_BODY_LINES {
        rest
    } else {
        rest.take(MAX_BODY_LINES as int)
    }
}

/// The footer: `"<index + 1>/<total> slides"`.
pub open spec fn footer_text(index: nat, total: nat) -> Seq<char> {
    decimal(index + 1) + seq!['/'] + decimal(total) + seq![' ', 's', 'l', 'i', 'd', 'e', 's']
}

/// Filled cells of the progress bar: `floor((index + 1) / total * width)`.
pub open spec fn filled(index: nat, total: nat, width: nat) -> nat {
    ((index + 1) * width / total) as nat
}

/// The row below the last one, where the cursor is left.
pub open spec fn row_below(height: u16) -> u16 {
    if height < u16::MAX {
        (height + 1) as u16
    } else {
        height
    }
}

/// The progress bar on the last row: the filled cells in `color`, then blanks
/// up to the width; the cursor is left at the start of the row below.
pub open spec fn bar_ops(index: nat, total: nat, width: u16, height: u16, color: Rgb) -> Seq<Op> {
    let f = filled(index, total, width as nat);
    seq![
        Op::Goto(1, height),
        Op::Fg(color),
        Op::Text(repeat_char(BAR_CHAR, f)),
        Op::FgReset,
        Op::Text(repeat_char(' ', (width - f) as nat)),
        Op::Goto(1, row_below(height)),
    ]
}

/// The title centred on the first row, in the theme's title colour, if there
/// is a title.
pub open spec fn title_ops(title: Option<String>, width: u16, theme: Theme) -> Seq<Op> {
    match title {
        Some(t) => centered_ops(t@, width as nat, 1, theme.title_color()),
        None => seq![],
    }
}

/// The whole frame of the current slide on a `width` x `height` terminal:
/// clear and home, title, body, footer on the second-to-last row, progress bar
/// on the last.
pub open spec fn frame_ops(p: Presentation, width: u16, height: u16) -> Seq<Op> {
    let index = p.current_slide as nat;
    let total = p.slides@.len();
    seq![Op::ClearAll, Op::Goto(1, 1)] + title_ops(p.title, width, p.theme) + body_ops(
        shown_lines(p.slides@[index as int]@),
        p.theme,
    ) + centered_ops(
        footer_text(index, total),
        width as nat,
        (height - 1) as u16,
        p.theme.accent_color(),
    ) + bar_ops(index, total, width, height, p.theme.accent_color())
}

/// The error, if any, that laying out `p` on a terminal of `height` rows gives.
pub open spec fn layout_error(p: Presentation, height: u16) -> Option<RenderError> {
    if p.slides@.len() == 0 {
        Some(RenderError::NoSlides)
    } else if p.current_slide >= p.slides@.len() {
        Some(RenderError::SlideOutOfRange)
    } else if height < 2 {
        Some(RenderError::TerminalTooSmall)
    } else {
        None
    }
}

proof fn lemma_ops_push(ds: Seq<Directive>, d: Directive)
    ensures
        ops_of(ds.push(d)) == ops_of(ds).push(d@),
{
    assert(ops_of(ds.push(d)) =~= ops_of(ds).push(d@));
}

fn emit(out: &mut Vec<Directive>, d: Directive)
    ensures
        ops_of(final(out)@) == ops_of(old(out)@).push(d@),
{
    proof {
        lemma_ops_push(old(out)@, d);
    }
    out.push(d);
}

/// `n` copies of the one-character string `c`.
fn repeat_string(c: &str, n: usize) -> (r: String)
    requires
        c@.len() == 1,
    ensures
        r@ == repeat_char(c@[0], n as nat),
{
    let mut r = String::new();
    let mut i: usize = 0;
    while i < n
        invariant
            c@.len() == 1,
            i <= n,
            r@ == repeat_char(c@[0], i as nat),
        decreases n - i,
    {
        r.append(c);
        i = i + 1;
        assert(r@ =~= repeat_char(c@[0], i as nat));
    }
    r
}

/// `n` spaces.
pub fn spaces(n: usize) -> (r: String)
    ensures
        r@ == repeat_char(' ', n as nat),
{
    proof {
        reveal_strlit(" ");
    }
    repeat_string(" ", n)
}

/// `n` cells of the progress bar's fill.
pub fn bar_fill(n: usize) -> (r: String)
    ensures
        r@ == repeat_char(BAR_CHAR, n as nat),
{
    proof {
        reveal_strlit("\u{eacc}");
    }
    repeat_string("\u{eacc}", n)
}

/// Left padding that centres `len` characters in `width` columns.
pub fn center_padding(len: usize, width: u16) -> (r: usize)
    ensures
        r == padding(len as nat, width as nat),
{
    if len <= width as usize {
        (width as usize - len) / 2
    } else {
        0
    }
}

/// Appends the directives of `centered_ops` for `text`.
fn render_text_centered(out: &mut Vec<Directive>, text: &str, width: u16, row: u16, color: Rgb)
    ensures
        ops_of(final(out)@) == ops_of(old(out)@) + centered_ops(text@, width as nat, row, color),
{
    let pad = center_padding(text.unicode_len(), width);
    emit(out, Directive::Goto(1, row));
    emit(out, Directive::Bold);
    emit(out, Directive::Fg(color));
    emit(out, Directive::Text(spaces(pad)));
    emit(out, Directive::Text(String::from_str(text)));
    emit(out, Directive::FgReset);
    emit(out, Directive::StyleReset);
    assert(ops_of(out@) =~= ops_of(old(out)@) + centered_ops(text@, width as nat, row, color));
}

/// The footer text for slide `index` of `total`.
pub fn footer(index: usize, total: usize) -> (r: String)
    requires
        index < total,
    ensures
        r@ == footer_text(index as nat, total as nat),
{
    let mut r = decimal_string(index + 1);
    proof {
        reveal_strlit("/");
        reveal_strlit(" slides");
    }
    r.append("/");
    let t = decimal_string(total);
    r.append(t.as_str());
    r.append(" slides");
    assert(r@ =~= footer_text(index as nat, total as nat));
    r
}

/// Filled cells of the progress bar for slide `index` of `total` on a bar of
/// `width` cells.
pub fn progress_filled(index: usize, total: usize, width: u16) -> (r: usize)
    requires
        index < total,
    ensures
        r == filled(index as nat, total as nat, width as nat),
        r <= width,
{
    let a: u128 = index as u128 + 1;
    let w: u128 = width as u128;
    let t: u128 = total as u128;
    assert(a * w <= t * w) by (nonlinear_arith)
        requires
            a <= t,
    ;
    assert(a * w <= 0x1_0000_0000_0000_0000 * 0x1_0000) by (nonlinear_arith)
        requires
            a <= 0x1_0000_0000_0000_0000,
            w <= 0x1_0000,
    ;
    let q = a * w / t;
    assert(q <= w) by (nonlinear_arith)
        requires
            q == (a * w) as int / t as int,
            a * w <= t * w,
            t > 0,
    ;
    q as usize
}

/// Whether `s` holds whitespace only.
pub fn is_blank_str(s: &str) -> (r: bool)
    ensures
        r == is_blank(s@),
{
    let n = s.unicode_len();
    let mut i: usize = 0;
    while i < n && is_whitespace(s.get_char(i))
        invariant
            n == s@.len(),
            i <= n,
            forall|j: int| 0 <= j < i ==> crate::text::is_ws(#[trigger] s@[j]),
        decreases n - i,
    {
        i = i + 1;
    }
    i == n
}

proof fn lemma_blank_lead_unique(ls: Seq<Seq<char>>, n: nat)
    requires
        n <= ls.len(),
        forall|i: int| 0 <= i < n ==> is_blank(#[trigger] ls[i]),
        n < ls.len() ==> !is_blank(ls[n as int]),
    ensures
        blank_lead(ls) == n,
    decreases ls.len(),
{
    if n > 0 {
        assert(is_blank(ls[0]));
        let t = ls.drop_first();
        assert forall|i: int| 0 <= i < n - 1 implies is_blank(#[trigger] t[i]) by {
            assert(t[i] == ls[i + 1]);
        }
        if n - 1 < t.len() {
            assert(t[n - 1] == ls[n as int]);
        }
        lemma_blank_lead_unique(t, (n - 1) as nat);
    }
}

/// Appends the body lines of `text`, as `body_ops(shown_lines(text))` gives
/// them.
fn emit_body(out: &mut Vec<Directive>, text: &str, theme: &Theme)
    ensures
        ops_of(final(out)@) == ops_of(old(out)@) + body_ops(shown_lines(text@), *theme),
{
    let lines = split_lines(text);
    let ghost ls = text_lines(text@);
    assert(forall|k: int| 0 <= k < lines.len() ==> (#[trigger] lines@[k])@ == ls[k]) by {
        assert forall|k: int| 0 <= k < lines.len() implies (#[trigger] lines@[k])@ == ls[k] by {
            assert(lines@.map_values(|l: String| l@)[k] == lines@[k]@);
        }
    }
    let n = lines.len();
    let mut first: usize = 0;
    while first < n && is_blank_str(lines[first].as_str())
        invariant
            n == lines.len() == ls.len(),
            first <= n,
            forall|j: int| 0 <= j < first ==> is_blank(#[trigger] ls[j]),
            forall|k: int| 0 <= k < lines.len() ==> (#[trigger] lines@[k])@ == ls[k],
        decreases n - first,
    {
        first = first + 1;
    }
    proof {
        lemma_blank_lead_unique(ls, first as nat);
    }
    let ghost rest = ls.skip(first as int);
    let count = if n - first <= MAX_BODY_LINES {
        n - first
    } else {
        MAX_BODY_LINES
    };
    let ghost shown = shown_lines(text@);
    assert(shown.len() == count);
    let ghost start = ops_of(out@);
    let mut k: usize = 0;
    assert(shown.take(0) =~= Seq::<Seq<char>>::empty());
    while k < count
        invariant
            n == lines.len() == ls.len(),
            first + count <= n,
            count <= MAX_BODY_LINES,
            shown == shown_lines(text@),
            shown.len() == count,
            forall|j: int| 0 <= j < count ==> #[trigger] shown[j] == ls[first + j],
            forall|k: int| 0 <= k < lines.len() ==> (#[trigger] lines@[k])@ == ls[k],
            k <= count,
            ops_of(out@) == start + body_ops(shown.take(k as int), *theme),
        decreases count - k,
    {
        let (shown_text, header) = classify(lines[first + k].as_str());
        let row: u16 = (FIRST_BODY_ROW as usize + k) as u16;
        let ghost before = ops_of(out@);
        let ghost color = match header {
            Some(h) => Op::Fg(h.spec_color(*theme)),
            None => Op::FgReset,
        };
        emit(out, Directive::Bold);
        emit(out, Directive::Goto(1, row));
        match header {
            Some(h) => emit(out, Directive::Fg(h.color(theme))),
            None => emit(out, Directive::FgReset),
        }
        assert(ops_of(out@) =~= before + seq![Op::Bold, Op::Goto(1, row), color]);
        emit(out, Directive::Text(shown_text));
        emit(out, Directive::FgReset);
        emit(out, Directive::StyleReset);
        proof {
            reveal_strlit("\n");
        }
        let nl = String::from_str("\n");
        assert(nl@ =~= seq!['\n']);
        emit(out, Directive::Text(nl));
        proof {
            let t = shown.take(k + 1);
            assert(t.drop_last() =~= shown.take(k as int));
            assert(t.last() == shown[k as int]);
            assert(shown[k as int] == lines@[first + k]@);
            assert(ops_of(out@) =~= before + seq![
                Op::Bold,
                Op::Goto(1, row),
                color,
                Op::Text(shown_text@),
                Op::FgReset,
                Op::StyleReset,
                Op::Text(seq!['\n']),
            ]);
            assert(line_ops(shown[k as int], row, *theme) == seq![
                Op::Bold,
                Op::Goto(1, row),
                color,
                Op::Text(shown_text@),
                Op::FgReset,
                Op::StyleReset,
                Op::Text(seq!['\n']),
            ]);
            assert(body_ops(t, *theme) == body_ops(shown.take(k as int), *theme) + line_ops(
                shown[k as int],
                row,
                *theme,
            ));
            assert(ops_of(out@) =~= start + body_ops(t, *theme));
        }
        k = k + 1;
    }
    assert(shown.take(count as int) =~= shown);
}

/// Appends the directives of `bar_ops`.
fn render_progress_bar(
    out: &mut Vec<Directive>,
    index: usize,
    total: usize,
    width: u16,
    height: u16,
    color: Rgb,
)
    requires
        index < total,
    ensures
        ops_of(final(out)@) == ops_of(old(out)@) + bar_ops(
            index as nat,
            total as nat,
            width,
            height,
            color,
        ),
{
    let f = progress_filled(index, total, width);
    let below: u16 = if height < u16::MAX {
        height + 1
    } else {
        height
    };
    emit(out, Directive::Goto(1, height));
    emit(out, Directive::Fg(color));
    emit(out, Directive::Text(bar_fill(f)));
    emit(out, Directive::FgReset);
    emit(out, Directive::Text(spaces(width as usize - f)));
    emit(out, Directive::Goto(1, below));
    assert(ops_of(out@) =~= ops_of(old(out)@) + bar_ops(
        index as nat,
        total as nat,
        width,
        height,
        color,
    ));
}

/// Lays out the current slide of `p` on a `width` x `height` terminal.
pub fn slide_directives(p: &Presentation, width: u16, height: u16) -> (r: Result<
    Vec<Directive>,
    RenderError,
>)
    ensures
        match r {
            Ok(ds) => layout_error(*p, height) is None && ops_of(ds@) == frame_ops(*p, width, height),
            Err(e) => layout_error(*p, height) == Some(e),
        },
{
    let total = p.slides.len();
    if total == 0 {
        return Err(RenderError::NoSlides);
    }
    let index = p.current_slide;
    if index >= total {
        return Err(RenderError::SlideOutOfRange);
    }
    if height < 2 {
        return Err(RenderError::TerminalTooSmall);
    }
    let mut out: Vec<Directive> = Vec::new();
    emit(&mut out, Directive::ClearAll);
    emit(&mut out, Directive::Goto(1, 1));
    assert(ops_of(out@) =~= seq![Op::ClearAll, Op::Goto(1, 1)]);
    match &p.title {
        Some(t) => render_text_centered(&mut out, t.as_str(), width, 1, p.theme.red),
        None => {},
    }
    assert(ops_of(out@) =~= seq![Op::ClearAll, Op::Goto(1, 1)] + title_ops(p.title, width, p.theme));
    emit_body(&mut out, p.slides[index].as_str(), &p.theme);
    let text = footer(index, total);
    render_text_centered(&mut out, text.as_str(), width, height - 1, p.theme.green);
    render_progress_bar(&mut out, index, total, width, height, p.theme.green);
    assert(ops_of(out@) =~= frame_ops(*p, width, height));
    Ok(out)
}

/// A text no wider than the screen is padded by half the free columns,
/// rounded down, and padding and text together fit on the row.
pub proof fn lemma_centering(len: nat, width: nat)
    requires
        len <= width,
    ensures
        padding(len, width) == (width - len) / 2,
        padding(len, width) + len <= width,
{
}

/// The filled part of the progress bar never shrinks as the slide index grows.
pub proof fn lemma_progress_monotone(i: nat, j: nat, total: nat, width: nat)
    requires
        i <= j < total,
    ensures
        filled(i, total, width) <= filled(j, total, width),
{
    assert((i + 1) * width <= (j + 1) * width) by (nonlinear_arith)
        requires
            i <= j,
    ;
    vstd::arithmetic::div_mod::lemma_div_is_ordered(
        ((i + 1) * width) as int,
        ((j + 1) * width) as int,
        total as int,
    );
}

/// The last slide fills the whole bar; the first fills `width / total`
/// cells, and no slide fills more than the width.
pub proof fn lemma_progress_ends(index: nat, total: nat, width: nat)
    requires
        index < total,
    ensures
        filled((total - 1) as nat, total, width) == width,
        filled(0, total, width) == width / total,
        filled(index, total, width) <= width,
{
    assert(((total - 1) as nat + 1) * width == total * width);
    assert((0nat + 1) * width == width) by (nonlinear_arith);
    vstd::arithmetic::div_mod::lemma_div_multiples_vanish(width as int, total as int);
    assert((index + 1) * width <= total * width) by (nonlinear_arith)
        requires
            index < total,
    ;
    vstd::arithmetic::div_mod::lemma_div_is_ordered(
        ((index + 1) * width) as int,
        (total * width) as int,
        total as int,
    );
}

/// Every frame ends with the progress bar, also when none of it is filled:
/// its filled cells and the blanks after them span the width.
pub proof fn lemma_bar_always_drawn(p: Presentation, width: u16, height: u16)
    requires
        layout_error(p, height) is None,
    ensures
        ({
            let f = frame_ops(p, width, height);
            let b = bar_ops(
                p.current_slide as nat,
                p.slides@.len(),
                width,
                height,
                p.theme.accent_color(),
            );
            &&& f.len() >= b.len()
            &&& f.subrange(f.len() - b.len(), f.len() as int) == b
        }),
        filled(p.current_slide as nat, p.slides@.len(), width as nat) + (width - filled(
            p.current_slide as nat,
            p.slides@.len(),
            width as nat,
        )) == width,
{
    let f = frame_ops(p, width, height);
    let b = bar_ops(p.current_slide as nat, p.slides@.len(), width, height, p.theme.accent_color());
    lemma_progress_ends(p.current_slide as nat, p.slides@.len(), width as nat);
    assert(f.subrange(f.len() - b.len(), f.len() as int) =~= b);
}

} // verus!
