//! Terminal encoding of directives, through termion's escape sequences, and
//! the frames that a caller writes to the terminal and flushes once.
use crate::layout::{ops_of, slide_directives, frame_ops, layout_error, Directive, Op, Presentation, RenderError};
use crate::text::decimal;
use crate::theme::Rgb;
use vstd::prelude::*;

verus! {

/// A control sequence: ESC `[` followed by `body`.
pub open spec fn csi(body: Seq<char>) -> Seq<char> {
    seq!['\x1b', '['] + body
}

/// The sequence that moves the cursor to column `col` of row `row`.
pub open spec fn goto_code(col: u16, row: u16) -> Seq<char> {
    csi(decimal(row as nat) + seq![';'] + decimal(col as nat) + seq!['H'])
}

/// The sequence that sets the foreground to a 24-bit colour.
pub open spec fn fg_code(c: Rgb) -> Seq<char> {
    csi(
        seq!['3', '8', ';', '2', ';'] + decimal(c.0 as nat) + seq![';'] + decimal(c.1 as nat)
            + seq![';'] + decimal(c.2 as nat) + seq!['m'],
    )
}

/// The characters that one directive writes.
pub open spec fn op_code(op: Op) -> Seq<char> {
    match op {
        Op::ClearAll => csi(seq!['2', 'J']),
        Op::Goto(c, r) => goto_code(c, r),
        Op::Bold => csi(seq!['1', 'm']),
        Op::StyleReset => csi(seq!['m']),
        Op::Fg(c) => fg_code(c),
        Op::FgReset => csi(seq!['3', '9', 'm']),
        Op::Text(s) => s,
    }
}

/// The characters that a sequence of directives writes, in order.
pub open spec fn encode_ops(ops: Seq<Op>) -> Seq<char>
    decreases ops.len(),
{
    if ops.len() == 0 {
        Seq::empty()
    } else {
        encode_ops(ops.drop_last()) + op_code(ops.last())
    }
}

/// Relies on termion's `clear::All`, whose text is ESC [ 2 J.
#[verifier::external_body]
fn clear_all_code() -> (r: String)
    ensures
        r@ == csi(seq!['2', 'J']),
{
    let s: &str = termion::clear::All.as_ref();
    String::from(s)
}

/// Relies on termion's `String::from(cursor::Goto(col, row))`: ESC [, the row
/// and the column in decimal separated by `;`, then `H`.
#[verifier::external_body]
fn goto_string(col: u16, row: u16) -> (r: String)
    ensures
        r@ == goto_code(col, row),
{
    String::from(termion::cursor::Goto(col, row))
}

/// Relies on termion's `style::Bold`, whose text is ESC [ 1 m.
#[verifier::external_body]
fn bold_code() -> (r: String)
    ensures
        r@ == csi(seq!['1', 'm']),
{
    let s: &str = termion::style::Bold.as_ref();
    String::from(s)
}

/// Relies on termion's `style::Reset`, whose text is ESC [ m.
#[verifier::external_body]
fn style_reset_code() -> (r: String)
    ensures
        r@ == csi(seq!['m']),
{
    let s: &str = termion::style::Reset.as_ref();
    String::from(s)
}

/// Relies on termion's `color::Rgb::fg_string`: ESC [ 38;2; then the three
/// components in decimal separated by `;`, then `m`.
#[verifier::external_body]
fn fg_string(c: Rgb) -> (r: String)
    ensures
        r@ == fg_code(c),
{
    termion::color::Rgb(c.0, c.1, c.2).fg_string()
}

/// Relies on termion's `color::Reset::fg_str`, whose text is ESC [ 39 m.
#[verifier::external_body]
fn fg_reset_code() -> (r: String)
    ensures
        r@ == csi(seq!['3', '9', 'm']),
{
    String::from(termion::color::Reset.fg_str())
}

/// The characters that `d` writes.
pub fn directive_code(d: &Directive) -> (r: String)
    ensures
        r@ == op_code(d@),
{
    match d {
        Directive::ClearAll => clear_all_code(),
        Directive::Goto(c, r) => goto_string(*c, *r),
        Directive::Bold => bold_code(),
        Directive::StyleReset => style_reset_code(),
        Directive::Fg(c) => fg_string(*c),
        Directive::FgReset => fg_reset_code(),
        Directive::Text(s) => s.clone(),
    }
}

/// The characters that `ds` writes, one directive after another.
pub fn encode(ds: &Vec<Directive>) -> (r: String)
    ensures
        r@ == encode_ops(ops_of(ds@)),
{
    let mut r = String::new();
    let mut i: usize = 0;
    assert(ops_of(ds@).take(0) =~= Seq::<Op>::empty());
    while i < ds.len()
        invariant
            i <= ds.len(),
            r@ == encode_ops(ops_of(ds@).take(i as int)),
        decreases ds.len() - i,
    {
        let code = directive_code(&ds[i]);
        r.append(code.as_str());
        proof {
            let t = ops_of(ds@).take(i + 1);
            assert(t.drop_last() =~= ops_of(ds@).take(i as int));
            assert(t.last() == ds@[i as int]@);
        }
        i = i + 1;
    }
    assert(ops_of(ds@).take(ds.len() as int) =~= ops_of(ds@));
    r
}

/// The frame of the current slide of `p` on a `width` x `height` terminal, to
/// be written and flushed at once.
pub fn render_slide(p: &Presentation, width: u16, height: u16) -> (r: Result<String, RenderError>)
    ensures
        match r {
            Ok(s) => layout_error(*p, height) is None && s@ == encode_ops(
                frame_ops(*p, width, height),
            ),
            Err(e) => layout_error(*p, height) == Some(e),
        },
{
    match slide_directives(p, width, height) {
        Ok(ds) => Ok(encode(&ds)),
        Err(e) => Err(e),
    }
}

/// Column at which a text of `len` characters ends just before the last
/// column of a `width`-wide screen; a text too wide for that starts at the
/// first column.
pub open spec fn top_right_column(len: nat, width: u16) -> u16 {
    if len < width {
        (width - len) as u16
    } else {
        1
    }
}

/// `text` on the first row, right-aligned, in `color`.
pub open spec fn top_right_ops(text: Seq<char>, width: u16, color: Rgb) -> Seq<Op> {
    seq![Op::Goto(top_right_column(text.len(), width), 1), Op::Fg(color), Op::Text(text), Op::FgReset]
}

/// The characters that draw `text` right-aligned on the first row of a
/// `width`-wide terminal, in `color`; the caller flushes them at once.
pub fn render_text_top_right(text: &str, width: u16, color: Rgb) -> (r: String)
    ensures
        r@ == encode_ops(top_right_ops(text@, width, color)),
{
    let len = text.unicode_len();
    let col: u16 = if len < width as usize {
        width - len as u16
    } else {
        1
    };
    let mut ds: Vec<Directive> = Vec::new();
    ds.push(Directive::Goto(col, 1));
    ds.push(Directive::Fg(color));
    ds.push(Directive::Text(String::from_str(text)));
    ds.push(Directive::FgReset);
    assert(ops_of(ds@) =~= top_right_ops(text@, width, color));
    encode(&ds)
}

} // verus!
