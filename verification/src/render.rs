//! Rendering one frame: composing glyph rows into lines, centering them,
//! and emitting the positioned writes that paint the countdown.
//!
//! A frame is a list of draw commands; each stands for moving the cursor to
//! a cell, clearing that terminal row and writing one line of text there.
//! The terminal shell executes frames verbatim, so everything the timer ever
//! shows is fixed here.

use vstd::prelude::*;
use vstd::string::StrSliceExecFns;
use vstd::string::StringExecFns;
use crate::clock::{decompose, digits, spec_padded_digits};
use crate::glyphs::{colon_row, digit_row, digit_rows, lemma_glyph_dims, rows_colon};
use crate::layout::{
    choose_layout, clamp_lines, field_width, hl_width, is_suppressed, spec_choose_layout,
    suppressed, Layout,
};

verus! {

/// One positioned write: clear the terminal row at `row`, move to `col`
/// and print `text`, in the accent style when `styled` holds.
pub struct Cmd {
    pub row: u64,
    pub col: u64,
    pub styled: bool,
    pub text: String,
}

impl View for Cmd {
    type V = (int, int, bool, Seq<char>);

    open spec fn view(&self) -> (int, int, bool, Seq<char>) {
        (self.row as int, self.col as int, self.styled, self.text@)
    }
}

/// The commands of a frame as the model values they stand for.
pub open spec fn cmd_views(cs: Seq<Cmd>) -> Seq<(int, int, bool, Seq<char>)> {
    cs.map_values(|c: Cmd| c@)
}

/// Everything one redraw writes: an optional whole-screen clear, then the
/// commands in order.
pub struct Frame {
    pub clear_all: bool,
    pub cmds: Vec<Cmd>,
}

/// What `textwrap::wrap` makes of a text at a given width; a function of
/// the two arguments alone.
pub uninterp spec fn wrap_of(text: Seq<char>, width: nat) -> Seq<Seq<char>>;

/// Relies on textwrap::wrap: word-wraps `text` to `width` columns; its
/// result depends only on the text and the width.
#[verifier::external_body]
fn wrap_text(text: &str, width: usize) -> (r: Vec<String>)
    ensures
        r@.map_values(|l: String| l@) == wrap_of(text@, width as nat),
{
    textwrap::wrap(text, width).into_iter().map(|l| l.into_owned()).collect()
}

/// Left padding that centers a line of `len` cells in `width` columns; a
/// line that does not fit is left where it is.
pub open spec fn pad(len: int, width: int) -> int {
    if width <= len {
        0
    } else {
        (width - len) / 2
    }
}

pub open spec fn spaces(n: int) -> Seq<char> {
    Seq::new(
        if n <= 0 {
            0
        } else {
            n as nat
        },
        |i: int| ' ',
    )
}

fn pad_cols(len: usize, width: u64) -> (p: u64)
    ensures
        p == pad(len as int, width as int),
{
    if width <= len as u64 {
        0
    } else {
        (width - len as u64) / 2
    }
}

/// Center `line` in `width` columns by prefixing spaces; a line at least
/// `width` wide comes back unchanged.
#[verifier::loop_isolation(false)]
pub fn center(line: &str, width: u16) -> (r: String)
    ensures
        r@ == spaces(pad(line@.len() as int, width as int)) + line@,
{
    let len: usize = line.unicode_len();
    let p: u64 = pad_cols(len, width as u64);
    let mut out: String = String::new();
    proof {
        reveal_strlit(" ");
        assert(" "@ =~= seq![' ']);
        assert(out@ =~= spaces(0));
    }
    let mut j: u64 = 0;
    while j < p
        invariant
            0 <= j <= p,
            out@ == spaces(j as int),
        decreases p - j,
    {
        out.append(" ");
        j = j + 1;
        proof {
            assert(out@ =~= spaces(j as int));
        }
    }
    out.append(line);
    out
}

/// The glyph rows of one field's digits laid side by side with one-column
/// gaps, row by row.
pub open spec fn joined_row(ds: Seq<u8>, r: int) -> Seq<char>
    decreases ds.len(),
{
    if ds.len() == 0 {
        Seq::<char>::empty()
    } else if ds.len() == 1 {
        digit_rows(ds[0] as int)[r]
    } else {
        joined_row(ds.drop_last(), r) + " "@ + digit_rows(ds.last() as int)[r]
    }
}

/// One row of one field's glyph line.
#[verifier::loop_isolation(false)]
fn field_row(ds: &Vec<u8>, r: usize) -> (out: String)
    requires
        r < 5,
        1 <= ds@.len(),
        forall|i: int| 0 <= i < ds@.len() ==> ds@[i] < 10,
    ensures
        out@ == joined_row(ds@, r as int),
{
    proof {
        reveal_strlit(" ");
    }
    let mut out: String = String::new();
    let first: &str = digit_row(ds[0], r);
    out.append(first);
    proof {
        assert(ds@.subrange(0, 1).len() == 1);
        assert(ds@.subrange(0, 1)[0] == ds@[0]);
        assert(Seq::<char>::empty() + digit_rows(ds@[0] as int)[r as int] =~= digit_rows(
            ds@[0] as int,
        )[r as int]);
        assert(out@ == joined_row(ds@.subrange(0, 1), r as int));
    }
    let mut i: usize = 1;
    while i < ds.len()
        invariant
            1 <= i <= ds@.len(),
            out@ == joined_row(ds@.subrange(0, i as int), r as int),
        decreases ds@.len() - i,
    {
        out.append(" ");
        let g: &str = digit_row(ds[i], r);
        out.append(g);
        proof {
            let pre = ds@.subrange(0, i as int);
            let ext = ds@.subrange(0, i + 1);
            assert(ext.drop_last() =~= pre);
            assert(ext.last() == ds@[i as int]);
            assert(ext.len() >= 2);
            assert(joined_row(ext, r as int) == joined_row(pre, r as int) + " "@ + digit_rows(
                ds@[i as int] as int,
            )[r as int]);
        }
        i = i + 1;
    }
    proof {
        assert(ds@.subrange(0, ds@.len() as int) =~= ds@);
    }
    out
}

/// Each digit glyph row spans five cells and each gap one, so one field's
/// glyph row is as wide as the layout engine counts it: six cells per digit
/// less the one missing trailing gap.
pub proof fn lemma_joined_row_width(ds: Seq<u8>, r: int)
    requires
        1 <= ds.len(),
        0 <= r < 5,
        forall|i: int| 0 <= i < ds.len() ==> ds[i] < 10,
    ensures
        joined_row(ds, r).len() == field_width(ds.len() as int),
    decreases ds.len(),
{
    lemma_glyph_dims();
    reveal_strlit(" ");
    if ds.len() == 1 {
    } else {
        assert(forall|i: int| 0 <= i < ds.drop_last().len() ==> ds.drop_last()[i] < 10);
        lemma_joined_row_width(ds.drop_last(), r);
        assert(" "@.len() == 1);
        assert(digit_rows(ds.last() as int)[r].len() == 5);
    }
}

/// The rendered horizontal time line is exactly as wide as the horizontal
/// candidate box the layout engine computes, so a line centered with the
/// chosen box's padding really is centered.
pub proof fn lemma_time_row_matches_layout_width(h: Seq<u8>, m: Seq<u8>, s: Seq<u8>, r: int)
    requires
        1 <= h.len(),
        1 <= m.len(),
        1 <= s.len(),
        0 <= r < 5,
        forall|i: int| 0 <= i < h.len() ==> h[i] < 10,
        forall|i: int| 0 <= i < m.len() ==> m[i] < 10,
        forall|i: int| 0 <= i < s.len() ==> s[i] < 10,
    ensures
        time_row(h, m, s, r).len() == hl_width(h, m, s),
{
    lemma_glyph_dims();
    if !suppressed(h) {
        lemma_joined_row_width(h, r);
    }
    if !suppressed(m) {
        lemma_joined_row_width(m, r);
    }
    lemma_joined_row_width(s, r);
    assert(rows_colon()[r].len() == 5);
}

/// One row of the whole horizontal time line: present fields side by side,
/// a separator glyph after the hour and the minute fields.
pub open spec fn time_row(h: Seq<u8>, m: Seq<u8>, s: Seq<u8>, r: int) -> Seq<char> {
    (if suppressed(h) {
        Seq::<char>::empty()
    } else {
        joined_row(h, r) + rows_colon()[r]
    }) + (if suppressed(m) {
        Seq::<char>::empty()
    } else {
        joined_row(m, r) + rows_colon()[r]
    }) + joined_row(s, r)
}

/// A suppressed hour or minute field leaves no trace in the rendered time
/// line: with both suppressed, the line is the seconds block alone.
pub proof fn lemma_suppression_not_rendered(h: Seq<u8>, m: Seq<u8>, s: Seq<u8>, r: int)
    ensures
        suppressed(h) && suppressed(m) ==> time_row(h, m, s, r) == joined_row(s, r),
        suppressed(h) ==> time_row(h, m, s, r) == time_row(seq![0u8, 0u8], m, s, r),
        suppressed(m) ==> time_row(h, m, s, r) == time_row(h, seq![0u8, 0u8], s, r),
{
    if suppressed(h) && suppressed(m) {
        assert(time_row(h, m, s, r) =~= joined_row(s, r));
    }
    if suppressed(h) {
        assert(time_row(h, m, s, r) =~= time_row(seq![0u8, 0u8], m, s, r));
    }
    if suppressed(m) {
        assert(time_row(h, m, s, r) =~= time_row(h, seq![0u8, 0u8], s, r));
    }
}

fn time_line(h: &Vec<u8>, m: &Vec<u8>, s: &Vec<u8>, r: usize) -> (out: String)
    requires
        r < 5,
        1 <= h@.len(),
        1 <= m@.len(),
        1 <= s@.len(),
        forall|i: int| 0 <= i < h@.len() ==> h@[i] < 10,
        forall|i: int| 0 <= i < m@.len() ==> m@[i] < 10,
        forall|i: int| 0 <= i < s@.len() ==> s@[i] < 10,
    ensures
        out@ == time_row(h@, m@, s@, r as int),
{
    let mut out: String = String::new();
    if !is_suppressed(h) {
        let hr = field_row(h, r);
        out.append(hr.as_str());
        let c: &str = colon_row(r);
        out.append(c);
    }
    if !is_suppressed(m) {
        let mr = field_row(m, r);
        out.append(mr.as_str());
        let c: &str = colon_row(r);
        out.append(c);
    }
    let sr = field_row(s, r);
    out.append(sr.as_str());
    proof {
        assert(out@ =~= time_row(h@, m@, s@, r as int));
    }
    out
}

/// The decimal text of `n`.
pub open spec fn digit_to_char(d: int) -> char {
    if d == 0 {
        '0'
    } else if d == 1 {
        '1'
    } else if d == 2 {
        '2'
    } else if d == 3 {
        '3'
    } else if d == 4 {
        '4'
    } else if d == 5 {
        '5'
    } else if d == 6 {
        '6'
    } else if d == 7 {
        '7'
    } else if d == 8 {
        '8'
    } else {
        '9'
    }
}

pub open spec fn dec_str(n: nat) -> Seq<char>
    decreases n,
{
    if n < 10 {
        seq![digit_to_char(n as int)]
    } else {
        dec_str(n / 10).push(digit_to_char((n % 10) as int))
    }
}

fn digit_str(d: u8) -> (s: &'static str)
    requires
        d < 10,
    ensures
        s@ == seq![digit_to_char(d as int)],
{
    proof {
        reveal_strlit("0");
        reveal_strlit("1");
        reveal_strlit("2");
        reveal_strlit("3");
        reveal_strlit("4");
        reveal_strlit("5");
        reveal_strlit("6");
        reveal_strlit("7");
        reveal_strlit("8");
        reveal_strlit("9");
    }
    match d {
        0 => "0",
        1 => "1",
        2 => "2",
        3 => "3",
        4 => "4",
        5 => "5",
        6 => "6",
        7 => "7",
        8 => "8",
        _ => "9",
    }
}

/// The decimal text of a number, for the too-small diagnostic.
pub fn u64_to_string(n: u64) -> (r: String)
    ensures
        r@ == dec_str(n as nat),
    decreases n,
{
    if n < 10 {
        let s: &str = digit_str(n as u8);
        let r = s.to_owned();
        proof {
            assert(r@ =~= dec_str(n as nat));
        }
        r
    } else {
        let mut r = u64_to_string(n / 10);
        let s: &str = digit_str((n % 10) as u8);
        r.append(s);
        proof {
            assert(r@ =~= dec_str(n as nat));
        }
        r
    }
}

/// The diagnostic line shown when neither arrangement fits.
pub open spec fn diag_text(term: (u16, u16), hl: (u64, u64), vl: (u64, u64)) -> Seq<char> {
    "Error: terminal too small. Current: "@ + dec_str(term.0 as nat) + "x"@ + dec_str(
        term.1 as nat,
    ) + " Horizontal: "@ + dec_str(hl.0 as nat) + "x"@ + dec_str(hl.1 as nat) + " Vertical: "@
        + dec_str(vl.0 as nat) + "x"@ + dec_str(vl.1 as nat)
}

fn diag_line(term: &(u16, u16), hl: (u64, u64), vl: (u64, u64)) -> (out: String)
    ensures
        out@ == diag_text(*term, hl, vl),
{
    let mut out: String = "Error: terminal too small. Current: ".to_owned();
    let t0 = u64_to_string(term.0 as u64);
    out.append(t0.as_str());
    out.append("x");
    let t1 = u64_to_string(term.1 as u64);
    out.append(t1.as_str());
    out.append(" Horizontal: ");
    let a0 = u64_to_string(hl.0);
    out.append(a0.as_str());
    out.append("x");
    let a1 = u64_to_string(hl.1);
    out.append(a1.as_str());
    out.append(" Vertical: ");
    let b0 = u64_to_string(vl.0);
    out.append(b0.as_str());
    out.append("x");
    let b1 = u64_to_string(vl.1);
    out.append(b1.as_str());
    proof {
        assert(out@ =~= diag_text(*term, hl, vl));
    }
    out
}

/// The time rows of the horizontal arrangement, centered, top row `top`.
pub open spec fn horizontal_digit_cmds(
    h: Seq<u8>,
    m: Seq<u8>,
    s: Seq<u8>,
    width: int,
    top: int,
) -> Seq<(int, int, bool, Seq<char>)> {
    Seq::new(
        5,
        |r: int|
            (top + r, pad(time_row(h, m, s, r).len() as int, width), false, time_row(h, m, s, r)),
    )
}

/// Message lines of the horizontal arrangement: each centered, all on the
/// row right below the glyph block.
pub open spec fn horizontal_msg_cmds(msg: Seq<Seq<char>>, width: int, row: int) -> Seq<
    (int, int, bool, Seq<char>),
> {
    Seq::new(msg.len(), |i: int| (row, pad(msg[i].len() as int, width), true, msg[i]))
}

/// One stacked glyph block, top row `start`.
pub open spec fn block_cmds(ds: Seq<u8>, width: int, start: int) -> Seq<
    (int, int, bool, Seq<char>),
> {
    Seq::new(
        5,
        |r: int| (start + r, pad(joined_row(ds, r).len() as int, width), false, joined_row(ds, r)),
    )
}

/// Message lines of the vertical arrangement, one per row from `start`.
pub open spec fn vertical_msg_cmds(msg: Seq<Seq<char>>, width: int, start: int) -> Seq<
    (int, int, bool, Seq<char>),
> {
    Seq::new(msg.len(), |i: int| (start + i, pad(msg[i].len() as int, width), true, msg[i]))
}

/// All commands of the horizontal arrangement.
pub open spec fn horizontal_cmds(
    h: Seq<u8>,
    m: Seq<u8>,
    s: Seq<u8>,
    msg: Seq<Seq<char>>,
    term: (u16, u16),
    full: bool,
    top: int,
) -> Seq<(int, int, bool, Seq<char>)> {
    let base = horizontal_digit_cmds(h, m, s, term.0 as int, top);
    if full && msg.len() > 0 {
        base + horizontal_msg_cmds(msg, term.0 as int, top + 6)
    } else {
        base
    }
}

/// All commands of the vertical arrangement: present blocks stacked with a
/// blank row between, message lines after one more blank row.
pub open spec fn vertical_cmds(
    h: Seq<u8>,
    m: Seq<u8>,
    s: Seq<u8>,
    msg: Seq<Seq<char>>,
    term: (u16, u16),
    full: bool,
    top: int,
) -> Seq<(int, int, bool, Seq<char>)> {
    let h_start = top + 1;
    let m_start = h_start + (if suppressed(h) {
        0int
    } else {
        6int
    });
    let s_start = m_start + (if suppressed(m) {
        0int
    } else {
        6int
    });
    let hb = if suppressed(h) {
        Seq::<(int, int, bool, Seq<char>)>::empty()
    } else {
        block_cmds(h, term.0 as int, h_start)
    };
    let mb = if suppressed(m) {
        Seq::<(int, int, bool, Seq<char>)>::empty()
    } else {
        block_cmds(m, term.0 as int, m_start)
    };
    let base = hb + mb + block_cmds(s, term.0 as int, s_start);
    if full && msg.len() > 0 {
        base + vertical_msg_cmds(msg, term.0 as int, s_start + 6)
    } else {
        base
    }
}

pub open spec fn msg_opt_view(m: Option<String>) -> Option<Seq<char>> {
    match m {
        Some(t) => Some(t@),
        None => None,
    }
}

/// The digit sequences a second count is displayed with.
pub open spec fn spec_time_digits(seconds: u64) -> (Seq<u8>, Seq<u8>, Seq<u8>) {
    (
        spec_padded_digits((seconds as int / 3600) as nat),
        spec_padded_digits(((seconds as int % 3600) / 60) as nat),
        spec_padded_digits((seconds as int % 60) as nat),
    )
}

/// Everything one redraw writes for `seconds` left on the clock.
pub open spec fn spec_frame(
    seconds: u64,
    message: Option<Seq<char>>,
    term: (u16, u16),
    full: bool,
) -> (bool, Seq<(int, int, bool, Seq<char>)>) {
    let msg = match message {
        Some(t) => wrap_of(t, term.0 as nat),
        None => Seq::<Seq<char>>::empty(),
    };
    let (hd, md, sd) = spec_time_digits(seconds);
    match spec_choose_layout(term, hd, md, sd, msg.len() as int) {
        Layout::Horizontal(dim) => (
            full,
            horizontal_cmds(hd, md, sd, msg, term, full, (term.1 as int - dim.1 as int) / 2),
        ),
        Layout::Vertical(dim) => (
            full,
            vertical_cmds(hd, md, sd, msg, term, full, (term.1 as int - dim.1 as int) / 2),
        ),
        Layout::Impossible(boxes) => (
            true,
            seq![(0int, 0int, false, diag_text(term, boxes[0], boxes[1]))],
        ),
    }
}

/// Append one stacked glyph block to the frame.
#[verifier::loop_isolation(false)]
fn push_block(cmds: &mut Vec<Cmd>, ds: &Vec<u8>, width: u64, start: u64)
    requires
        1 <= ds@.len(),
        forall|i: int| 0 <= i < ds@.len() ==> ds@[i] < 10,
        start + 5 <= u64::MAX,
    ensures
        cmd_views(final (cmds)@) == cmd_views(old(cmds)@) + block_cmds(
            ds@,
            width as int,
            start as int,
        ),
{
    let mut r: usize = 0;
    while r < 5
        invariant
            0 <= r <= 5,
            cmd_views(cmds@) == cmd_views(old(cmds)@) + block_cmds(
                ds@,
                width as int,
                start as int,
            ).subrange(0, r as int),
        decreases 5 - r,
    {
        let line = field_row(ds, r);
        let ll: usize = line.as_str().unicode_len();
        let col: u64 = pad_cols(ll, width);
        let cmd = Cmd { row: start + r as u64, col, styled: false, text: line };
        let ghost prev = cmds@;
        cmds.push(cmd);
        proof {
            let bs = block_cmds(ds@, width as int, start as int);
            let before = cmd_views(old(cmds)@);
            assert(cmds@.drop_last() =~= prev);
            assert(cmd_views(cmds@) =~= cmd_views(prev).push(cmd@));
            assert(bs.subrange(0, r + 1) =~= bs.subrange(0, r as int).push(bs[r as int]));
            assert(cmd@ == bs[r as int]);
            assert((before + bs.subrange(0, r as int)).push(bs[r as int]) =~= before + bs.subrange(
                0,
                r + 1,
            ));
            assert(cmd_views(cmds@) == before + bs.subrange(0, r + 1));
        }
        r = r + 1;
    }
    proof {
        assert(block_cmds(ds@, width as int, start as int).subrange(0, 5) =~= block_cmds(
            ds@,
            width as int,
            start as int,
        ));
    }
}

/// Compute one redraw for `seconds` left: wrap the message to the current
/// width, pick the arrangement, and emit the centered writes; when neither
/// arrangement fits, one diagnostic line at the origin on a cleared screen.
#[verifier::loop_isolation(false)]
#[verifier::rlimit(100)]
pub fn render_frame(
    seconds: u64,
    message: &Option<String>,
    term_dim: &(u16, u16),
    full_redraw: bool,
) -> (frame: Frame)
    ensures
        ({
            let sf = spec_frame(seconds, msg_opt_view(*message), *term_dim, full_redraw);
            frame.clear_all == sf.0 && cmd_views(frame.cmds@) == sf.1
        }),
{
    let (h, m, s) = decompose(seconds);
    let hd = digits(h);
    let md = digits(m);
    let sd = digits(s);
    let wrapped: Vec<String> = match message {
        Some(t) => wrap_text(t.as_str(), term_dim.0 as usize),
        None => Vec::new(),
    };
    let ghost msg = match msg_opt_view(*message) {
        Some(t) => wrap_of(t, term_dim.0 as nat),
        None => Seq::<Seq<char>>::empty(),
    };
    proof {
        assert(wrapped@.map_values(|l: String| l@) =~= msg);
    }
    let term0: u64 = term_dim.0 as u64;
    let term1: u64 = term_dim.1 as u64;
    let layout = choose_layout(term_dim, &hd, &md, &sd, wrapped.len());
    let mut cmds: Vec<Cmd> = Vec::new();
    match layout {
        Layout::Horizontal(dim) => {
            proof {
                assert(term1 >= dim.1);
            }
            let top: u64 = (term1 - dim.1) / 2;
            let ghost base = horizontal_digit_cmds(hd@, md@, sd@, term0 as int, top as int);
            let mut r: usize = 0;
            while r < 5
                invariant
                    0 <= r <= 5,
                    cmd_views(cmds@) == base.subrange(0, r as int),
                decreases 5 - r,
            {
                let line = time_line(&hd, &md, &sd, r);
                let ll: usize = line.as_str().unicode_len();
                let col: u64 = pad_cols(ll, term0);
                let cmd = Cmd { row: top + r as u64, col, styled: false, text: line };
                let ghost prev = cmds@;
                cmds.push(cmd);
                proof {
                    assert(cmds@.drop_last() =~= prev);
                    assert(cmd_views(cmds@) =~= cmd_views(prev).push(cmd@));
                    assert(base.subrange(0, r + 1) =~= base.subrange(0, r as int).push(
                        base[r as int],
                    ));
                    assert(cmd@ == base[r as int]);
                    assert(cmd_views(cmds@) == base.subrange(0, r + 1));
                }
                r = r + 1;
            }
            proof {
                assert(base.subrange(0, 5) =~= base);
            }
            if full_redraw && wrapped.len() > 0 {
                let ghost mcmds = horizontal_msg_cmds(msg, term0 as int, top as int + 6);
                let mut i: usize = 0;
                while i < wrapped.len()
                    invariant
                        0 <= i <= wrapped@.len(),
                        cmd_views(cmds@) == base + mcmds.subrange(0, i as int),
                    decreases wrapped@.len() - i,
                {
                    let line: String = wrapped[i].clone();
                    let ll: usize = line.as_str().unicode_len();
                    let col: u64 = pad_cols(ll, term0);
                    let cmd = Cmd { row: top + 6, col, styled: true, text: line };
                    let ghost prev = cmds@;
                    cmds.push(cmd);
                    proof {
                        assert(cmds@.drop_last() =~= prev);
                        assert(cmd_views(cmds@) =~= cmd_views(prev).push(cmd@));
                        assert(mcmds.subrange(0, i + 1) =~= mcmds.subrange(0, i as int).push(
                            mcmds[i as int],
                        ));
                        assert(cmd@ == mcmds[i as int]);
                        assert((base + mcmds.subrange(0, i as int)).push(mcmds[i as int]) =~= base
                            + mcmds.subrange(0, i + 1));
                        assert(cmd_views(cmds@) == base + mcmds.subrange(0, i + 1));
                    }
                    i = i + 1;
                }
                proof {
                    assert(mcmds.subrange(0, msg.len() as int) =~= mcmds);
                }
            }
            Frame { clear_all: full_redraw, cmds }
        },
        Layout::Vertical(dim) => {
            proof {
                assert(term1 >= dim.1);
            }
            let top: u64 = (term1 - dim.1) / 2;
            let mut start: u64 = top + 1;
            let ghost hb = if suppressed(hd@) {
                Seq::<(int, int, bool, Seq<char>)>::empty()
            } else {
                block_cmds(hd@, term0 as int, top as int + 1)
            };
            if !is_suppressed(&hd) {
                push_block(&mut cmds, &hd, term0, start);
                start = start + 6;
            }
            proof {
                assert(cmd_views(cmds@) =~= hb);
            }
            let ghost m_start = start as int;
            let ghost mb = if suppressed(md@) {
                Seq::<(int, int, bool, Seq<char>)>::empty()
            } else {
                block_cmds(md@, term0 as int, m_start)
            };
            if !is_suppressed(&md) {
                push_block(&mut cmds, &md, term0, start);
                start = start + 6;
            }
            proof {
                assert(cmd_views(cmds@) =~= hb + mb);
            }
            let ghost s_start = start as int;
            push_block(&mut cmds, &sd, term0, start);
            let ghost base = hb + mb + block_cmds(sd@, term0 as int, s_start);
            proof {
                assert(cmd_views(cmds@) =~= base);
            }
            if full_redraw && wrapped.len() > 0 {
                proof {
                    if msg.len() > 1 {
                        assert(clamp_lines(msg.len() as int) + 6 <= term1 as int);
                        assert(msg.len() <= 65535);
                    }
                }
                let ghost mcmds = vertical_msg_cmds(msg, term0 as int, s_start + 6);
                let mut i: usize = 0;
                while i < wrapped.len()
                    invariant
                        0 <= i <= wrapped@.len(),
                        cmd_views(cmds@) == base + mcmds.subrange(0, i as int),
                    decreases wrapped@.len() - i,
                {
                    let line: String = wrapped[i].clone();
                    let ll: usize = line.as_str().unicode_len();
                    let col: u64 = pad_cols(ll, term0);
                    let cmd = Cmd { row: start + 6 + i as u64, col, styled: true, text: line };
                    let ghost prev = cmds@;
                    cmds.push(cmd);
                    proof {
                        assert(cmds@.drop_last() =~= prev);
                        assert(cmd_views(cmds@) =~= cmd_views(prev).push(cmd@));
                        assert(mcmds.subrange(0, i + 1) =~= mcmds.subrange(0, i as int).push(
                            mcmds[i as int],
                        ));
                        assert(cmd@ == mcmds[i as int]);
                        assert((base + mcmds.subrange(0, i as int)).push(mcmds[i as int]) =~= base
                            + mcmds.subrange(0, i + 1));
                        assert(cmd_views(cmds@) == base + mcmds.subrange(0, i + 1));
                    }
                    i = i + 1;
                }
                proof {
                    assert(mcmds.subrange(0, msg.len() as int) =~= mcmds);
                }
            }
            Frame { clear_all: full_redraw, cmds }
        },
        Layout::Impossible(boxes) => {
            let text = diag_line(term_dim, boxes[0], boxes[1]);
            let cmd = Cmd { row: 0, col: 0, styled: false, text };
            cmds.push(cmd);
            proof {
                assert(cmd_views(cmds@) =~= seq![cmd@]);
            }
            Frame { clear_all: true, cmds }
        },
    }
}

} // verus!
