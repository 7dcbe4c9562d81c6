//! Choosing how to arrange the digit blocks: all fields side by side
//! (horizontal), stacked (vertical), or neither fits.
//!
//! Every glyph is five cells wide and five tall, neighbouring glyphs are one
//! column apart, and a trailing separator glyph follows the hour and minute
//! fields in the horizontal arrangement. An hour or minute field whose digit
//! sequence is exactly `[0, 0]` is suppressed: it contributes nothing to
//! either candidate box.

use vstd::prelude::*;

verus! {

/// A candidate bounding box or the chosen one, `(width, height)` in cells.
#[derive(Debug, Clone, Copy, PartialEq, Eq)]
pub enum Layout {
    Horizontal((u64, u64)),
    Vertical((u64, u64)),
    Impossible([(u64, u64); 2]),
}

/// An all-zero two-digit hour or minute field is left out entirely.
pub open spec fn suppressed(ds: Seq<u8>) -> bool {
    ds == seq![0u8, 0u8]
}

/// Cells occupied by one field's digit row: five per glyph, one gap between
/// neighbours.
pub open spec fn field_width(len: int) -> int {
    6 * len - 1
}

/// Width of the horizontal arrangement: every present field, a separator
/// glyph after hours and after minutes.
pub open spec fn hl_width(h: Seq<u8>, m: Seq<u8>, s: Seq<u8>) -> int {
    (if suppressed(h) {
        0
    } else {
        field_width(h.len() as int) + 5
    }) + (if suppressed(m) {
        0
    } else {
        field_width(m.len() as int) + 5
    }) + field_width(s.len() as int)
}

/// Width of the vertical arrangement: each present field contributes its
/// own digit row width.
pub open spec fn vl_width(h: Seq<u8>, m: Seq<u8>, s: Seq<u8>) -> int {
    (if suppressed(h) {
        0
    } else {
        field_width(h.len() as int)
    }) + (if suppressed(m) {
        0
    } else {
        field_width(m.len() as int)
    }) + field_width(s.len() as int)
}

/// Rows reserved for the message: only a message of two or more wrapped
/// lines reserves space, one blank row plus its lines.
pub open spec fn msg_extra(msg_lines: int) -> int {
    if msg_lines > 1 {
        1 + msg_lines
    } else {
        0
    }
}

/// Height of the horizontal arrangement: one glyph row block.
pub open spec fn hl_height(msg_lines: int) -> int {
    5 + msg_extra(msg_lines)
}

/// Height of the vertical arrangement: a glyph block plus one separator row
/// for each present hour/minute field, then the seconds block.
pub open spec fn vl_height(h: Seq<u8>, m: Seq<u8>, msg_lines: int) -> int {
    (if suppressed(h) {
        0int
    } else {
        6int
    }) + (if suppressed(m) {
        0int
    } else {
        6int
    }) + 5 + msg_extra(msg_lines)
}

/// A message line count beyond what any terminal row count can hold is
/// treated as that bound; the selection is unaffected, since such a box
/// never fits anyway.
pub open spec fn clamp_lines(msg_lines: int) -> int {
    if msg_lines > 65536 {
        65536
    } else {
        msg_lines
    }
}

/// The selection rule: horizontal whenever it fits, else vertical if it
/// fits, else impossible, carrying both candidate boxes.
pub open spec fn spec_choose_layout(
    term: (u16, u16),
    h: Seq<u8>,
    m: Seq<u8>,
    s: Seq<u8>,
    msg_lines: int,
) -> Layout {
    let ml = clamp_lines(msg_lines);
    let hw = hl_width(h, m, s);
    let hh = hl_height(ml);
    let vw = vl_width(h, m, s);
    let vh = vl_height(h, m, ml);
    if term.0 as int >= hw && term.1 as int >= hh {
        Layout::Horizontal((hw as u64, hh as u64))
    } else if term.0 as int >= vw && term.1 as int >= vh {
        Layout::Vertical((vw as u64, vh as u64))
    } else {
        Layout::Impossible([(hw as u64, hh as u64), (vw as u64, vh as u64)])
    }
}

/// Is this field's digit sequence the suppressed all-zero form?
pub fn is_suppressed(ds: &Vec<u8>) -> (b: bool)
    ensures
        b == suppressed(ds@),
{
    let b = ds.len() == 2 && *ds.get(0).unwrap() == 0 && *ds.get(1).unwrap() == 0;
    proof {
        if b {
            assert(ds@ =~= seq![0u8, 0u8]);
        }
        if ds@ == seq![0u8, 0u8] {
            assert(ds@.len() == 2 && ds@[0] == 0 && ds@[1] == 0);
        }
    }
    b
}

/// Pick the arrangement for the current terminal size, preferring the
/// horizontal one whenever it fits.
pub fn choose_layout(
    term_dim: &(u16, u16),
    h_digits: &Vec<u8>,
    m_digits: &Vec<u8>,
    s_digits: &Vec<u8>,
    msg_lines: usize,
) -> (r: Layout)
    requires
        1 <= h_digits@.len() <= 20,
        1 <= m_digits@.len() <= 20,
        1 <= s_digits@.len() <= 20,
    ensures
        r == spec_choose_layout(*term_dim, h_digits@, m_digits@, s_digits@, msg_lines as int),
{
    let ml: u64 = if msg_lines > 65536 {
        65536
    } else {
        msg_lines as u64
    };
    let mut hw: u64 = 0;
    let mut vw: u64 = 0;
    let mut vh: u64 = 5;
    if !is_suppressed(h_digits) {
        let fw: u64 = 6 * (h_digits.len() as u64) - 1;
        hw = hw + fw + 5;
        vw = vw + fw;
        vh = vh + 6;
    }
    if !is_suppressed(m_digits) {
        let fw: u64 = 6 * (m_digits.len() as u64) - 1;
        hw = hw + fw + 5;
        vw = vw + fw;
        vh = vh + 6;
    }
    let sw: u64 = 6 * (s_digits.len() as u64) - 1;
    hw = hw + sw;
    vw = vw + sw;
    let extra: u64 = if ml > 1 {
        1 + ml
    } else {
        0
    };
    let hh: u64 = 5 + extra;
    let vh: u64 = vh + extra;
    let tw: u64 = term_dim.0 as u64;
    let th: u64 = term_dim.1 as u64;
    if tw >= hw && th >= hh {
        Layout::Horizontal((hw, hh))
    } else if tw >= vw && th >= vh {
        Layout::Vertical((vw, vh))
    } else {
        Layout::Impossible([(hw, hh), (vw, vh)])
    }
}

/// A terminal narrower than the horizontal box never yields the horizontal
/// arrangement: the vertical one is chosen exactly when it fits, and
/// otherwise neither does.
pub proof fn lemma_narrow_terminal_never_horizontal(
    term: (u16, u16),
    h: Seq<u8>,
    m: Seq<u8>,
    s: Seq<u8>,
    msg_lines: int,
)
    requires
        (term.0 as int) < hl_width(h, m, s),
    ensures
        !(spec_choose_layout(term, h, m, s, msg_lines) is Horizontal),
        spec_choose_layout(term, h, m, s, msg_lines) is Vertical <==> term.0 as int >= vl_width(
            h,
            m,
            s,
        ) && term.1 as int >= vl_height(h, m, clamp_lines(msg_lines)),
        spec_choose_layout(term, h, m, s, msg_lines) is Impossible <==> !(term.0 as int
            >= vl_width(h, m, s) && term.1 as int >= vl_height(h, m, clamp_lines(msg_lines))),
{
}

/// A suppressed hour or minute field adds nothing to either candidate box:
/// with both suppressed, the boxes are those of the seconds block alone.
pub proof fn lemma_suppression_excludes(h: Seq<u8>, m: Seq<u8>, s: Seq<u8>, msg_lines: int)
    ensures
        suppressed(h) && suppressed(m) ==> hl_width(h, m, s) == field_width(s.len() as int)
            && vl_width(h, m, s) == field_width(s.len() as int) && vl_height(h, m, msg_lines) == 5
            + msg_extra(msg_lines),
        suppressed(h) ==> hl_width(h, m, s) == hl_width(seq![0u8, 0u8], m, s) && vl_height(
            h,
            m,
            msg_lines,
        ) == vl_height(seq![0u8, 0u8], m, msg_lines),
        suppressed(m) ==> hl_width(h, m, s) == hl_width(h, seq![0u8, 0u8], s) && vl_height(
            h,
            m,
            msg_lines,
        ) == vl_height(h, seq![0u8, 0u8], msg_lines),
{
}

} // verus!
