//! The fixed ASCII-art shapes: one five-by-five block per decimal digit and
//! one for the time separator.

use vstd::prelude::*;

verus! {

pub open spec fn rows_zero() -> Seq<Seq<char>> {
    seq!["█████"@, "█   █"@, "█   █"@, "█   █"@, "█████"@]
}

pub open spec fn rows_one() -> Seq<Seq<char>> {
    seq!["  █  "@, "  █  "@, "  █  "@, "  █  "@, "  █  "@]
}

pub open spec fn rows_two() -> Seq<Seq<char>> {
    seq!["█████"@, "    █"@, "█████"@, "█    "@, "█████"@]
}

pub open spec fn rows_three() -> Seq<Seq<char>> {
    seq!["█████"@, "    █"@, "█████"@, "    █"@, "█████"@]
}

pub open spec fn rows_four() -> Seq<Seq<char>> {
    seq!["█   █"@, "█   █"@, "█████"@, "    █"@, "    █"@]
}

pub open spec fn rows_five() -> Seq<Seq<char>> {
    seq!["█████"@, "█    "@, "█████"@, "    █"@, "█████"@]
}

pub open spec fn rows_six() -> Seq<Seq<char>> {
    seq!["█████"@, "█    "@, "█████"@, "█   █"@, "█████"@]
}

pub open spec fn rows_seven() -> Seq<Seq<char>> {
    seq!["█████"@, "    █"@, "   █ "@, "  █  "@, "  █  "@]
}

pub open spec fn rows_eight() -> Seq<Seq<char>> {
    seq!["█████"@, "█   █"@, "█████"@, "█   █"@, "█████"@]
}

pub open spec fn rows_nine() -> Seq<Seq<char>> {
    seq!["█████"@, "█   █"@, "█████"@, "    █"@, "█████"@]
}

pub open spec fn rows_colon() -> Seq<Seq<char>> {
    seq!["     "@, "  █  "@, "     "@, "  █  "@, "     "@]
}

/// The five rows of one digit's glyph block.
pub open spec fn digit_rows(d: int) -> Seq<Seq<char>> {
    if d == 0 {
        rows_zero()
    } else if d == 1 {
        rows_one()
    } else if d == 2 {
        rows_two()
    } else if d == 3 {
        rows_three()
    } else if d == 4 {
        rows_four()
    } else if d == 5 {
        rows_five()
    } else if d == 6 {
        rows_six()
    } else if d == 7 {
        rows_seven()
    } else if d == 8 {
        rows_eight()
    } else {
        rows_nine()
    }
}

/// Every glyph block, separator included, is five rows of five cells.
pub proof fn lemma_glyph_dims()
    ensures
        forall|d: int, r: int|
            0 <= d < 10 && 0 <= r < 5 ==> (#[trigger] digit_rows(d)[r]).len() == 5,
        forall|r: int| 0 <= r < 5 ==> (#[trigger] rows_colon()[r]).len() == 5,
{
    reveal_strlit("█████");
    reveal_strlit("█   █");
    reveal_strlit("  █  ");
    reveal_strlit("    █");
    reveal_strlit("█    ");
    reveal_strlit("   █ ");
    reveal_strlit("     ");
    assert forall|d: int, r: int| 0 <= d < 10 && 0 <= r < 5 implies (#[trigger] digit_rows(
        d,
    )[r]).len() == 5 by {
        assert(0 <= r < 5);
    }
}

/// One row of one digit's glyph.
pub fn digit_row(d: u8, r: usize) -> (out: &'static str)
    requires
        d < 10,
        r < 5,
    ensures
        out@ == digit_rows(d as int)[r as int],
        out@.len() == 5,
{
    proof {
        lemma_glyph_dims();
        assert(digit_rows(d as int)[r as int].len() == 5);
    }
    match d {
        0 => match r {
            0 => "█████",
            1 => "█   █",
            2 => "█   █",
            3 => "█   █",
            _ => "█████",
        },
        1 => "  █  ",
        2 => match r {
            0 => "█████",
            1 => "    █",
            2 => "█████",
            3 => "█    ",
            _ => "█████",
        },
        3 => match r {
            0 => "█████",
            1 => "    █",
            2 => "█████",
            3 => "    █",
            _ => "█████",
        },
        4 => match r {
            0 => "█   █",
            1 => "█   █",
            2 => "█████",
            3 => "    █",
            _ => "    █",
        },
        5 => match r {
            0 => "█████",
            1 => "█    ",
            2 => "█████",
            3 => "    █",
            _ => "█████",
        },
        6 => match r {
            0 => "█████",
            1 => "█    ",
            2 => "█████",
            3 => "█   █",
            _ => "█████",
        },
        7 => match r {
            0 => "█████",
            1 => "    █",
            2 => "   █ ",
            3 => "  █  ",
            _ => "  █  ",
        },
        8 => match r {
            0 => "█████",
            1 => "█   █",
            2 => "█████",
            3 => "█   █",
            _ => "█████",
        },
        _ => match r {
            0 => "█████",
            1 => "█   █",
            2 => "█████",
            3 => "    █",
            _ => "█████",
        },
    }
}

/// One row of the separator glyph.
pub fn colon_row(r: usize) -> (out: &'static str)
    requires
        r < 5,
    ensures
        out@ == rows_colon()[r as int],
        out@.len() == 5,
{
    proof {
        lemma_glyph_dims();
        assert(rows_colon()[r as int].len() == 5);
    }
    match r {
        0 => "     ",
        1 => "  █  ",
        2 => "     ",
        3 => "  █  ",
        _ => "     ",
    }
}

} // verus!
