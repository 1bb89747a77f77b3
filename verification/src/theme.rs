//! Box-drawing characters and animation frames for the terminal front end.

use vstd::prelude::*;

verus! {

/// Box-drawing characters and indicator glyphs.
pub struct BoxChars;

/// The braille spinner frame at position `k` of its ten-frame cycle.
pub open spec fn spec_spinner_frame(k: int) -> Seq<char> {
    if k == 0 {
        "\u{280b}"@
    } else if k == 1 {
        "\u{2819}"@
    } else if k == 2 {
        "\u{2839}"@
    } else if k == 3 {
        "\u{2838}"@
    } else if k == 4 {
        "\u{283c}"@
    } else if k == 5 {
        "\u{2834}"@
    } else if k == 6 {
        "\u{2826}"@
    } else if k == 7 {
        "\u{2827}"@
    } else if k == 8 {
        "\u{2807}"@
    } else {
        "\u{280f}"@
    }
}

/// The block spinner frame at position `k` of its four-frame cycle.
pub open spec fn spec_spinner_matrix_frame(k: int) -> Seq<char> {
    if k == 0 {
        "\u{25d0}"@
    } else if k == 1 {
        "\u{25d3}"@
    } else if k == 2 {
        "\u{25d1}"@
    } else {
        "\u{25d2}"@
    }
}

/// The loading bar frame at position `k` of its five-frame cycle.
pub open spec fn spec_loading_bar_frame(k: int) -> Seq<char> {
    if k == 0 {
        "[    ]"@
    } else if k == 1 {
        "[=   ]"@
    } else if k == 2 {
        "[==  ]"@
    } else if k == 3 {
        "[=== ]"@
    } else {
        "[====]"@
    }
}

impl BoxChars {
    /// The spinner frame for the given tick, cycling through ten frames.
    pub fn spinner(frame: usize) -> (r: &'static str)
        ensures
            r@ == spec_spinner_frame(frame as int % 10),
    {
        match frame % 10 {
            0 => "\u{280b}",
            1 => "\u{2819}",
            2 => "\u{2839}",
            3 => "\u{2838}",
            4 => "\u{283c}",
            5 => "\u{2834}",
            6 => "\u{2826}",
            7 => "\u{2827}",
            8 => "\u{2807}",
            _ => "\u{280f}",
        }
    }

    /// The block spinner frame for the given tick, cycling through four
    /// frames.
    pub fn spinner_matrix(frame: usize) -> (r: &'static str)
        ensures
            r@ == spec_spinner_matrix_frame(frame as int % 4),
    {
        match frame % 4 {
            0 => "\u{25d0}",
            1 => "\u{25d3}",
            2 => "\u{25d1}",
            _ => "\u{25d2}",
        }
    }

    /// The loading bar frame for the given tick, cycling through five
    /// frames.
    pub fn loading_bar(frame: usize) -> (r: &'static str)
        ensures
            r@ == spec_loading_bar_frame(frame as int % 5),
    {
        match frame % 5 {
            0 => "[    ]",
            1 => "[=   ]",
            2 => "[==  ]",
            3 => "[=== ]",
            _ => "[====]",
        }
    }
}

} // verus!
