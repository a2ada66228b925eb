//! Terminal colors for the one-shot command output formatter.
use vstd::prelude::*;
use crate::text::{lower_of, lowercase, str_eq};

verus! {

#[derive(Debug, PartialEq, Eq, Structural, Clone, Copy)]
pub enum Color {
    Red,
    Green,
    Blue,
    Yellow,
    Magenta,
    Cyan,
    White,
    Black,
    BrightGreen,
    BrightRed,
}

/// The ANSI escape code of each color.
pub open spec fn ansi_code_of(c: Color) -> Seq<char> {
    match c {
        Color::Red => "\x1b[31m"@,
        Color::Green => "\x1b[32m"@,
        Color::Blue => "\x1b[34m"@,
        Color::Yellow => "\x1b[33m"@,
        Color::Magenta => "\x1b[35m"@,
        Color::Cyan => "\x1b[36m"@,
        Color::White => "\x1b[37m"@,
        Color::Black => "\x1b[30m"@,
        Color::BrightGreen => "\x1b[92m"@,
        Color::BrightRed => "\x1b[91m"@,
    }
}

/// The color a (case-folded) name denotes, if any.
pub open spec fn color_of_name(s: Seq<char>) -> Option<Color> {
    if s == "red"@ {
        Some(Color::Red)
    } else if s == "green"@ {
        Some(Color::Green)
    } else if s == "blue"@ {
        Some(Color::Blue)
    } else if s == "yellow"@ {
        Some(Color::Yellow)
    } else if s == "magenta"@ {
        Some(Color::Magenta)
    } else if s == "cyan"@ {
        Some(Color::Cyan)
    } else if s == "white"@ {
        Some(Color::White)
    } else if s == "black"@ {
        Some(Color::Black)
    } else if s == "bright_green"@ {
        Some(Color::BrightGreen)
    } else if s == "bright_red"@ {
        Some(Color::BrightRed)
    } else {
        None
    }
}

impl Color {
    /// Returns the ANSI escape code for the color.
    pub fn ansi_code(&self) -> (r: String)
        ensures
            r@ == ansi_code_of(*self),
    {
        match self {
            Color::Red => "\x1b[31m".to_owned(),
            Color::Green => "\x1b[32m".to_owned(),
            Color::Blue => "\x1b[34m".to_owned(),
            Color::Yellow => "\x1b[33m".to_owned(),
            Color::Magenta => "\x1b[35m".to_owned(),
            Color::Cyan => "\x1b[36m".to_owned(),
            Color::White => "\x1b[37m".to_owned(),
            Color::Black => "\x1b[30m".to_owned(),
            Color::BrightGreen => "\x1b[92m".to_owned(),
            Color::BrightRed => "\x1b[91m".to_owned(),
        }
    }

    /// Looks a color up by name, ignoring case.
    pub fn from_str(s: &str) -> (r: Option<Color>)
        ensures
            r == color_of_name(lower_of(s@)),
    {
        let low = lowercase(s);
        let l = low.as_str();
        if str_eq(l, "red") {
            Some(Color::Red)
        } else if str_eq(l, "green") {
            Some(Color::Green)
        } else if str_eq(l, "blue") {
            Some(Color::Blue)
        } else if str_eq(l, "yellow") {
            Some(Color::Yellow)
        } else if str_eq(l, "magenta") {
            Some(Color::Magenta)
        } else if str_eq(l, "cyan") {
            Some(Color::Cyan)
        } else if str_eq(l, "white") {
            Some(Color::White)
        } else if str_eq(l, "black") {
            Some(Color::Black)
        } else if str_eq(l, "bright_green") {
            Some(Color::BrightGreen)
        } else if str_eq(l, "bright_red") {
            Some(Color::BrightRed)
        } else {
            None
        }
    }
}

} // verus!
