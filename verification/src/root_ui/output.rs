//! What the output panel of a running command is given to draw, and the
//! colour role each piece of its text asks for.

use vstd::prelude::*;
use crate::run::{AnsiColor, Role, Stream};

verus! {

/// A run of output text in one role.
#[derive(Clone, Debug, PartialEq, Eq)]
pub struct SegmentInput {
    pub text: String,
    pub role: Role,
}

/// One output line, as its segments.
#[derive(Clone, Debug, Default, PartialEq, Eq)]
pub struct LineInput {
    pub segments: Vec<SegmentInput>,
}

/// The scheme role a segment is drawn in: its ANSI colour when it has one,
/// else the stream it came from.
pub open spec fn role_of(role: Role) -> Seq<char> {
    match role.color {
        Some(AnsiColor::Black) => "black"@,
        Some(AnsiColor::Red) => "red"@,
        Some(AnsiColor::Green) => "green"@,
        Some(AnsiColor::Yellow) => "yellow"@,
        Some(AnsiColor::Blue) => "blue"@,
        Some(AnsiColor::Magenta) => "magenta"@,
        Some(AnsiColor::Cyan) => "cyan"@,
        Some(AnsiColor::White) => "white"@,
        Some(AnsiColor::BrightBlack) => "bright_black"@,
        Some(AnsiColor::BrightRed) => "bright_red"@,
        Some(AnsiColor::BrightGreen) => "bright_green"@,
        Some(AnsiColor::BrightYellow) => "bright_yellow"@,
        Some(AnsiColor::BrightBlue) => "bright_blue"@,
        Some(AnsiColor::BrightMagenta) => "bright_magenta"@,
        Some(AnsiColor::BrightCyan) => "bright_cyan"@,
        Some(AnsiColor::BrightWhite) => "bright_white"@,
        None => if role.stream == Stream::Stderr { "stderr"@ } else { "stdout"@ },
    }
}

pub fn role_name(role: Role) -> (s: &'static str)
    ensures
        s@ == role_of(role),
{
    match role.color {
        Some(AnsiColor::Black) => "black",
        Some(AnsiColor::Red) => "red",
        Some(AnsiColor::Green) => "green",
        Some(AnsiColor::Yellow) => "yellow",
        Some(AnsiColor::Blue) => "blue",
        Some(AnsiColor::Magenta) => "magenta",
        Some(AnsiColor::Cyan) => "cyan",
        Some(AnsiColor::White) => "white",
        Some(AnsiColor::BrightBlack) => "bright_black",
        Some(AnsiColor::BrightRed) => "bright_red",
        Some(AnsiColor::BrightGreen) => "bright_green",
        Some(AnsiColor::BrightYellow) => "bright_yellow",
        Some(AnsiColor::BrightBlue) => "bright_blue",
        Some(AnsiColor::BrightMagenta) => "bright_magenta",
        Some(AnsiColor::BrightCyan) => "bright_cyan",
        Some(AnsiColor::BrightWhite) => "bright_white",
        None => match role.stream {
            Stream::Stderr => "stderr",
            Stream::Stdout => "stdout",
        },
    }
}

} // verus!
