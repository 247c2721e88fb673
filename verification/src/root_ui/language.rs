//! The parts of root-ui's design language that fix a surface's shape before
//! any geometry or colour: the semantic node, the box kind and the colour
//! roles.

use vstd::prelude::*;
use crate::text::{chars_of, concat, trim_range, trim_ws};

verus! {

pub const FOUNDATION: &'static str = "root-ui-semantic-source-basis";

/// Why a design-language phase refused its input.
#[derive(Clone, Debug, PartialEq, Eq)]
pub enum Error {
    /// A value left the normalized 0..=1 range.
    Range(String),
    /// A semantic node was missing the source-basis shape.
    Semantic(String),
    UnknownScheme(String),
    MissingRole(String),
}

impl Error {
    /// The sentence the error reads as.
    pub fn message(&self) -> (s: String)
        ensures
            s@ == match *self {
                Error::Range(w) => w@ + " must be within the normalized range 0..1"@,
                Error::Semantic(w) => "semantic node is incomplete: "@ + w@,
                Error::UnknownScheme(w) => "unknown user color scheme: "@ + w@,
                Error::MissingRole(w) => "scheme does not define color role: "@ + w@,
            },
    {
        match self {
            Error::Range(what) => concat(what.as_str(), " must be within the normalized range 0..1"),
            Error::Semantic(what) => concat("semantic node is incomplete: ", what.as_str()),
            Error::UnknownScheme(id) => concat("unknown user color scheme: ", id.as_str()),
            Error::MissingRole(role) => concat("scheme does not define color role: ", role.as_str()),
        }
    }
}

/// root-ui's source-basis shape, kept whole: the widget catalogue keys off
/// all three.
#[derive(Clone, Debug, PartialEq, Eq)]
pub struct Semantic {
    pub name: String,
    pub variant: String,
    pub state: String,
}

/// Text with nothing but whitespace in it.
pub open spec fn blank(s: Seq<char>) -> bool {
    trim_ws(s).len() == 0
}

fn is_blank(s: &str) -> (r: bool)
    ensures
        r == blank(s@),
{
    let v = chars_of(s);
    let (a, b) = trim_range(v.as_slice(), 0, v.len());
    assert(v@.subrange(0, v@.len() as int) =~= v@);
    a == b
}

impl Semantic {
    pub fn new(name: &str, variant: &str, state: &str) -> (s: Semantic)
        ensures
            s.name@ == name@,
            s.variant@ == variant@,
            s.state@ == state@,
    {
        Semantic { name: name.to_string(), variant: variant.to_string(), state: state.to_string() }
    }

    /// Every field must say something: the first blank one, in the order
    /// name, variant, state, is named in the error.
    pub fn check(&self) -> (r: Result<(), Error>)
        ensures
            match r {
                Ok(()) => !blank(self.name@) && !blank(self.variant@) && !blank(self.state@),
                Err(Error::Semantic(f)) => if blank(self.name@) {
                    f@ == "name"@
                } else if blank(self.variant@) {
                    f@ == "variant"@
                } else {
                    blank(self.state@) && f@ == "state"@
                },
                Err(_) => false,
            },
    {
        if is_blank(self.name.as_str()) {
            return Err(Error::Semantic("name".to_string()));
        }
        if is_blank(self.variant.as_str()) {
            return Err(Error::Semantic("variant".to_string()));
        }
        if is_blank(self.state.as_str()) {
            return Err(Error::Semantic("state".to_string()));
        }
        Ok(())
    }
}

#[derive(Clone, Copy, Debug, PartialEq, Eq, Structural)]
pub enum BoxKind {
    Box,
    RoundBox,
}

impl BoxKind {
    pub fn as_str(self) -> (s: &'static str)
        ensures
            s@ == match self {
                BoxKind::Box => "box"@,
                BoxKind::RoundBox => "round-box"@,
            },
    {
        match self {
            BoxKind::Box => "box",
            BoxKind::RoundBox => "round-box",
        }
    }
}

/// Semantic colour roles, independent of any concrete scheme.
#[derive(Clone, Debug, PartialEq, Eq)]
pub struct ColorIntent {
    pub fill_role: String,
    pub stroke_role: String,
}

impl ColorIntent {
    pub fn new(fill_role: &str, stroke_role: &str) -> (c: ColorIntent)
        ensures
            c.fill_role@ == fill_role@,
            c.stroke_role@ == stroke_role@,
    {
        ColorIntent { fill_role: fill_role.to_string(), stroke_role: stroke_role.to_string() }
    }
}

} // verus!
