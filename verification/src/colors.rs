//! Colodore color palette and resolution.
//!
//! A fixed palette of sixteen named colors, Commodore 64/128 inspired.  Any
//! string that is not a palette name passes through unchanged, which lets
//! arbitrary hex colors travel transparently.

use vstd::prelude::*;
use crate::strutil::str_eq;

verus! {

/// The resolved color: the palette hex value for one of the sixteen names,
/// the input itself otherwise.
pub open spec fn spec_resolve_color(s: Seq<char>) -> Seq<char> {
    if s == "black"@ {
        "#000000"@
    } else if s == "dark_grey"@ {
        "#4a4a4a"@
    } else if s == "grey"@ {
        "#7b7b7b"@
    } else if s == "light_grey"@ {
        "#b2b2b2"@
    } else if s == "white"@ {
        "#ffffff"@
    } else if s == "dark_red"@ {
        "#813338"@
    } else if s == "red"@ {
        "#c46c71"@
    } else if s == "brown"@ {
        "#553800"@
    } else if s == "orange"@ {
        "#8e5029"@
    } else if s == "yellow"@ {
        "#edf171"@
    } else if s == "light_green"@ {
        "#a9ff9f"@
    } else if s == "green"@ {
        "#56ac4d"@
    } else if s == "cyan"@ {
        "#75cec8"@
    } else if s == "light_blue"@ {
        "#706deb"@
    } else if s == "blue"@ {
        "#2e2c9b"@
    } else if s == "purple"@ {
        "#8e3c97"@
    } else {
        s
    }
}

/// Resolve a color string to hex.
///
/// If the input matches a Colodore preset name, returns the preset hex value;
/// otherwise returns the input unchanged (hex passthrough).
pub fn resolve_color<'a>(color: &'a str) -> (r: &'a str)
    ensures
        r@ == spec_resolve_color(color@),
{
    if str_eq(color, "black") {
        "#000000"
    } else if str_eq(color, "dark_grey") {
        "#4a4a4a"
    } else if str_eq(color, "grey") {
        "#7b7b7b"
    } else if str_eq(color, "light_grey") {
        "#b2b2b2"
    } else if str_eq(color, "white") {
        "#ffffff"
    } else if str_eq(color, "dark_red") {
        "#813338"
    } else if str_eq(color, "red") {
        "#c46c71"
    } else if str_eq(color, "brown") {
        "#553800"
    } else if str_eq(color, "orange") {
        "#8e5029"
    } else if str_eq(color, "yellow") {
        "#edf171"
    } else if str_eq(color, "light_green") {
        "#a9ff9f"
    } else if str_eq(color, "green") {
        "#56ac4d"
    } else if str_eq(color, "cyan") {
        "#75cec8"
    } else if str_eq(color, "light_blue") {
        "#706deb"
    } else if str_eq(color, "blue") {
        "#2e2c9b"
    } else if str_eq(color, "purple") {
        "#8e3c97"
    } else {
        color
    }
}

/// The sixteen palette names, in palette order.
pub fn colodore_names() -> (r: Vec<&'static str>)
    ensures
        r@.len() == 16,
        r@[0]@ == "black"@,
        r@[1]@ == "dark_grey"@,
        r@[2]@ == "grey"@,
        r@[3]@ == "light_grey"@,
        r@[4]@ == "white"@,
        r@[5]@ == "dark_red"@,
        r@[6]@ == "red"@,
        r@[7]@ == "brown"@,
        r@[8]@ == "orange"@,
        r@[9]@ == "yellow"@,
        r@[10]@ == "light_green"@,
        r@[11]@ == "green"@,
        r@[12]@ == "cyan"@,
        r@[13]@ == "light_blue"@,
        r@[14]@ == "blue"@,
        r@[15]@ == "purple"@,
{
    let mut v: Vec<&'static str> = Vec::new();
    v.push("black");
    v.push("dark_grey");
    v.push("grey");
    v.push("light_grey");
    v.push("white");
    v.push("dark_red");
    v.push("red");
    v.push("brown");
    v.push("orange");
    v.push("yellow");
    v.push("light_green");
    v.push("green");
    v.push("cyan");
    v.push("light_blue");
    v.push("blue");
    v.push("purple");
    v
}

} // verus!
