//! Colors of terminal output.

use vstd::prelude::*;

verus! {

/// The text in a style, where colors are wanted.
pub open spec fn styled(code: Seq<char>, text: Seq<char>, color: bool) -> Seq<char> {
    if color {
        "\x1b["@ + code + "m"@ + text + "\x1b[0m"@
    } else {
        text
    }
}

fn style(code: &str, text: &str, color: bool) -> (r: String)
    ensures
        r@ == styled(code@, text@, color),
{
    if color {
        let mut out = "\x1b[".to_owned();
        out.append(code);
        out.append("m");
        out.append(text);
        out.append("\x1b[0m");
        out
    } else {
        text.to_owned()
    }
}

/// Write a text in bold.
pub fn bold(text: &str, color: bool) -> (r: String)
    ensures
        r@ == styled("1"@, text@, color),
{
    style("1", text, color)
}

/// Write a text in green.
pub fn green(text: &str, color: bool) -> (r: String)
    ensures
        r@ == styled("32"@, text@, color),
{
    style("32", text, color)
}

/// Write a text in red.
pub fn red(text: &str, color: bool) -> (r: String)
    ensures
        r@ == styled("31"@, text@, color),
{
    style("31", text, color)
}

/// Write a text in yellow.
pub fn yellow(text: &str, color: bool) -> (r: String)
    ensures
        r@ == styled("33"@, text@, color),
{
    style("33", text, color)
}

/// Whether colors are wanted: only on a terminal, and not where the user
/// forbids them.
pub fn use_color(terminal: bool, forbidden: bool) -> (r: bool)
    ensures
        r == (terminal && !forbidden),
{
    terminal && !forbidden
}

} // verus!
