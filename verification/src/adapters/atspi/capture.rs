//! The screen-capture tools the backend can use and the arguments each takes.

use vstd::prelude::*;

use crate::error::{AtspiCliError, ErrorView};
use crate::text::{decimal, decimal_string, owned, str_eq};

verus! {

/// The tools tried for screen captures, in order of preference.
pub open spec fn tool_names() -> Seq<Seq<char>> {
    seq!["grim"@, "import"@, "gnome-screenshot"@, "scrot"@]
}

/// The tools tried for screen captures, in order of preference.
pub fn screenshot_tools() -> (v: Vec<String>)
    ensures
        v.deep_view() == tool_names(),
{
    let v = vec![owned("grim"), owned("import"), owned("gnome-screenshot"), owned("scrot")];
    assert(v.deep_view() =~= tool_names());
    v
}

/// An integer written in decimal, with a leading `-` when negative.
pub open spec fn signed_decimal(i: int) -> Seq<char> {
    if i < 0 {
        "-"@ + decimal((-i) as nat)
    } else {
        decimal(i as nat)
    }
}

/// `i` written in decimal.
pub fn signed_decimal_string(i: i32) -> (s: String)
    ensures
        s@ == signed_decimal(i as int),
{
    let wide: i64 = i as i64;
    if wide < 0 {
        let digits = decimal_string((-wide) as u128);
        let mut s = owned("-");
        s.append(digits.as_str());
        s
    } else {
        decimal_string(wide as u128)
    }
}

/// The arguments that make `tool` capture the `w` by `h` region at `x`,
/// `y` into `output`.
pub open spec fn region_args(tool: Seq<char>, x: int, y: int, w: int, h: int, output: Seq<char>) -> Seq<
    Seq<char>,
> {
    let geometry = signed_decimal(w) + "x"@ + signed_decimal(h) + "+"@ + signed_decimal(x) + "+"@
        + signed_decimal(y);
    if tool == "grim"@ {
        seq![
            "-g"@,
            signed_decimal(x) + ","@ + signed_decimal(y) + " "@ + signed_decimal(w) + "x"@
                + signed_decimal(h),
            output,
        ]
    } else if tool == "import"@ {
        seq!["-window"@, "root"@, "-crop"@, geometry, output]
    } else if tool == "scrot"@ {
        seq![
            "-a"@,
            signed_decimal(x) + ","@ + signed_decimal(y) + ","@ + signed_decimal(w) + ","@
                + signed_decimal(h),
            output,
        ]
    } else {
        seq!["-f"@, output, "-a"@, geometry]
    }
}

/// The arguments that make `tool` capture the whole screen into `output`.
pub open spec fn window_args(tool: Seq<char>, output: Seq<char>) -> Seq<Seq<char>> {
    if tool == "import"@ {
        seq!["-window"@, "root"@, output]
    } else if tool == "gnome-screenshot"@ {
        seq!["-f"@, output]
    } else {
        seq![output]
    }
}

/// The arguments for a capture of a region of the screen, as
/// [`region_args`] says.
pub fn region_capture_args(tool: &str, x: i32, y: i32, w: i32, h: i32, output: &str) -> (v: Vec<
    String,
>)
    ensures
        v.deep_view() == region_args(tool@, x as int, y as int, w as int, h as int, output@),
{
    let xs = signed_decimal_string(x);
    let ys = signed_decimal_string(y);
    let ws = signed_decimal_string(w);
    let hs = signed_decimal_string(h);
    let mut geometry = ws.clone();
    geometry.append("x");
    geometry.append(hs.as_str());
    geometry.append("+");
    geometry.append(xs.as_str());
    geometry.append("+");
    geometry.append(ys.as_str());
    let v = if str_eq(tool, "grim") {
        let mut spec = xs.clone();
        spec.append(",");
        spec.append(ys.as_str());
        spec.append(" ");
        spec.append(ws.as_str());
        spec.append("x");
        spec.append(hs.as_str());
        vec![owned("-g"), spec, owned(output)]
    } else if str_eq(tool, "import") {
        vec![owned("-window"), owned("root"), owned("-crop"), geometry, owned(output)]
    } else if str_eq(tool, "scrot") {
        let mut spec = xs.clone();
        spec.append(",");
        spec.append(ys.as_str());
        spec.append(",");
        spec.append(ws.as_str());
        spec.append(",");
        spec.append(hs.as_str());
        vec![owned("-a"), spec, owned(output)]
    } else {
        vec![owned("-f"), owned(output), owned("-a"), geometry]
    };
    assert(v.deep_view() =~= region_args(
        tool@,
        x as int,
        y as int,
        w as int,
        h as int,
        output@,
    ));
    v
}

/// The arguments for a capture of the whole screen, as [`window_args`]
/// says.
pub fn window_capture_args(tool: &str, output: &str) -> (v: Vec<String>)
    ensures
        v.deep_view() == window_args(tool@, output@),
{
    let v = if str_eq(tool, "import") {
        vec![owned("-window"), owned("root"), owned(output)]
    } else if str_eq(tool, "gnome-screenshot") {
        vec![owned("-f"), owned(output)]
    } else {
        vec![owned(output)]
    };
    assert(v.deep_view() =~= window_args(tool@, output@));
    v
}

/// The error when no capture tool is installed.
pub fn no_tool_error() -> (e: AtspiCliError)
    ensures
        e.deep_view() == ErrorView::Internal(
            "No screenshot tool found. Install one of: grim (Wayland), import (ImageMagick), gnome-screenshot, scrot"@,
        ),
{
    AtspiCliError::Internal(
        owned(
            "No screenshot tool found. Install one of: grim (Wayland), import (ImageMagick), gnome-screenshot, scrot",
        ),
    )
}

/// The error when `tool` ends with the exit status written `status`.
pub fn tool_failed_error(tool: &str, status: &str) -> (e: AtspiCliError)
    ensures
        e.deep_view() == ErrorView::Internal(
            "Screenshot tool '"@ + tool@ + "' exited with status "@ + status@,
        ),
{
    let mut m = owned("Screenshot tool '");
    m.append(tool);
    m.append("' exited with status ");
    m.append(status);
    AtspiCliError::Internal(m)
}

} // verus!
