//! The two line icons of the interface, as the attributes of an SVG element
//! holding one path.

use vstd::prelude::*;

verus! {

/// An SVG icon drawn with one stroked path.
#[derive(Clone, Debug, PartialEq, Eq)]
pub struct Icon {
    pub fill: String,
    pub stroke: String,
    pub stroke_linecap: String,
    pub stroke_linejoin: String,
    pub stroke_width: String,
    pub class: String,
    pub view_box: String,
    pub path: String,
}

/// Whether `i` is a round-capped, round-joined, unfilled icon stroked in the
/// current colour with width 2 on a 24-by-24 view box, with the given CSS
/// classes and path.
pub open spec fn line_icon(i: Icon, class: Seq<char>, path: Seq<char>) -> bool {
    &&& i.fill@ == "none"@
    &&& i.stroke@ == "currentColor"@
    &&& i.stroke_linecap@ == "round"@
    &&& i.stroke_linejoin@ == "round"@
    &&& i.stroke_width@ == "2"@
    &&& i.view_box@ == "0 0 24 24"@
    &&& i.class@ == class
    &&& i.path@ == path
}

fn line_icon_with(class: &str, path: &str) -> (i: Icon)
    ensures
        line_icon(i, class@, path@),
{
    Icon {
        fill: String::from_str("none"),
        stroke: String::from_str("currentColor"),
        stroke_linecap: String::from_str("round"),
        stroke_linejoin: String::from_str("round"),
        stroke_width: String::from_str("2"),
        class: String::from_str(class),
        view_box: String::from_str("0 0 24 24"),
        path: String::from_str(path),
    }
}

/// The "stacks" icon: three stacked chevron layers on a round indigo badge.
pub fn stacks_icon() -> (i: Icon)
    ensures
        line_icon(
            i,
            "w-10 h-10 text-white p-2 bg-indigo-500 rounded-full"@,
            "M12 2L2 7l10 5 10-5-10-5zM2 17l10 5 10-5M2 12l10 5 10-5"@,
        ),
{
    line_icon_with(
        "w-10 h-10 text-white p-2 bg-indigo-500 rounded-full",
        "M12 2L2 7l10 5 10-5-10-5zM2 17l10 5 10-5M2 12l10 5 10-5",
    )
}

/// The small right-pointing arrow icon.
pub fn right_arrow_icon() -> (i: Icon)
    ensures
        line_icon(i, "w-4 h-4 ml-1"@, "M5 12h14M12 5l7 7-7 7"@),
{
    line_icon_with("w-4 h-4 ml-1", "M5 12h14M12 5l7 7-7 7")
}

} // verus!
