//! A listed top-level window and the geometry that goes with it.

use vstd::prelude::*;
use crate::text::{
    chars_of, decimal, pad_left, pad_right, push_decimal, push_padded_left, push_padded_right,
    push_signed_decimal, signed_decimal, string_from_chars,
};

verus! {

/// A window's rectangle in screen coordinates, as the window system reports
/// it: left and top edges, right and bottom edges.
#[derive(PartialEq, Eq, Structural, Clone, Copy, Debug)]
pub struct Rect {
    pub left: i32,
    pub top: i32,
    pub right: i32,
    pub bottom: i32,
}

/// Where a window is put: its left and top edges, its width and height.
#[derive(PartialEq, Eq, Structural, Clone, Copy, Debug)]
pub struct Placement {
    pub left: i32,
    pub top: i32,
    pub width: i32,
    pub height: i32,
}

impl Rect {
    /// Whether the width and height of the rectangle fit in an `i32`.
    pub open spec fn extent_fits(self) -> bool {
        i32::MIN <= self.right - self.left <= i32::MAX && i32::MIN <= self.bottom - self.top
            <= i32::MAX
    }

    /// The placement that this rectangle describes.
    pub open spec fn spec_placement(self) -> Placement {
        Placement {
            left: self.left,
            top: self.top,
            width: (self.right - self.left) as i32,
            height: (self.bottom - self.top) as i32,
        }
    }

    /// The placement that this rectangle describes: its left and top edges,
    /// its width (right minus left) and height (bottom minus top).
    pub fn placement(&self) -> (p: Placement)
        requires
            self.extent_fits(),
        ensures
            p == self.spec_placement(),
    {
        Placement {
            left: self.left,
            top: self.top,
            width: self.right - self.left,
            height: self.bottom - self.top,
        }
    }
}

/// One listed window: its handle, title, whether its layout is remembered,
/// its placement, and the path of the program that owns it (the key under
/// which it is listed and remembered).
#[derive(Clone, Debug, PartialEq, Eq)]
pub struct Item {
    pub hwnd: u32,
    pub title: String,
    pub checked: bool,
    pub left: i32,
    pub top: i32,
    pub width: i32,
    pub height: i32,
    pub name: String,
}

/// What an `Item` holds, with its texts as character sequences.
pub struct ItemView {
    pub hwnd: u32,
    pub title: Seq<char>,
    pub checked: bool,
    pub left: i32,
    pub top: i32,
    pub width: i32,
    pub height: i32,
    pub name: Seq<char>,
}

impl ItemView {
    /// The placement that this entry records.
    pub open spec fn placement(self) -> Placement {
        Placement { left: self.left, top: self.top, width: self.width, height: self.height }
    }
}

impl View for Item {
    type V = ItemView;

    open spec fn view(&self) -> ItemView {
        ItemView {
            hwnd: self.hwnd,
            title: self.title@,
            checked: self.checked,
            left: self.left,
            top: self.top,
            width: self.width,
            height: self.height,
            name: self.name@,
        }
    }
}

/// The one-line description of an entry: the handle left-aligned in 8
/// columns, then ` (`, left, top, width and height each right-aligned in 4
/// columns and separated by `, `, then `) `, the title left-aligned in 40
/// columns, a space, and the name left-aligned in 40 columns. This is
/// `format!("{:<8} ({:>4}, {:>4}, {:>4}, {:>4}) {:40} {:40}", ..)`.
pub open spec fn description(v: ItemView) -> Seq<char> {
    pad_right(decimal(v.hwnd as nat), 8) + seq![' ', '('] + pad_left(
        signed_decimal(v.left as int),
        4,
    ) + seq![',', ' '] + pad_left(signed_decimal(v.top as int), 4) + seq![',', ' '] + pad_left(
        signed_decimal(v.width as int),
        4,
    ) + seq![',', ' '] + pad_left(signed_decimal(v.height as int), 4) + seq![')', ' ']
        + pad_right(v.title, 40) + seq![' '] + pad_right(v.name, 40)
}

fn push_padded_number(out: &mut Vec<char>, v: i32)
    ensures
        final(out)@ == old(out)@ + pad_left(signed_decimal(v as int), 4),
{
    let mut digits: Vec<char> = Vec::new();
    push_signed_decimal(&mut digits, v as i64);
    assert(digits@ =~= signed_decimal(v as int));
    push_padded_left(out, &digits, 4);
}

impl Item {
    /// A copy of this entry.
    pub fn duplicate(&self) -> (r: Item)
        ensures
            r@ == self@,
    {
        Item {
            hwnd: self.hwnd,
            title: self.title.clone(),
            checked: self.checked,
            left: self.left,
            top: self.top,
            width: self.width,
            height: self.height,
            name: self.name.clone(),
        }
    }

    /// The placement that this entry records.
    pub fn placement(&self) -> (p: Placement)
        ensures
            p == self@.placement(),
    {
        Placement { left: self.left, top: self.top, width: self.width, height: self.height }
    }

    /// The one-line description of this entry (see `description`).
    pub fn describe(&self) -> (s: String)
        ensures
            s@ == description(self@),
    {
        let mut out: Vec<char> = Vec::new();
        let mut hwnd_digits: Vec<char> = Vec::new();
        push_decimal(&mut hwnd_digits, self.hwnd as u64);
        assert(hwnd_digits@ =~= decimal(self.hwnd as nat));
        push_padded_right(&mut out, &hwnd_digits, 8);
        let ghost p0 = pad_right(decimal(self.hwnd as nat), 8);
        assert(out@ =~= p0);
        out.push(' ');
        out.push('(');
        let ghost p1 = p0 + seq![' ', '('];
        assert(out@ =~= p1);
        push_padded_number(&mut out, self.left);
        let ghost p2 = p1 + pad_left(signed_decimal(self.left as int), 4);
        out.push(',');
        out.push(' ');
        let ghost p3 = p2 + seq![',', ' '];
        assert(out@ =~= p3);
        push_padded_number(&mut out, self.top);
        let ghost p4 = p3 + pad_left(signed_decimal(self.top as int), 4);
        out.push(',');
        out.push(' ');
        let ghost p5 = p4 + seq![',', ' '];
        assert(out@ =~= p5);
        push_padded_number(&mut out, self.width);
        let ghost p6 = p5 + pad_left(signed_decimal(self.width as int), 4);
        out.push(',');
        out.push(' ');
        let ghost p7 = p6 + seq![',', ' '];
        assert(out@ =~= p7);
        push_padded_number(&mut out, self.height);
        let ghost p8 = p7 + pad_left(signed_decimal(self.height as int), 4);
        out.push(')');
        out.push(' ');
        let ghost p9 = p8 + seq![')', ' '];
        assert(out@ =~= p9);
        let title = chars_of(self.title.as_str());
        push_padded_right(&mut out, &title, 40);
        let ghost p10 = p9 + pad_right(self.title@, 40);
        out.push(' ');
        let ghost p11 = p10 + seq![' '];
        assert(out@ =~= p11);
        let name = chars_of(self.name.as_str());
        push_padded_right(&mut out, &name, 40);
        assert(out@ == description(self@));
        string_from_chars(&out)
    }
}

/// The layout of an entry's description: it starts with the handle's
/// digits; a handle of at most 8 digits is followed by spaces up to column 8
/// and then ` (`; a left edge of at most 4 characters fills columns 10 to 13
/// right-aligned when the handle fits its 8 columns; and it ends with a space and the name left-aligned in 40
/// columns.
pub proof fn law_description_layout(v: ItemView)
    ensures
        description(v).take(decimal(v.hwnd as nat).len() as int) == decimal(v.hwnd as nat),
        decimal(v.hwnd as nat).len() <= 8 ==> {
            &&& forall|i: int|
                decimal(v.hwnd as nat).len() <= i < 8 ==> #[trigger] description(v)[i] == ' '
            &&& description(v)[8] == ' '
            &&& description(v)[9] == '('
        },
        decimal(v.hwnd as nat).len() <= 8 && signed_decimal(v.left as int).len() <= 4
            ==> description(v).subrange(14 - signed_decimal(v.left as int).len(), 14)
            == signed_decimal(v.left as int),
        description(v).skip(description(v).len() - pad_right(v.name, 40).len()) == pad_right(
            v.name,
            40,
        ),
        description(v)[description(v).len() - pad_right(v.name, 40).len() - 1] == ' ',
{
    crate::text::law_padding(decimal(v.hwnd as nat), 8);
    crate::text::law_padding(signed_decimal(v.left as int), 4);
    let d = description(v);
    let a = pad_right(decimal(v.hwnd as nat), 8);
    assert(d.take(decimal(v.hwnd as nat).len() as int) =~= a.take(
        decimal(v.hwnd as nat).len() as int,
    ));
    let n = pad_right(v.name, 40);
    assert(d.skip(d.len() - n.len()) =~= n);
    if decimal(v.hwnd as nat).len() <= 8 {
        assert(a.len() == 8);
        assert forall|i: int| decimal(v.hwnd as nat).len() <= i < 8 implies #[trigger] d[i]
            == ' ' by {
            assert(d[i] == a[i]);
        }
        if signed_decimal(v.left as int).len() <= 4 {
            let l = pad_left(signed_decimal(v.left as int), 4);
            assert(d.subrange(10, 14) =~= l);
            assert(d.subrange(14 - signed_decimal(v.left as int).len(), 14) =~= l.skip(
                4 - signed_decimal(v.left as int).len(),
            ));
        }
    }
}

} // verus!
