//! The editing form: the texts it holds, how picking a row fills it, and how
//! its texts are read back into a placement to apply and, for a checked
//! window, a layout to remember.

use vstd::prelude::*;
use crate::item::{Item, ItemView, Placement, Rect};
use crate::table::WindowTable;
use crate::text::{
    bool_text, bool_to_text, decimal, i32_text, law_bool_round_trip, law_decimal_round_trip,
    law_signed_decimal_round_trip, parse_bool, parse_bool_text, parse_i32, parse_isize,
    parse_signed, signed_decimal, string_from_chars, u32_text,
};

verus! {

broadcast use vstd::string::group_string_axioms;

/// The texts of the editing form: handle, title, checked flag, left, top,
/// width, height and name.
#[derive(Clone, Debug, PartialEq, Eq)]
pub struct FormFields {
    pub hwnd: String,
    pub title: String,
    pub checked: String,
    pub left: String,
    pub top: String,
    pub width: String,
    pub height: String,
    pub name: String,
}

/// What the form holds, as character sequences.
pub struct FormView {
    pub hwnd: Seq<char>,
    pub title: Seq<char>,
    pub checked: Seq<char>,
    pub left: Seq<char>,
    pub top: Seq<char>,
    pub width: Seq<char>,
    pub height: Seq<char>,
    pub name: Seq<char>,
}

impl View for FormFields {
    type V = FormView;

    open spec fn view(&self) -> FormView {
        FormView {
            hwnd: self.hwnd@,
            title: self.title@,
            checked: self.checked@,
            left: self.left@,
            top: self.top@,
            width: self.width@,
            height: self.height@,
            name: self.name@,
        }
    }
}

/// The form before any row is picked: handle, title, checked flag and name
/// `0`, the four numbers empty.
pub open spec fn initial_form() -> FormView {
    FormView {
        hwnd: seq!['0'],
        title: seq!['0'],
        checked: seq!['0'],
        left: Seq::empty(),
        top: Seq::empty(),
        width: Seq::empty(),
        height: Seq::empty(),
        name: seq!['0'],
    }
}

/// The form after picking the row of entry `v`: each field holds what
/// `to_string` gives for the entry's field.
pub open spec fn form_of_item(v: ItemView) -> FormView {
    FormView {
        hwnd: decimal(v.hwnd as nat),
        title: v.title,
        checked: bool_text(v.checked),
        left: signed_decimal(v.left as int),
        top: signed_decimal(v.top as int),
        width: signed_decimal(v.width as int),
        height: signed_decimal(v.height as int),
        name: v.name,
    }
}

/// The form after double-clicking the row of entry `v` whose window now
/// has rectangle `r`: handle, title, checked flag and name from the entry,
/// the placement from the window's current rectangle.
pub open spec fn form_of_window(v: ItemView, r: Rect) -> FormView {
    FormView {
        hwnd: decimal(v.hwnd as nat),
        title: v.title,
        checked: bool_text(v.checked),
        left: signed_decimal(r.left as int),
        top: signed_decimal(r.top as int),
        width: signed_decimal(r.right - r.left),
        height: signed_decimal(r.bottom - r.top),
        name: v.name,
    }
}

/// The text the checked flag gets when a row's check box is toggled: `1`
/// when checked, `0` when not.
pub open spec fn toggle_text(on: bool) -> Seq<char> {
    if on {
        seq!['1']
    } else {
        seq!['0']
    }
}

/// The form field that could not be read.
#[derive(PartialEq, Eq, Structural, Clone, Copy, Debug)]
pub enum FormError {
    Handle,
    Checked,
    Left,
    Top,
    Width,
    Height,
}

/// What applying the form asks for: the window to move, where to, and the
/// layout to remember when the form's window is checked.
#[derive(Clone, Debug, PartialEq, Eq)]
pub struct ApplyPlan {
    pub hwnd: isize,
    pub placement: Placement,
    pub remember: Option<Item>,
}

/// What an `ApplyPlan` holds.
pub struct PlanView {
    pub hwnd: int,
    pub placement: Placement,
    pub remember: Option<ItemView>,
}

impl View for ApplyPlan {
    type V = PlanView;

    open spec fn view(&self) -> PlanView {
        PlanView {
            hwnd: self.hwnd as int,
            placement: self.placement,
            remember: match self.remember {
                Some(it) => Some(it@),
                None => None,
            },
        }
    }
}

/// The view of the result of reading the form.
pub open spec fn outcome_view(r: Result<Option<ApplyPlan>, FormError>) -> Result<
    Option<PlanView>,
    FormError,
> {
    match r {
        Ok(Some(p)) => Ok(Some(p@)),
        Ok(None) => Ok(None),
        Err(e) => Err(e),
    }
}

/// Reading the form when it is applied. The handle must read as an `isize`
/// (else `Handle`). Nothing is asked for unless the handle is positive and
/// left, top, width and height are all non-empty. Then the checked flag must
/// read as a `bool` and the four numbers as `i32`s, in that order (the first
/// that does not gives its error). The window is to be moved to those
/// numbers; when checked, the entry made of the handle (cut to 32 bits),
/// title, the numbers and name is to be remembered, checked.
pub open spec fn apply_outcome(f: FormView) -> Result<Option<PlanView>, FormError> {
    match parse_signed(f.hwnd, isize::MIN as int, isize::MAX as int) {
        None => Err(FormError::Handle),
        Some(h) => if !(h > 0 && f.left.len() > 0 && f.top.len() > 0 && f.width.len() > 0
            && f.height.len() > 0) {
            Ok(None)
        } else {
            match parse_bool_text(f.checked) {
                None => Err(FormError::Checked),
                Some(c) => match parse_signed(f.left, i32::MIN as int, i32::MAX as int) {
                    None => Err(FormError::Left),
                    Some(l) => match parse_signed(f.top, i32::MIN as int, i32::MAX as int) {
                        None => Err(FormError::Top),
                        Some(t) => match parse_signed(f.width, i32::MIN as int, i32::MAX as int) {
                            None => Err(FormError::Width),
                            Some(w) => match parse_signed(
                                f.height,
                                i32::MIN as int,
                                i32::MAX as int,
                            ) {
                                None => Err(FormError::Height),
                                Some(ht) => {
                                    let place = Placement {
                                        left: l as i32,
                                        top: t as i32,
                                        width: w as i32,
                                        height: ht as i32,
                                    };
                                    Ok(
                                        Some(
                                            PlanView {
                                                hwnd: h,
                                                placement: place,
                                                remember: if c {
                                                    Some(
                                                        ItemView {
                                                            hwnd: h as u32,
                                                            title: f.title,
                                                            checked: true,
                                                            left: l as i32,
                                                            top: t as i32,
                                                            width: w as i32,
                                                            height: ht as i32,
                                                            name: f.name,
                                                        },
                                                    )
                                                } else {
                                                    None
                                                },
                                            },
                                        ),
                                    )
                                },
                            },
                        },
                    },
                },
            }
        },
    }
}

fn text_of(c: &Vec<char>) -> (s: String)
    ensures
        s@ == c@,
{
    string_from_chars(c)
}

impl FormFields {
    /// The form before any row is picked.
    pub fn initial() -> (f: FormFields)
        ensures
            f@ == initial_form(),
    {
        let mut zero: Vec<char> = Vec::new();
        zero.push('0');
        let empty: Vec<char> = Vec::new();
        assert(zero@ =~= seq!['0']);
        FormFields {
            hwnd: text_of(&zero),
            title: text_of(&zero),
            checked: text_of(&zero),
            left: text_of(&empty),
            top: text_of(&empty),
            width: text_of(&empty),
            height: text_of(&empty),
            name: text_of(&zero),
        }
    }

    /// The form after picking the row of `item`.
    pub fn from_item(item: &Item) -> (f: FormFields)
        ensures
            f@ == form_of_item(item@),
    {
        FormFields {
            hwnd: u32_text(item.hwnd),
            title: item.title.clone(),
            checked: bool_to_text(item.checked),
            left: i32_text(item.left),
            top: i32_text(item.top),
            width: i32_text(item.width),
            height: i32_text(item.height),
            name: item.name.clone(),
        }
    }

    /// The form after double-clicking the row of `item`, whose window now
    /// has rectangle `rect`.
    pub fn from_window(item: &Item, rect: &Rect) -> (f: FormFields)
        requires
            rect.extent_fits(),
        ensures
            f@ == form_of_window(item@, *rect),
    {
        let p = rect.placement();
        FormFields {
            hwnd: u32_text(item.hwnd),
            title: item.title.clone(),
            checked: bool_to_text(item.checked),
            left: i32_text(p.left),
            top: i32_text(p.top),
            width: i32_text(p.width),
            height: i32_text(p.height),
            name: item.name.clone(),
        }
    }

    /// Sets the checked flag as toggling a row's check box does (`1` or
    /// `0`), leaving the other fields as they are.
    pub fn mark_checked(&mut self, on: bool)
        ensures
            final(self)@ == (FormView { checked: toggle_text(on), ..old(self)@ }),
    {
        let mut c: Vec<char> = Vec::new();
        if on {
            c.push('1');
        } else {
            c.push('0');
        }
        assert(c@ =~= toggle_text(on));
        self.checked = text_of(&c);
    }

    /// Reads the form as applying it does (see `apply_outcome`).
    pub fn plan_apply(&self) -> (r: Result<Option<ApplyPlan>, FormError>)
        ensures
            outcome_view(r) == apply_outcome(self@),
    {
        let h = match parse_isize(self.hwnd.as_str()) {
            Some(h) => h,
            None => {
                return Err(FormError::Handle);
            },
        };
        if !(h > 0 && !self.left.as_str().is_empty() && !self.top.as_str().is_empty()
            && !self.width.as_str().is_empty() && !self.height.as_str().is_empty()) {
            return Ok(None);
        }
        let c = match parse_bool(self.checked.as_str()) {
            Some(c) => c,
            None => {
                return Err(FormError::Checked);
            },
        };
        let l = match parse_i32(self.left.as_str()) {
            Some(v) => v,
            None => {
                return Err(FormError::Left);
            },
        };
        let t = match parse_i32(self.top.as_str()) {
            Some(v) => v,
            None => {
                return Err(FormError::Top);
            },
        };
        let w = match parse_i32(self.width.as_str()) {
            Some(v) => v,
            None => {
                return Err(FormError::Width);
            },
        };
        let ht = match parse_i32(self.height.as_str()) {
            Some(v) => v,
            None => {
                return Err(FormError::Height);
            },
        };
        let placement = Placement { left: l, top: t, width: w, height: ht };
        let remember = if c {
            Some(
                Item {
                    hwnd: #[verifier::truncate] (h as u32),
                    title: self.title.clone(),
                    checked: true,
                    left: l,
                    top: t,
                    width: w,
                    height: ht,
                    name: self.name.clone(),
                },
            )
        } else {
            None
        };
        Ok(Some(ApplyPlan { hwnd: h, placement, remember }))
    }
}

/// What applying the form leads to once the remembered layouts are updated:
/// the window to move and where to, and whether the remembered layouts
/// changed (and are to be saved).
#[derive(PartialEq, Eq, Structural, Clone, Copy, Debug)]
pub struct MoveRequest {
    pub hwnd: isize,
    pub placement: Placement,
    pub saved_changed: bool,
}

/// Applies the form: reads it (see `apply_outcome`) and, when it names a
/// checked window, remembers that window's layout in `saved`. The result is
/// the move to make, or nothing to do, or the field that could not be read;
/// `saved` changes only when a layout is remembered.
pub fn apply_form(saved: &mut WindowTable, form: &FormFields) -> (r: Result<
    Option<MoveRequest>,
    FormError,
>)
    requires
        old(saved).wf(),
    ensures
        final(saved).wf(),
        match apply_outcome(form@) {
            Err(e) => r == Err::<Option<MoveRequest>, FormError>(e) && final(saved)@ == old(saved)@,
            Ok(None) => r == Ok::<Option<MoveRequest>, FormError>(None) && final(saved)@ == old(
                saved,
            )@,
            Ok(Some(p)) => r is Ok && r->Ok_0 is Some && r->Ok_0->Some_0.hwnd == p.hwnd
                && r->Ok_0->Some_0.placement == p.placement && r->Ok_0->Some_0.saved_changed == (
            p.remember is Some) && match p.remember {
                Some(it) => final(saved)@ == old(saved)@.insert(it.name, it),
                None => final(saved)@ == old(saved)@,
            },
        },
{
    match form.plan_apply() {
        Err(e) => Err(e),
        Ok(None) => Ok(None),
        Ok(Some(plan)) => {
            let saved_changed = plan.remember.is_some();
            match plan.remember {
                Some(it) => {
                    saved.insert(it);
                },
                None => {},
            }
            Ok(Some(MoveRequest { hwnd: plan.hwnd, placement: plan.placement, saved_changed }))
        },
    }
}

/// Records the toggling of a row's check box in the remembered layouts:
/// checking it remembers the row's entry, marked checked, under its name;
/// unchecking it forgets what was remembered under that name.
pub fn set_remembered(saved: &mut WindowTable, item: &Item, on: bool)
    requires
        old(saved).wf(),
    ensures
        final(saved).wf(),
        final(saved)@ == (if on {
            old(saved)@.insert(item.name@, ItemView { checked: true, ..item@ })
        } else {
            old(saved)@.remove(item.name@)
        }),
{
    if on {
        let mut it = item.duplicate();
        it.checked = true;
        saved.insert(it);
    } else {
        let _ = saved.remove(item.name.as_str());
    }
}

/// Picking a row and applying the form unchanged moves the window to the
/// entry's placement and, when the entry is checked, remembers the entry as
/// it is: the form's texts read back exactly what was written into them.
/// This holds for every entry whose handle is positive and fits an `isize`.
pub proof fn law_row_pick_then_apply(v: ItemView)
    requires
        0 < v.hwnd,
        v.hwnd <= isize::MAX,
    ensures
        apply_outcome(form_of_item(v)) == Ok::<Option<PlanView>, FormError>(
            Some(
                PlanView {
                    hwnd: v.hwnd as int,
                    placement: v.placement(),
                    remember: if v.checked {
                        Some(ItemView { checked: true, ..v })
                    } else {
                        None
                    },
                },
            ),
        ),
{
    let f = form_of_item(v);
    law_decimal_round_trip(v.hwnd as nat, isize::MIN as int, isize::MAX as int);
    law_bool_round_trip(v.checked);
    law_signed_decimal_round_trip(v.left as int, i32::MIN as int, i32::MAX as int);
    law_signed_decimal_round_trip(v.top as int, i32::MIN as int, i32::MAX as int);
    law_signed_decimal_round_trip(v.width as int, i32::MIN as int, i32::MAX as int);
    law_signed_decimal_round_trip(v.height as int, i32::MIN as int, i32::MAX as int);
    crate::text::lemma_signed_decimal_nonempty(v.left as int);
    crate::text::lemma_signed_decimal_nonempty(v.top as int);
    crate::text::lemma_signed_decimal_nonempty(v.width as int);
    crate::text::lemma_signed_decimal_nonempty(v.height as int);
    assert(((v.hwnd as int) as u32) == v.hwnd);
}

/// Applying the form before any row is picked does nothing: its handle reads
/// as zero.
pub proof fn law_initial_form_does_nothing()
    ensures
        apply_outcome(initial_form()) == Ok::<Option<PlanView>, FormError>(None),
{
    law_decimal_round_trip(0, isize::MIN as int, isize::MAX as int);
    assert(decimal(0) =~= seq!['0']);
}

/// Double-clicking a row and applying the form unchanged moves the window
/// to where it now is (its current rectangle) and, when the row's entry is
/// checked, remembers that placement under the entry's own name, with the
/// entry's title and handle: the form keeps the entry's handle, title,
/// checked flag and name, and takes the placement from the rectangle. This
/// holds for every entry whose handle is positive and fits an `isize`.
pub proof fn law_double_click_then_apply(v: ItemView, r: Rect)
    requires
        0 < v.hwnd,
        v.hwnd <= isize::MAX,
        r.extent_fits(),
    ensures
        apply_outcome(form_of_window(v, r)) == Ok::<Option<PlanView>, FormError>(
            Some(
                PlanView {
                    hwnd: v.hwnd as int,
                    placement: Placement {
                        left: r.left,
                        top: r.top,
                        width: (r.right - r.left) as i32,
                        height: (r.bottom - r.top) as i32,
                    },
                    remember: if v.checked {
                        Some(
                            ItemView {
                                hwnd: v.hwnd,
                                title: v.title,
                                checked: true,
                                left: r.left,
                                top: r.top,
                                width: (r.right - r.left) as i32,
                                height: (r.bottom - r.top) as i32,
                                name: v.name,
                            },
                        )
                    } else {
                        None
                    },
                },
            ),
        ),
        form_of_window(v, r).name == v.name,
        form_of_window(v, r).title == v.title,
        parse_bool_text(form_of_window(v, r).checked) == Some(v.checked),
{
    law_decimal_round_trip(v.hwnd as nat, isize::MIN as int, isize::MAX as int);
    law_bool_round_trip(v.checked);
    law_signed_decimal_round_trip(r.left as int, i32::MIN as int, i32::MAX as int);
    law_signed_decimal_round_trip(r.top as int, i32::MIN as int, i32::MAX as int);
    law_signed_decimal_round_trip(r.right - r.left, i32::MIN as int, i32::MAX as int);
    law_signed_decimal_round_trip(r.bottom - r.top, i32::MIN as int, i32::MAX as int);
    crate::text::lemma_signed_decimal_nonempty(r.left as int);
    crate::text::lemma_signed_decimal_nonempty(r.top as int);
    crate::text::lemma_signed_decimal_nonempty(r.right - r.left);
    crate::text::lemma_signed_decimal_nonempty(r.bottom - r.top);
    assert(((v.hwnd as int) as u32) == v.hwnd);
}

/// Applying a form whose handle reads as a positive number but one of whose
/// four numbers (left, top, width or height) is empty asks for nothing:
/// nothing is moved and nothing remembered, whatever the other fields hold.
pub proof fn law_empty_number_does_nothing(f: FormView, h: int)
    requires
        parse_signed(f.hwnd, isize::MIN as int, isize::MAX as int) == Some(h),
        h > 0,
    ensures
        f.left.len() == 0 ==> apply_outcome(f) == Ok::<Option<PlanView>, FormError>(None),
        f.top.len() == 0 ==> apply_outcome(f) == Ok::<Option<PlanView>, FormError>(None),
        f.width.len() == 0 ==> apply_outcome(f) == Ok::<Option<PlanView>, FormError>(None),
        f.height.len() == 0 ==> apply_outcome(f) == Ok::<Option<PlanView>, FormError>(None),
        f.left.len() > 0 && f.top.len() > 0 && f.width.len() > 0 && f.height.len() > 0
            ==> apply_outcome(f) != Ok::<Option<PlanView>, FormError>(None),
{
}

/// Applying a form whose handle does not read as a positive number asks for
/// nothing, and one whose handle does not read as a number at all fails on
/// the handle, whatever the other fields hold.
pub proof fn law_handle_decides_first(f: FormView)
    ensures
        parse_signed(f.hwnd, isize::MIN as int, isize::MAX as int) is None ==> apply_outcome(f)
            == Err::<Option<PlanView>, FormError>(FormError::Handle),
        (parse_signed(f.hwnd, isize::MIN as int, isize::MAX as int) matches Some(h) && h <= 0)
            ==> apply_outcome(f) == Ok::<Option<PlanView>, FormError>(None),
{
}

} // verus!
