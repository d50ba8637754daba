//! What happens to each top-level window when the list is refreshed: whether
//! it is listed, which entry it gets, whether a remembered layout is applied
//! to it, and whether it is this program's own window.

use vstd::prelude::*;
use crate::item::{Item, ItemView, Placement, Rect};
use crate::order::same_text;
use crate::table::WindowTable;

verus! {

broadcast use vstd::string::group_string_axioms;

/// The style bit of a window that is visible (`WS_VISIBLE`).
pub const WS_VISIBLE: u32 = 0x1000_0000;

/// What the window system reports of one top-level window.
pub struct WindowProbe {
    /// The window's handle.
    pub hwnd: isize,
    /// The window's title.
    pub title: String,
    /// The window's style bits.
    pub style: u32,
    /// The window's rectangle on screen.
    pub rect: Rect,
    /// The path of the program that owns the window; `None` when the
    /// owning process could not be opened.
    pub process_name: Option<String>,
}

/// What refreshing the list decided for one window.
#[derive(PartialEq, Eq, Structural, Clone, Copy, Debug)]
pub struct Observation {
    /// Whether the window was entered in the list.
    pub listed: bool,
    /// Where to move the window, when a remembered layout applies to it.
    pub move_to: Option<Placement>,
    /// Whether the window belongs to this program itself.
    pub own_window: bool,
}

/// The name a window is listed under: the owning program's path, or the
/// empty name when the owning process could not be opened.
pub open spec fn probe_name(p: &WindowProbe) -> Seq<char> {
    match p.process_name {
        Some(n) => n@,
        None => Seq::empty(),
    }
}

/// Whether a window is listed: it has a title, it is visible, and it is not
/// a window that starts at the left screen edge and spans the screen's whole
/// width.
pub open spec fn is_listed(p: &WindowProbe, screen_width: i32) -> bool {
    &&& p.title@.len() > 0
    &&& p.style & WS_VISIBLE != 0
    &&& !(p.rect.left == 0 && p.rect.right - p.rect.left == screen_width)
}

/// Whether a window with this title, style and rectangle is listed (see
/// `is_listed`).
pub fn window_is_listed(title: &str, style: u32, rect: &Rect, screen_width: i32) -> (r: bool)
    ensures
        r == (title@.len() > 0 && style & WS_VISIBLE != 0 && !(rect.left == 0 && rect.right
            - rect.left == screen_width)),
{
    !title.is_empty() && style & WS_VISIBLE != 0 && !(rect.left == 0 && rect.right
        == screen_width)
}

/// The entry a listed window gets: its handle (cut to 32 bits), title and
/// name; checked, with the remembered placement, when a layout is
/// remembered under its name; otherwise unchecked, with its current
/// placement.
pub open spec fn listed_entry(
    p: &WindowProbe,
    saved: Map<Seq<char>, ItemView>,
) -> ItemView {
    let name = probe_name(p);
    let place = if saved.contains_key(name) {
        saved[name].placement()
    } else {
        p.rect.spec_placement()
    };
    ItemView {
        hwnd: p.hwnd as u32,
        title: p.title@,
        checked: saved.contains_key(name),
        left: place.left,
        top: place.top,
        width: place.width,
        height: place.height,
        name: name,
    }
}

/// Handles one window while the list is refreshed. A listed window is
/// entered in `list` under its name (replacing an entry of the same name).
/// When a layout is remembered under its name, the window is to be moved to
/// that layout unless the user has picked a row since (`row_click`). The
/// window is this program's own when its owner's path is `exe`.
pub fn observe_window(
    list: &mut WindowTable,
    saved: &WindowTable,
    probe: &WindowProbe,
    screen_width: i32,
    row_click: bool,
    exe: &str,
) -> (o: Observation)
    requires
        old(list).wf(),
        saved.wf(),
        is_listed(probe, screen_width) ==> probe.rect.extent_fits(),
    ensures
        final(list).wf(),
        o.listed == is_listed(probe, screen_width),
        o.listed ==> final(list)@ == old(list)@.insert(
            probe_name(probe),
            listed_entry(probe, saved@),
        ),
        !o.listed ==> final(list)@ == old(list)@,
        o.move_to == (if o.listed && saved@.contains_key(probe_name(probe)) && !row_click {
            Some(saved@[probe_name(probe)].placement())
        } else {
            None
        }),
        o.own_window == (o.listed && probe.process_name is Some && probe_name(probe) == exe@),
        final(list)@.dom().finite(),
        final(list)@.dom().len() <= old(list)@.dom().len() + 1,
        forall|k: Seq<char>| #[trigger] final(list)@.contains_key(k) ==> final(list)@[k].name == k,
{
    proof {
        list.lemma_contents();
    }
    let shown = window_is_listed(probe.title.as_str(), probe.style, &probe.rect, screen_width);
    if !shown {
        return Observation { listed: false, move_to: None, own_window: false };
    }
    let name: String = match &probe.process_name {
        Some(n) => n.clone(),
        None => String::new(),
    };
    let own_window = match &probe.process_name {
        Some(n) => same_text(n.as_str(), exe),
        None => false,
    };
    let current = probe.rect.placement();
    let (checked, place, move_to) = match saved.get(name.as_str()) {
        Some(remembered) => {
            let p = remembered.placement();
            (true, p, if row_click {
                None
            } else {
                Some(p)
            })
        },
        None => (false, current, None),
    };
    let entry = Item {
        hwnd: #[verifier::truncate] (probe.hwnd as u32),
        title: probe.title.clone(),
        checked,
        left: place.left,
        top: place.top,
        width: place.width,
        height: place.height,
        name,
    };
    list.insert(entry);
    proof {
        list.lemma_contents();
    }
    Observation { listed: true, move_to, own_window }
}

/// The name under which the program registers itself to start with the
/// user's session.
pub open spec fn autostart_name() -> Seq<char> {
    seq!['w', 'i', 'n', 'f', 'r', 'e', 'e']
}

/// The name under which the program registers itself to start with the
/// user's session: `winfree`.
pub fn autostart_value_name() -> (s: String)
    ensures
        s@ == autostart_name(),
{
    let mut c: Vec<char> = Vec::new();
    c.push('w');
    c.push('i');
    c.push('n');
    c.push('f');
    c.push('r');
    c.push('e');
    c.push('e');
    assert(c@ =~= autostart_name());
    crate::text::string_from_chars(&c)
}

/// Whether the program is registered to start with the session: whether one
/// of the value names found under the session's start-up key is the
/// program's own.
pub fn autostart_registered(value_names: &Vec<String>) -> (r: bool)
    ensures
        r == exists|i: int| 0 <= i < value_names.len() && #[trigger] value_names@[i]@ == autostart_name(),
{
    let own = autostart_value_name();
    let mut i: usize = 0;
    while i < value_names.len()
        invariant
            i <= value_names.len(),
            own@ == autostart_name(),
            forall|j: int| 0 <= j < i ==> #[trigger] value_names@[j]@ != autostart_name(),
        decreases value_names.len() - i,
    {
        if value_names[i] == own {
            return true;
        }
        i = i + 1;
    }
    false
}

/// The listing rule: a window with a title and the visible style is listed
/// unless it starts exactly at the left screen edge and is exactly as wide
/// as the screen. So a titled visible window is listed whenever its left
/// edge is not at zero (maximized windows, windows on monitors left of the
/// primary one), and whenever its width differs from the screen's; an
/// untitled or invisible window is never listed.
pub proof fn law_listing_rule(p: &WindowProbe, screen_width: i32)
    ensures
        p.title@.len() > 0 && p.style & WS_VISIBLE != 0 && p.rect.left != 0 ==> is_listed(
            p,
            screen_width,
        ),
        p.title@.len() > 0 && p.style & WS_VISIBLE != 0 && p.rect.right - p.rect.left
            != screen_width ==> is_listed(p, screen_width),
        p.title@.len() == 0 ==> !is_listed(p, screen_width),
        p.style & WS_VISIBLE == 0 ==> !is_listed(p, screen_width),
        p.rect.left == 0 && p.rect.right - p.rect.left == screen_width ==> !is_listed(
            p,
            screen_width,
        ),
{
}

/// The entry a listed window gets. With nothing remembered under its name it
/// records the window's rectangle exactly (left and top edges, width and
/// height, negative coordinates included) and is unchecked; with a layout
/// remembered under its name it takes that layout and is checked. Either way
/// it carries the window's title, its name, and its handle cut to 32 bits.
pub proof fn law_listed_entry(p: &WindowProbe, saved: Map<Seq<char>, ItemView>)
    requires
        p.rect.extent_fits(),
    ensures
        listed_entry(p, saved).title == p.title@,
        listed_entry(p, saved).name == probe_name(p),
        listed_entry(p, saved).hwnd == p.hwnd as u32,
        !saved.contains_key(probe_name(p)) ==> {
            let e = listed_entry(p, saved);
            &&& !e.checked
            &&& e.left == p.rect.left
            &&& e.top == p.rect.top
            &&& e.width == p.rect.right - p.rect.left
            &&& e.height == p.rect.bottom - p.rect.top
        },
        saved.contains_key(probe_name(p)) ==> {
            let e = listed_entry(p, saved);
            let r = saved[probe_name(p)];
            &&& e.checked
            &&& e.left == r.left
            &&& e.top == r.top
            &&& e.width == r.width
            &&& e.height == r.height
        },
{
}

} // verus!
