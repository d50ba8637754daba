use winfree::form::{apply_form, set_remembered, ApplyPlan, FormError, FormFields, MoveRequest};
use winfree::item::{Item, Placement, Rect};
use winfree::table::WindowTable;

fn entry(hwnd: u32, checked: bool) -> Item {
    Item {
        hwnd,
        title: "Editor".to_string(),
        checked,
        left: -7,
        top: 20,
        width: 800,
        height: 600,
        name: "C:\\editor.exe".to_string(),
    }
}

fn form(hwnd: &str, checked: &str, l: &str, t: &str, w: &str, h: &str) -> FormFields {
    FormFields {
        hwnd: hwnd.to_string(),
        title: "T".to_string(),
        checked: checked.to_string(),
        left: l.to_string(),
        top: t.to_string(),
        width: w.to_string(),
        height: h.to_string(),
        name: "N".to_string(),
    }
}

#[test]
fn initial_form_holds_placeholders() {
    let f = FormFields::initial();
    let mut expected = form("0", "0", "", "", "", "");
    expected.title = "0".to_string();
    expected.name = "0".to_string();
    assert_eq!(f, expected);
}

#[test]
fn initial_form_does_nothing() {
    assert_eq!(FormFields::initial().plan_apply(), Ok(None));
}

#[test]
fn picking_a_row_fills_the_form() {
    let f = FormFields::from_item(&entry(66050, true));
    assert_eq!(f.hwnd, "66050");
    assert_eq!(f.checked, "true");
    assert_eq!(f.left, "-7");
    assert_eq!(f.top, "20");
    assert_eq!(f.width, "800");
    assert_eq!(f.height, "600");
    assert_eq!(f.title, "Editor");
    assert_eq!(f.name, "C:\\editor.exe");
}

#[test]
fn double_click_takes_the_current_rectangle() {
    let r = Rect { left: 10, top: -5, right: 110, bottom: 45 };
    let f = FormFields::from_window(&entry(3, false), &r);
    assert_eq!((f.left.as_str(), f.top.as_str(), f.width.as_str(), f.height.as_str()), ("10", "-5", "100", "50"));
    assert_eq!(f.checked, "false");
    assert_eq!(f.hwnd, "3");
}

#[test]
fn row_pick_then_apply_round_trips_checked_entry() {
    let e = entry(66050, true);
    let plan = FormFields::from_item(&e).plan_apply();
    assert_eq!(
        plan,
        Ok(Some(ApplyPlan {
            hwnd: 66050,
            placement: Placement { left: -7, top: 20, width: 800, height: 600 },
            remember: Some(e),
        }))
    );
}

#[test]
fn row_pick_then_apply_unchecked_entry_only_moves() {
    let e = entry(12, false);
    let plan = FormFields::from_item(&e).plan_apply();
    assert_eq!(
        plan,
        Ok(Some(ApplyPlan {
            hwnd: 12,
            placement: Placement { left: -7, top: 20, width: 800, height: 600 },
            remember: None,
        }))
    );
}

#[test]
fn handle_error() {
    assert_eq!(form("abc", "true", "1", "1", "1", "1").plan_apply(), Err(FormError::Handle));
    assert_eq!(form("", "true", "", "", "", "").plan_apply(), Err(FormError::Handle));
}

#[test]
fn nothing_without_positive_handle_or_with_empty_number() {
    assert_eq!(form("0", "x", "1", "1", "1", "1").plan_apply(), Ok(None));
    assert_eq!(form("-4", "x", "1", "1", "1", "1").plan_apply(), Ok(None));
    assert_eq!(form("5", "x", "", "1", "1", "1").plan_apply(), Ok(None));
    assert_eq!(form("5", "x", "1", "1", "1", "").plan_apply(), Ok(None));
}

#[test]
fn field_errors_in_order() {
    assert_eq!(form("5", "yes", "a", "b", "c", "d").plan_apply(), Err(FormError::Checked));
    assert_eq!(form("5", "true", "a", "b", "c", "d").plan_apply(), Err(FormError::Left));
    assert_eq!(form("5", "true", "1", "b", "c", "d").plan_apply(), Err(FormError::Top));
    assert_eq!(form("5", "false", "1", "2", "c", "d").plan_apply(), Err(FormError::Width));
    assert_eq!(form("5", "false", "1", "2", "3", "99999999999").plan_apply(), Err(FormError::Height));
}

#[test]
fn toggled_check_box_text_cannot_be_read_back() {
    let mut f = FormFields::from_item(&entry(9, false));
    f.mark_checked(true);
    assert_eq!(f.checked, "1");
    assert_eq!(f.plan_apply(), Err(FormError::Checked));
    f.mark_checked(false);
    assert_eq!(f.checked, "0");
}

#[test]
fn handle_is_cut_to_32_bits_in_remembered_entry() {
    let big = (1i64 << 32) + 7;
    let f = form(&big.to_string(), "true", "1", "2", "3", "4");
    let plan = f.plan_apply().unwrap().unwrap();
    assert_eq!(plan.hwnd as i64, big);
    assert_eq!(plan.remember.unwrap().hwnd, 7);
}

#[test]
fn apply_form_remembers_checked_layout() {
    let mut saved = WindowTable::new();
    let r = apply_form(&mut saved, &form("77", "true", "1", "2", "3", "4"));
    assert_eq!(
        r,
        Ok(Some(MoveRequest {
            hwnd: 77,
            placement: Placement { left: 1, top: 2, width: 3, height: 4 },
            saved_changed: true,
        }))
    );
    let kept = saved.get("N").unwrap();
    assert_eq!((kept.hwnd, kept.checked, kept.left, kept.height), (77, true, 1, 4));
}

#[test]
fn apply_form_unchecked_leaves_saved_alone() {
    let mut saved = WindowTable::new();
    let r = apply_form(&mut saved, &form("77", "false", "1", "2", "3", "4"));
    assert_eq!(r.unwrap().unwrap().saved_changed, false);
    assert!(saved.items().is_empty());
    assert_eq!(apply_form(&mut saved, &form("z", "false", "1", "2", "3", "4")), Err(FormError::Handle));
    assert!(saved.items().is_empty());
}

#[test]
fn check_box_remembers_and_forgets() {
    let mut saved = WindowTable::new();
    let e = entry(5, false);
    set_remembered(&mut saved, &e, true);
    let mut expected = e.clone();
    expected.checked = true;
    assert_eq!(saved.items(), vec![expected]);
    set_remembered(&mut saved, &e, false);
    assert!(saved.items().is_empty());
}
