use winfree::item::{Item, Placement, Rect};
use winfree::table::WindowTable;
use winfree::window::{
    autostart_registered, autostart_value_name, observe_window, Observation, WindowProbe, WS_VISIBLE,
};

fn probe(title: &str, style: u32, rect: Rect, name: Option<&str>) -> WindowProbe {
    WindowProbe {
        hwnd: 0x1_0000_0042,
        title: title.to_string(),
        style,
        rect,
        process_name: name.map(|s| s.to_string()),
    }
}

const R: Rect = Rect { left: 100, top: 50, right: 500, bottom: 350 };

#[test]
fn untitled_or_invisible_windows_are_not_listed() {
    let mut list = WindowTable::new();
    let saved = WindowTable::new();
    for p in [probe("", WS_VISIBLE, R, Some("a")), probe("x", 0x0800_0000, R, Some("a"))] {
        let o = observe_window(&mut list, &saved, &p, 1920, false, "me");
        assert_eq!(o, Observation { listed: false, move_to: None, own_window: false });
    }
    assert!(list.items().is_empty());
}

#[test]
fn full_width_window_at_left_edge_is_not_listed() {
    let mut list = WindowTable::new();
    let saved = WindowTable::new();
    let full = Rect { left: 0, top: 0, right: 1920, bottom: 1080 };
    let o = observe_window(&mut list, &saved, &probe("Desk", WS_VISIBLE, full, Some("d")), 1920, false, "");
    assert!(!o.listed);
    let narrower = Rect { left: 0, top: 0, right: 1900, bottom: 1080 };
    let o = observe_window(&mut list, &saved, &probe("Desk", WS_VISIBLE, narrower, Some("d")), 1920, false, "");
    assert!(o.listed);
}

#[test]
fn new_window_is_listed_with_its_rectangle() {
    let mut list = WindowTable::new();
    let saved = WindowTable::new();
    let o = observe_window(&mut list, &saved, &probe("Calc", WS_VISIBLE | 1, R, Some("C:\\calc.exe")), 1920, false, "C:\\me.exe");
    assert_eq!(o, Observation { listed: true, move_to: None, own_window: false });
    assert_eq!(
        list.items(),
        vec![Item {
            hwnd: 0x42,
            title: "Calc".to_string(),
            checked: false,
            left: 100,
            top: 50,
            width: 400,
            height: 300,
            name: "C:\\calc.exe".to_string(),
        }]
    );
}

#[test]
fn remembered_window_gets_its_layout() {
    let mut list = WindowTable::new();
    let mut saved = WindowTable::new();
    saved.insert(Item {
        hwnd: 1,
        title: "old".to_string(),
        checked: true,
        left: 5,
        top: 6,
        width: 7,
        height: 8,
        name: "C:\\calc.exe".to_string(),
    });
    let p = probe("Calc", WS_VISIBLE, R, Some("C:\\calc.exe"));
    let o = observe_window(&mut list, &saved, &p, 1920, false, "");
    assert_eq!(o.move_to, Some(Placement { left: 5, top: 6, width: 7, height: 8 }));
    let e = list.get("C:\\calc.exe").unwrap();
    assert_eq!((e.checked, e.left, e.top, e.width, e.height), (true, 5, 6, 7, 8));
    assert_eq!(e.title, "Calc");
    // after a row was picked, the layout is listed but not applied
    let o = observe_window(&mut list, &saved, &p, 1920, true, "");
    assert_eq!(o.move_to, None);
    assert!(list.get("C:\\calc.exe").unwrap().checked);
}

#[test]
fn own_window_is_recognised() {
    let mut list = WindowTable::new();
    let saved = WindowTable::new();
    let o = observe_window(&mut list, &saved, &probe("Me", WS_VISIBLE, R, Some("C:\\me.exe")), 1920, false, "C:\\me.exe");
    assert!(o.own_window);
    let o = observe_window(&mut list, &saved, &probe("Me", WS_VISIBLE, R, None), 1920, false, "");
    assert!(!o.own_window);
    assert!(list.contains(""));
}

#[test]
fn autostart_detection() {
    assert_eq!(autostart_value_name(), "winfree");
    let names = vec!["OneDrive".to_string(), "winfree".to_string()];
    assert!(autostart_registered(&names));
    assert!(!autostart_registered(&vec!["WinFree".to_string(), "winfree ".to_string()]));
    assert!(!autostart_registered(&Vec::new()));
}

#[test]
fn icons_describe_their_paths() {
    let s = winfree::icons::stacks_icon();
    assert_eq!(s.view_box, "0 0 24 24");
    assert_eq!(s.path, "M12 2L2 7l10 5 10-5-10-5zM2 17l10 5 10-5M2 12l10 5 10-5");
    assert_eq!(s.class, "w-10 h-10 text-white p-2 bg-indigo-500 rounded-full");
    let a = winfree::icons::right_arrow_icon();
    assert_eq!(a.path, "M5 12h14M12 5l7 7-7 7");
    assert_eq!((a.fill.as_str(), a.stroke.as_str(), a.stroke_width.as_str()), ("none", "currentColor", "2"));
}

#[test]
fn observing_adds_at_most_one_entry_under_its_own_name() {
    let mut list = WindowTable::new();
    let saved = WindowTable::new();
    for (i, name) in ["b", "a", "b", "c", "a"].iter().enumerate() {
        let before = list.items().len();
        observe_window(&mut list, &saved, &probe("W", WS_VISIBLE, R, Some(name)), 1920, false, "");
        let after = list.items();
        assert!(after.len() <= before + 1, "step {}", i);
        assert!(list.get(name).map(|e| e.name == *name).unwrap_or(false));
    }
    assert_eq!(list.items().len(), 3);
}
