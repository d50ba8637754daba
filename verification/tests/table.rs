use winfree::item::Item;
use winfree::table::WindowTable;

fn item(name: &str, hwnd: u32, left: i32) -> Item {
    Item {
        hwnd,
        title: format!("title of {}", name),
        checked: false,
        left,
        top: 10,
        width: 300,
        height: 200,
        name: name.to_string(),
    }
}

fn names(t: &WindowTable) -> Vec<String> {
    t.items().into_iter().map(|i| i.name).collect()
}

#[test]
fn new_table_is_empty() {
    let t = WindowTable::new();
    assert!(t.items().is_empty());
    assert!(!t.contains("a"));
    assert!(t.get("a").is_none());
}

#[test]
fn get_after_insert_returns_inserted_entry() {
    let mut t = WindowTable::new();
    t.insert(item("C:\\b.exe", 2, 5));
    t.insert(item("C:\\a.exe", 1, 7));
    assert!(t.contains("C:\\a.exe"));
    assert_eq!(t.get("C:\\a.exe"), Some(&item("C:\\a.exe", 1, 7)));
    assert_eq!(t.get("C:\\b.exe"), Some(&item("C:\\b.exe", 2, 5)));
    assert!(t.get("C:\\c.exe").is_none());
}

#[test]
fn insert_replaces_entry_of_same_name() {
    let mut t = WindowTable::new();
    t.insert(item("x", 1, 0));
    t.insert(item("x", 9, 42));
    assert_eq!(t.items(), vec![item("x", 9, 42)]);
}

#[test]
fn items_come_in_name_order() {
    let mut t = WindowTable::new();
    for n in ["pear", "apple", "fig", "apricot", "", "Zebra", "app"] {
        t.insert(item(n, 1, 0));
    }
    assert_eq!(names(&t), vec!["", "Zebra", "app", "apple", "apricot", "fig", "pear"]);
}

#[test]
fn order_matches_string_order_for_non_ascii_names() {
    let input = ["é", "z", "ａ", "😀", "e", "\u{ffff}"];
    let mut t = WindowTable::new();
    for n in input {
        t.insert(item(n, 1, 0));
    }
    let mut expected: Vec<String> = input.iter().map(|s| s.to_string()).collect();
    expected.sort();
    assert_eq!(names(&t), expected);
}

#[test]
fn remove_drops_only_that_name() {
    let mut t = WindowTable::new();
    t.insert(item("a", 1, 0));
    t.insert(item("b", 2, 0));
    t.insert(item("c", 3, 0));
    assert_eq!(t.remove("b"), Some(item("b", 2, 0)));
    assert_eq!(names(&t), vec!["a", "c"]);
    assert_eq!(t.remove("b"), None);
    assert_eq!(names(&t), vec!["a", "c"]);
}

#[test]
fn load_keeps_last_entry_of_each_name() {
    let t = WindowTable::from_items(vec![item("b", 1, 1), item("a", 2, 2), item("b", 3, 3)]);
    assert_eq!(t.items(), vec![item("a", 2, 2), item("b", 3, 3)]);
}

#[test]
fn save_then_load_restores_table() {
    let mut t = WindowTable::new();
    t.insert(item("q", 4, -3));
    t.insert(item("m", 5, 8));
    let listing = t.items();
    let reloaded = WindowTable::from_items(listing.clone());
    assert_eq!(reloaded.items(), listing);
}
