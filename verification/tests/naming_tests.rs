use grr::naming::pascal_to_snake_case;
use grr::order::str_lt;
use grr::stringing::StringExt;

#[test]
fn snake_case_of_pascal_case() {
    assert_eq!(pascal_to_snake_case("FooBar"), "foo_bar");
    assert_eq!(pascal_to_snake_case("Widget"), "widget");
    assert_eq!(pascal_to_snake_case("HTTPServer"), "h_t_t_p_server");
}

#[test]
fn snake_case_edges() {
    assert_eq!(pascal_to_snake_case(""), "");
    assert_eq!(pascal_to_snake_case("already_snake"), "already_snake");
    assert_eq!(pascal_to_snake_case("aB"), "a_b");
}

#[test]
fn snake_case_non_ascii() {
    assert_eq!(pascal_to_snake_case("ÄrgerNis"), "ärger_nis");
    // the lowercase of U+0130 is two characters
    assert_eq!(pascal_to_snake_case("Xİ"), "x_i\u{307}");
}

#[test]
fn split_last_found() {
    assert_eq!("a.b.c".split_last('.'), Some(("a.b", "c")));
    assert_eq!(".x".split_last('.'), Some(("", "x")));
    assert_eq!("x.".split_last('.'), Some(("x", "")));
}

#[test]
fn split_last_not_found() {
    assert_eq!("abc".split_last('.'), None);
    assert_eq!("".split_last('.'), None);
}

#[test]
fn split_last_non_ascii() {
    assert_eq!("ä→b→ç".split_last('→'), Some(("ä→b", "ç")));
}

#[test]
fn split_last_rejoins() {
    let s = "Gtk.Widget.Class";
    let (front, back) = s.split_last('.').unwrap();
    assert_eq!(format!("{}.{}", front, back), s);
}

#[test]
fn string_order() {
    assert!(str_lt("a", "b"));
    assert!(!str_lt("b", "a"));
    assert!(str_lt("a", "ab"));
    assert!(!str_lt("ab", "a"));
    assert!(!str_lt("same", "same"));
    assert!(str_lt("", "x"));
    assert!(!str_lt("", ""));
    assert!(str_lt("Z", "a"));
    assert!(str_lt("z", "\u{e9}"));
    assert!(str_lt("\u{e9}", "\u{1f600}"));
    for (a, b) in [("Gtk", "Gdk"), ("Box", "Bo"), ("\u{e9}t\u{e9}", "ete"), ("x", "x\u{0}")] {
        assert_eq!(str_lt(a, b), a < b, "{:?} {:?}", a, b);
    }
}
