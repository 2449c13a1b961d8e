use streamdown::colors::{resolve_color, colodore_names};

#[test]
fn test_resolve_preset() {
    assert_eq!(resolve_color("yellow"), "#edf171");
    assert_eq!(resolve_color("cyan"), "#75cec8");
    assert_eq!(resolve_color("black"), "#000000");
}

#[test]
fn test_resolve_hex_passthrough() {
    assert_eq!(resolve_color("#ff0000"), "#ff0000");
    assert_eq!(resolve_color("#123456"), "#123456");
}

#[test]
fn test_resolve_unknown() {
    assert_eq!(resolve_color("not_a_color"), "not_a_color");
}

#[test]
fn test_all_colodore_colors() {
    let names = colodore_names();
    assert_eq!(names.len(), 16);
    assert!(names.contains(&"black"));
    assert!(names.contains(&"white"));
    assert!(names.contains(&"purple"));
}

#[test]
fn test_every_palette_name_resolves_to_hex() {
    for name in colodore_names() {
        let hex = resolve_color(name);
        assert_ne!(hex, name);
        assert!(hex.starts_with('#'));
        assert_eq!(hex.len(), 7);
    }
}
