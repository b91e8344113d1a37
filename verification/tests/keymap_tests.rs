use phybkc::keymap::{get_name, get_scancode, hex_name, init_maps};

#[test]
fn seeded_table_round_trips() {
    let table = init_maps();
    for (name, code) in table.iter() {
        // every seeded name resolves to its code
        assert_eq!(get_scancode(name.as_str()), Some(*code));
        // every seeded code has a canonical name that aliases the code
        let canonical = get_name(*code).expect("seeded code has a name");
        assert!(table.iter().any(|(n, c)| *n == canonical && *c == *code));
        assert_eq!(get_scancode(canonical.as_str()), Some(*code));
    }
}

#[test]
fn aliases_resolve_and_latest_name_wins() {
    assert_eq!(get_scancode("Shift"), Some(0x2A));
    assert_eq!(get_scancode("LeftShift"), Some(0x2A));
    assert_eq!(get_name(0x2A).as_deref(), Some("Shift"));
    assert_eq!(get_scancode("Ctrl"), Some(0x1D));
    assert_eq!(get_name(0x1D).as_deref(), Some("LeftCtrl"));
    assert_eq!(get_name(0x29).as_deref(), Some("HanZen"));
    assert_eq!(get_scancode("A"), Some(0x1E));
    assert_eq!(get_scancode("Henkan"), Some(0x79));
    assert_eq!(get_scancode("AbsentKey"), None);
    assert_eq!(get_name(0xFFFF), None);
}

#[test]
fn hex_names_read_back() {
    // the fallback reads 0x-prefixed hex up to 16 bits
    assert_eq!(get_scancode("0x1E"), Some(0x1E));
    assert_eq!(get_scancode("0xE01D"), Some(0xE01D));
    assert_eq!(get_scancode("0xffff"), Some(0xFFFF));
    assert_eq!(get_scancode("0x0"), Some(0));
    assert_eq!(get_scancode("0x10000"), None);
    assert_eq!(get_scancode("0x"), None);
    assert_eq!(get_scancode("0xG1"), None);
    // the canonical hex spelling round-trips for every width
    for code in [0x00u16, 0x05, 0x3A, 0xFF, 0x100, 0xE01D, 0xFFFF] {
        let name = hex_name(code);
        assert_eq!(get_scancode(name.as_str()), Some(code));
    }
    assert_eq!(hex_name(0x05), "0x05");
    assert_eq!(hex_name(0x3A), "0x3A");
    assert_eq!(hex_name(0xE01D), "0xE01D");
    assert_eq!(hex_name(0x1E0), "0x1E0");
}
