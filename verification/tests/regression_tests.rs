use emucap::commands::parse_predicate;

#[test]
fn parse_predicate_accepts_hex_like_mcp() {
    // The command line takes 0x/$ hexadecimal as the tool server does: address and value may be
    // hexadecimal, the length is decimal.
    let p = parse_predicate("wram:0x7e0010:2:eq:$1234").unwrap();
    assert_eq!(p.address, 0x7e0010);
    assert_eq!(p.value, 0x1234);
    assert_eq!(p.length, 2);
    // decimal still works
    let d = parse_predicate("wram:100:1:eq:5").unwrap();
    assert_eq!(d.address, 100);
    assert_eq!(d.value, 5);
}

#[test]
fn predicate_keeps_type_and_op_text() {
    let p = parse_predicate("vram:$10:4:ne:0").unwrap();
    assert_eq!(p.memory_type, "vram");
    assert_eq!(p.op, "ne");
    assert_eq!(p.address, 16);
    assert_eq!(p.length, 4);
    assert_eq!(p.value, 0);
}

#[test]
fn predicate_needs_five_fields_and_numbers() {
    assert!(parse_predicate("wram:1:2:eq").is_err());
    assert!(parse_predicate("wram:1:2:eq:5:6").is_err());
    assert!(parse_predicate("wram:zz:2:eq:5").is_err());
    assert!(parse_predicate("wram:1:0x2:eq:5").is_err());
    assert!(parse_predicate("wram:1:2:eq:").is_err());
    assert!(parse_predicate("").is_err());
}
