use asm16::symbols::Symbols;

#[test]
fn predefined_names_have_fixed_addresses() {
    let mut s = Symbols::new();
    let expected: [(&str, u16); 23] = [
        ("SP", 0),
        ("LCL", 1),
        ("ARG", 2),
        ("THIS", 3),
        ("THAT", 4),
        ("R0", 0),
        ("R1", 1),
        ("R2", 2),
        ("R3", 3),
        ("R4", 4),
        ("R5", 5),
        ("R6", 6),
        ("R7", 7),
        ("R8", 8),
        ("R9", 9),
        ("R10", 10),
        ("R11", 11),
        ("R12", 12),
        ("R13", 13),
        ("R14", 14),
        ("R15", 15),
        ("SCREEN", 16384),
        ("KBD", 24576),
    ];
    for (name, addr) in expected {
        assert_eq!(s.lookup_or_allocate(name), addr, "address of {}", name);
        assert_eq!(s.next_addr, 16, "cursor moved by predefined name {}", name);
    }
}

#[test]
fn fresh_name_allocates_once() {
    let mut s = Symbols::new();
    assert_eq!(s.next_addr, 16);
    let first = s.lookup_or_allocate("counter");
    assert_eq!(first, 16);
    assert_eq!(s.next_addr, 17);
    let second = s.lookup_or_allocate("counter");
    assert_eq!(second, 16);
    assert_eq!(s.next_addr, 17);
    let other = s.lookup_or_allocate("sum");
    assert_eq!(other, 17);
    assert_eq!(s.next_addr, 18);
}

#[test]
fn declare_label_binds_and_overwrites() {
    let mut s = Symbols::new();
    s.declare_label("loop", 5);
    assert_eq!(s.lookup_or_allocate("loop"), 5);
    // A duplicate declaration silently wins: the table does not guard
    // against rebinding.
    s.declare_label("loop", 9);
    assert_eq!(s.lookup_or_allocate("loop"), 9);
    assert_eq!(s.next_addr, 16);
}

#[test]
fn declare_label_overwrites_predefined_name() {
    let mut s = Symbols::new();
    s.declare_label("SCREEN", 3);
    assert_eq!(s.lookup_or_allocate("SCREEN"), 3);
}

#[test]
fn variable_then_label_label_wins() {
    let mut s = Symbols::new();
    assert_eq!(s.lookup_or_allocate("x"), 16);
    s.declare_label("x", 2);
    assert_eq!(s.lookup_or_allocate("x"), 2);
}
