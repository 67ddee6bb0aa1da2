use asm16::instr::decode;
use asm16::instr::AsmError;
use asm16::instr::CInstruction;
use asm16::instr::Comp;
use asm16::instr::Instruction;
use asm16::pipeline::format_word;

/// Every entry of the fixed computation table, in its accumulator form.
const COMP_TABLE: [(&str, u16); 18] = [
    ("0", 0b101010),
    ("1", 0b111111),
    ("-1", 0b111010),
    ("D", 0b001100),
    ("A", 0b110000),
    ("!D", 0b001101),
    ("!A", 0b110001),
    ("-D", 0b001111),
    ("-A", 0b110011),
    ("D+1", 0b011111),
    ("A+1", 0b110111),
    ("D-1", 0b001110),
    ("A-1", 0b110010),
    ("D+A", 0b000010),
    ("D-A", 0b010011),
    ("A-D", 0b000111),
    ("D&A", 0b000000),
    ("D|A", 0b010101),
];

#[test]
fn computation_table_is_complete() {
    for (mnemonic, code) in COMP_TABLE {
        let ci = CInstruction::new(None, mnemonic, None).unwrap();
        assert_eq!(
            ci.to_u16(),
            0b1110_0000_0000_0000 | (code << 6),
            "encoding of {}",
            mnemonic
        );
    }
}

#[test]
fn memory_forms_set_indirection_bit() {
    for (mnemonic, code) in COMP_TABLE {
        if !mnemonic.contains('A') {
            continue;
        }
        let substituted = mnemonic.replace('A', "M");
        let ci = CInstruction::new(None, &substituted, None).unwrap();
        assert!(ci.a, "indirection flag of {}", substituted);
        assert_eq!(ci.comp, CInstruction::new(None, mnemonic, None).unwrap().comp);
        assert_eq!(
            ci.to_u16(),
            0b1111_0000_0000_0000 | (code << 6),
            "encoding of {}",
            substituted
        );
    }
}

#[test]
fn destination_masks() {
    let cases: [(&str, u16); 7] = [
        ("M", 0b001),
        ("D", 0b010),
        ("A", 0b100),
        ("MD", 0b011),
        ("AM", 0b101),
        ("AD", 0b110),
        ("AMD", 0b111),
    ];
    for (dest, mask) in cases {
        let ci = CInstruction::new(Some(dest), "0", None).unwrap();
        assert_eq!(ci.dest, mask, "mask of {}", dest);
        assert_eq!(ci.to_u16(), 0b1110_1010_1000_0000 | (mask << 3));
    }
}

#[test]
fn jump_masks() {
    let cases: [(&str, u16); 7] = [
        ("JGT", 0b001),
        ("JEQ", 0b010),
        ("JGE", 0b011),
        ("JLT", 0b100),
        ("JNE", 0b101),
        ("JLE", 0b110),
        ("JMP", 0b111),
    ];
    for (jump, mask) in cases {
        let ci = CInstruction::new(None, "0", Some(jump)).unwrap();
        assert_eq!(ci.jump, mask, "mask of {}", jump);
        assert_eq!(ci.to_u16(), 0b1110_1010_1000_0000 | mask);
    }
}

#[test]
fn round_trip_ad_dplusone_jgt() {
    let ci = CInstruction::new(Some("AD"), "D+1", Some("JGT")).unwrap();
    assert!(!ci.a);
    assert_eq!(ci.comp, Comp::DPlusOne);
    assert_eq!(ci.dest, 0b110);
    assert_eq!(ci.jump, 0b001);
    let word = ci.to_u16();
    assert_eq!(word, 0b1110_0111_1111_0001);
    let back = decode(word).unwrap();
    assert_eq!(back, ci);
    assert_eq!(back.dest, 0b110);
    assert_eq!(back.comp, Comp::DPlusOne);
    assert_eq!(back.jump, 0b001);
}

#[test]
fn round_trip_all_computations() {
    for (mnemonic, _) in COMP_TABLE {
        let ci = CInstruction::new(Some("MD"), mnemonic, Some("JNE")).unwrap();
        assert_eq!(decode(ci.to_u16()), Some(ci), "round trip of {}", mnemonic);
    }
}

#[test]
fn decode_rejects_non_compute_words() {
    assert_eq!(decode(0b0000_0000_0000_0101), None);
    assert_eq!(decode(0b0111_1111_1111_1111), None);
}

#[test]
fn decode_rejects_undefined_computation_code() {
    assert_eq!(decode(0b1110_0000_0100_0000), None);
}

#[test]
fn destination_order_does_not_matter() {
    let ci = CInstruction::new(Some("DA"), "0", None).unwrap();
    assert_eq!(ci.dest, 0b110);
    assert_eq!(ci, CInstruction::new(Some("AD"), "0", None).unwrap());
}

#[test]
fn unknown_destination_is_an_error() {
    assert_eq!(
        CInstruction::new(Some("X"), "D+1", None),
        Err(AsmError::UnknownDest)
    );
}

#[test]
fn repeated_destination_is_an_error() {
    assert_eq!(CInstruction::new(Some("AA"), "0", None), Err(AsmError::UnknownDest));
    assert_eq!(CInstruction::new(Some("MDM"), "0", None), Err(AsmError::UnknownDest));
}

#[test]
fn unknown_computation_is_an_error() {
    assert_eq!(
        CInstruction::new(Some("D"), "Y", None),
        Err(AsmError::UnknownComp)
    );
    assert_eq!(CInstruction::new(None, "D+D", None), Err(AsmError::UnknownComp));
}

#[test]
fn unknown_jump_is_an_error() {
    assert_eq!(
        CInstruction::new(None, "0", Some("JXX")),
        Err(AsmError::UnknownJump)
    );
    assert_eq!(CInstruction::new(None, "0", Some("")), Err(AsmError::UnknownJump));
}

#[test]
fn format_word_renders_all_bits() {
    assert_eq!(format_word(0), "0000000000000000");
    assert_eq!(format_word(0xFFFF), "1111111111111111");
    assert_eq!(format_word(0b1010_1010_1010_1010), "1010101010101010");
    assert_eq!(format_word(2), "0000000000000010");
}
