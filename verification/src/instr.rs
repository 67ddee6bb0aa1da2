//! Instruction forms and their fixed 16-bit bitfield encoding.
//!
//! An address instruction (`@operand`) encodes its resolved address in the
//! low 15 bits with bit 15 clear.  A compute instruction
//! (`[dest=]comp[;jump]`) encodes, from the most significant bit down:
//! the constant opcode `111`, the indirection flag, a 6-bit computation
//! code, a 3-bit destination mask and a 3-bit jump mask.

use vstd::prelude::*;

use crate::symbols::resolve_spec;
use crate::symbols::Symbols;

verus! {

/// Whether a character is a decimal digit.
pub open spec fn is_digit(c: char) -> bool {
    '0' <= c && c <= '9'
}

/// The numeric value of a decimal digit character.
pub open spec fn digit_val(c: char) -> int {
    c as u32 - '0' as u32
}

/// Whether every character of the text is a decimal digit.
pub open spec fn all_digits(s: Seq<char>) -> bool {
    forall|i: int| 0 <= i < s.len() ==> is_digit(s[i])
}

/// The value of a digit string read as a decimal numeral.
pub open spec fn digits_val(s: Seq<char>) -> int
    decreases s.len(),
{
    if s.len() == 0 {
        0
    } else {
        digits_val(s.drop_last()) * 10 + digit_val(s.last())
    }
}

/// A decimal numeral's value is never negative.
pub proof fn lemma_digits_val_nonneg(s: Seq<char>)
    requires
        all_digits(s),
    ensures
        digits_val(s) >= 0,
    decreases s.len(),
{
    if s.len() > 0 {
        lemma_digits_val_nonneg(s.drop_last());
    }
}

/// Extending a digit string never shrinks its value.
pub proof fn lemma_digits_val_prefix(s: Seq<char>, k: int)
    requires
        all_digits(s),
        0 <= k <= s.len(),
    ensures
        digits_val(s.take(k)) <= digits_val(s),
    decreases s.len(),
{
    if k == s.len() {
        assert(s.take(k) =~= s);
    } else {
        lemma_digits_val_prefix(s.drop_last(), k);
        assert(s.drop_last().take(k) =~= s.take(k));
        lemma_digits_val_nonneg(s.drop_last());
    }
}

/// What the text yields when read as an unsigned 16-bit decimal literal
/// (an optional leading `+`, then one or more digits, value at most
/// `u16::MAX`), or `None` if it is no such literal.
pub open spec fn parse_u16_spec(s: Seq<char>) -> Option<u16> {
    let t = if s.len() > 0 && s[0] == '+' {
        s.drop_first()
    } else {
        s
    };
    if t.len() > 0 && all_digits(t) && digits_val(t) <= u16::MAX {
        Some(digits_val(t) as u16)
    } else {
        None
    }
}

/// Read the text as an unsigned 16-bit decimal literal.
pub fn parse_u16(s: &str) -> (r: Option<u16>)
    ensures
        r == parse_u16_spec(s@),
{
    let n = s.unicode_len();
    let mut start: usize = 0;
    if n > 0 && s.get_char(0) == '+' {
        start = 1;
    }
    if start == n {
        return None;
    }
    let ghost t = s@.skip(start as int);
    proof {
        if start == 1 {
            assert(t =~= s@.drop_first());
        } else {
            assert(t =~= s@);
        }
    }
    let mut acc: u32 = 0;
    let mut i: usize = start;
    while i < n
        invariant
            start <= i <= n,
            n == s@.len(),
            start < n,
            t == s@.skip(start as int),
            t == (if s@.len() > 0 && s@[0] == '+' {
                s@.drop_first()
            } else {
                s@
            }),
            all_digits(t.take(i - start)),
            acc == digits_val(t.take(i - start)),
            acc <= u16::MAX,
        decreases n - i,
    {
        let c = s.get_char(i);
        proof {
            assert(t[i - start] == c);
            assert(t.take(i - start + 1).drop_last() =~= t.take(i - start));
            assert(t.take(i - start + 1).last() == s@[i as int]);
        }
        if !('0' <= c && c <= '9') {
            return None;
        }
        let d: u32 = (c as u32) - ('0' as u32);
        acc = acc * 10 + d;
        i += 1;
        proof {
            assert(all_digits(t.take(i - start)));
            assert(acc == digits_val(t.take(i - start)));
        }
        if acc > 65535 {
            proof {
                if all_digits(t) {
                    lemma_digits_val_prefix(t, i - start);
                }
            }
            return None;
        }
    }
    proof {
        assert(t.take(n - start) =~= t);
    }
    Some(acc as u16)
}

/// Constant opcode bits marking a compute instruction.
pub const C_INST: u16 = 0b1110_0000_0000_0000;

pub const DEST_M: u16 = 0b001;
pub const DEST_D: u16 = 0b010;
pub const DEST_A: u16 = 0b100;

pub const JUMP_GT: u16 = 0b001;
pub const JUMP_EQ: u16 = 0b010;
pub const JUMP_LT: u16 = 0b100;

/// The eighteen computation mnemonics, written in their accumulator-register
/// form (any memory reference has already been substituted away and recorded
/// in the indirection flag).
#[derive(Clone, Copy, Debug, PartialEq, Eq, Structural)]
pub enum Comp {
    Zero,
    One,
    NegOne,
    D,
    A,
    NotD,
    NotA,
    NegD,
    NegA,
    DPlusOne,
    APlusOne,
    DMinusOne,
    AMinusOne,
    DPlusA,
    DMinusA,
    AMinusD,
    DAndA,
    DOrA,
}

/// The fixed 6-bit computation code of each mnemonic.
pub open spec fn comp_code(c: Comp) -> u16 {
    match c {
        Comp::Zero => 0b101010,
        Comp::One => 0b111111,
        Comp::NegOne => 0b111010,
        Comp::D => 0b001100,
        Comp::A => 0b110000,
        Comp::NotD => 0b001101,
        Comp::NotA => 0b110001,
        Comp::NegD => 0b001111,
        Comp::NegA => 0b110011,
        Comp::DPlusOne => 0b011111,
        Comp::APlusOne => 0b110111,
        Comp::DMinusOne => 0b001110,
        Comp::AMinusOne => 0b110010,
        Comp::DPlusA => 0b000010,
        Comp::DMinusA => 0b010011,
        Comp::AMinusD => 0b000111,
        Comp::DAndA => 0b000000,
        Comp::DOrA => 0b010101,
    }
}

/// The mnemonic of a 6-bit computation code, if the code is one of the
/// eighteen defined values.
pub open spec fn comp_of_code(code: u16) -> Option<Comp> {
    if code == 0b101010 {
        Some(Comp::Zero)
    } else if code == 0b111111 {
        Some(Comp::One)
    } else if code == 0b111010 {
        Some(Comp::NegOne)
    } else if code == 0b001100 {
        Some(Comp::D)
    } else if code == 0b110000 {
        Some(Comp::A)
    } else if code == 0b001101 {
        Some(Comp::NotD)
    } else if code == 0b110001 {
        Some(Comp::NotA)
    } else if code == 0b001111 {
        Some(Comp::NegD)
    } else if code == 0b110011 {
        Some(Comp::NegA)
    } else if code == 0b011111 {
        Some(Comp::DPlusOne)
    } else if code == 0b110111 {
        Some(Comp::APlusOne)
    } else if code == 0b001110 {
        Some(Comp::DMinusOne)
    } else if code == 0b110010 {
        Some(Comp::AMinusOne)
    } else if code == 0b000010 {
        Some(Comp::DPlusA)
    } else if code == 0b010011 {
        Some(Comp::DMinusA)
    } else if code == 0b000111 {
        Some(Comp::AMinusD)
    } else if code == 0b000000 {
        Some(Comp::DAndA)
    } else if code == 0b010101 {
        Some(Comp::DOrA)
    } else {
        None
    }
}

/// The computation code of each mnemonic is one of the eighteen distinct
/// 6-bit values, so decoding inverts encoding.
pub proof fn lemma_comp_code_inverse(c: Comp)
    ensures
        comp_code(c) < 64,
        comp_of_code(comp_code(c)) == Some(c),
{
}

/// Executable form of [`comp_code`].
pub fn comp_bits(c: Comp) -> (r: u16)
    ensures
        r == comp_code(c),
{
    match c {
        Comp::Zero => 0b101010,
        Comp::One => 0b111111,
        Comp::NegOne => 0b111010,
        Comp::D => 0b001100,
        Comp::A => 0b110000,
        Comp::NotD => 0b001101,
        Comp::NotA => 0b110001,
        Comp::NegD => 0b001111,
        Comp::NegA => 0b110011,
        Comp::DPlusOne => 0b011111,
        Comp::APlusOne => 0b110111,
        Comp::DMinusOne => 0b001110,
        Comp::AMinusOne => 0b110010,
        Comp::DPlusA => 0b000010,
        Comp::DMinusA => 0b010011,
        Comp::AMinusD => 0b000111,
        Comp::DAndA => 0b000000,
        Comp::DOrA => 0b010101,
    }
}

/// An instruction that can produce its 16-bit machine word.
pub trait Instruction {
    /// The machine word this instruction encodes to.
    spec fn spec_word(&self) -> u16;

    /// Produce the 16-bit machine word.
    fn to_u16(&self) -> (r: u16)
        ensures
            r == self.spec_word(),
    ;
}

/// An address instruction: its operand, a decimal literal or a symbolic
/// name, has been resolved to an address at construction time.
#[derive(Clone, Copy, Debug, PartialEq, Eq, Structural)]
pub struct AInstruction {
    pub addr: u16,
}

/// What resolving an address-instruction operand does to the symbol table:
/// a decimal literal is its own address and touches nothing; anything else
/// is a symbolic name, resolved (and allocated if unseen) in the table.
pub open spec fn a_resolve(op: Seq<char>, m: Map<Seq<char>, u16>, next: u16) -> (
    u16,
    Map<Seq<char>, u16>,
    u16,
) {
    match parse_u16_spec(op) {
        Some(v) => (v, m, next),
        None => resolve_spec(m, next, op),
    }
}

impl AInstruction {
    /// Build an address instruction from its operand text, resolving a
    /// symbolic operand through the symbol table.  Always succeeds: an
    /// unseen name is allocated a fresh variable address.
    pub fn new(value: &str, symbols: &mut Symbols) -> (r: AInstruction)
        requires
            old(symbols).wf(),
            old(symbols).next_addr < u16::MAX,
        ensures
            final(symbols).wf(),
            (r.addr, final(symbols).map(), final(symbols).next_addr) == a_resolve(
                value@,
                old(symbols).map(),
                old(symbols).next_addr,
            ),
    {
        match parse_u16(value) {
            Some(v) => AInstruction { addr: v },
            None => AInstruction { addr: symbols.lookup_or_allocate(value) },
        }
    }
}

impl Instruction for AInstruction {
    /// An address instruction's word is its resolved address; bit 15 stays
    /// clear because addresses fit in 15 bits by architecture convention.
    open spec fn spec_word(&self) -> u16 {
        self.addr
    }

    fn to_u16(&self) -> (r: u16) {
        self.addr
    }
}

/// A compute instruction: an indirection flag, a computation mnemonic, a
/// destination mask and a jump mask.
#[derive(Clone, Copy, Debug, PartialEq, Eq, Structural)]
pub struct CInstruction {
    /// Indirection flag: the computation reads memory-at-address rather than
    /// the address register itself.
    pub a: bool,
    pub comp: Comp,
    /// Destination bitmask; only the low 3 bits may be set.
    pub dest: u16,
    /// Jump condition bitmask; only the low 3 bits may be set.
    pub jump: u16,
}

impl CInstruction {
    /// The destination and jump masks fit in their 3-bit fields.
    pub open spec fn wf(&self) -> bool {
        self.dest < 8 && self.jump < 8
    }
}

/// The machine word of a compute instruction: opcode `111`, indirection
/// flag, computation code, destination mask, jump mask, highest bits first.
pub open spec fn c_word(ci: CInstruction) -> u16 {
    C_INST | (if ci.a {
        0x1000u16
    } else {
        0u16
    }) | (comp_code(ci.comp) << 6) | (ci.dest << 3) | ci.jump
}

impl Instruction for CInstruction {
    open spec fn spec_word(&self) -> u16 {
        c_word(*self)
    }

    fn to_u16(&self) -> (r: u16) {
        let a_bit: u16 = if self.a {
            0x1000
        } else {
            0
        };
        C_INST | a_bit | (comp_bits(self.comp) << 6) | (self.dest << 3) | self.jump
    }
}

/// The compute instruction a 16-bit word encodes, if the word carries the
/// compute opcode and a defined computation code.
pub open spec fn decode_spec(w: u16) -> Option<CInstruction> {
    if w >> 13 == 0b111 {
        match comp_of_code((w >> 6) & 0b111111) {
            Some(c) => Some(
                CInstruction { a: (w >> 12) & 1 == 1, comp: c, dest: (w >> 3) & 0b111, jump: w & 0b111 },
            ),
            None => None,
        }
    } else {
        None
    }
}

/// Executable form of [`decode_spec`]: recover the components of a compute
/// instruction from its machine word.
pub fn decode(w: u16) -> (r: Option<CInstruction>)
    ensures
        r == decode_spec(w),
{
    if w >> 13 == 0b111 {
        let code: u16 = (w >> 6) & 0b111111;
        let comp: Option<Comp> = if code == 0b101010 {
            Some(Comp::Zero)
        } else if code == 0b111111 {
            Some(Comp::One)
        } else if code == 0b111010 {
            Some(Comp::NegOne)
        } else if code == 0b001100 {
            Some(Comp::D)
        } else if code == 0b110000 {
            Some(Comp::A)
        } else if code == 0b001101 {
            Some(Comp::NotD)
        } else if code == 0b110001 {
            Some(Comp::NotA)
        } else if code == 0b001111 {
            Some(Comp::NegD)
        } else if code == 0b110011 {
            Some(Comp::NegA)
        } else if code == 0b011111 {
            Some(Comp::DPlusOne)
        } else if code == 0b110111 {
            Some(Comp::APlusOne)
        } else if code == 0b001110 {
            Some(Comp::DMinusOne)
        } else if code == 0b110010 {
            Some(Comp::AMinusOne)
        } else if code == 0b000010 {
            Some(Comp::DPlusA)
        } else if code == 0b010011 {
            Some(Comp::DMinusA)
        } else if code == 0b000111 {
            Some(Comp::AMinusD)
        } else if code == 0b000000 {
            Some(Comp::DAndA)
        } else if code == 0b010101 {
            Some(Comp::DOrA)
        } else {
            None
        };
        match comp {
            Some(c) => Some(
                CInstruction { a: (w >> 12) & 1 == 1, comp: c, dest: (w >> 3) & 0b111, jump: w & 0b111 },
            ),
            None => None,
        }
    } else {
        None
    }
}

/// A fatal parse error: the text of one of the three fields of a compute
/// instruction matches no recognized form.
#[derive(Clone, Copy, Debug, PartialEq, Eq, Structural)]
pub enum AsmError {
    UnknownDest,
    UnknownComp,
    UnknownJump,
}

/// The text with every memory-reference register replaced by the
/// accumulator register.
pub open spec fn subst_m(s: Seq<char>) -> Seq<char> {
    Seq::new(
        s.len(),
        |i: int|
            if s[i] == 'M' {
                'A'
            } else {
                s[i]
            },
    )
}

/// Whether the text mentions the memory-reference register.
pub open spec fn has_m(s: Seq<char>) -> bool {
    exists|i: int| 0 <= i < s.len() && s[i] == 'M'
}

/// The bit of a destination register character, or 0 for any other
/// character.
pub open spec fn dest_char_bit(c: char) -> u16 {
    if c == 'A' {
        DEST_A
    } else if c == 'M' {
        DEST_M
    } else if c == 'D' {
        DEST_D
    } else {
        0u16
    }
}

/// The destination bitmask of a destination text: the union of the bits of
/// its characters, in any order but each register at most once, or `None`
/// if a character is not a destination register or repeats.
pub open spec fn dest_bits(s: Seq<char>) -> Option<u16>
    decreases s.len(),
{
    if s.len() == 0 {
        Some(0u16)
    } else {
        match dest_bits(s.drop_last()) {
            None => None,
            Some(d) => {
                let b = dest_char_bit(s.last());
                if b == 0 || d & b != 0 {
                    None
                } else {
                    Some(d | b)
                }
            },
        }
    }
}

/// A destination bitmask fits in its 3-bit field.
pub proof fn lemma_dest_bits_bound(s: Seq<char>)
    ensures
        dest_bits(s) matches Some(d) ==> d < 8,
    decreases s.len(),
{
    if s.len() > 0 {
        lemma_dest_bits_bound(s.drop_last());
        match dest_bits(s.drop_last()) {
            Some(d0) => {
                assert(d0 < 8 ==> (d0 | DEST_A) < 8 && (d0 | DEST_M) < 8 && (d0 | DEST_D) < 8)
                    by (bit_vector);
            },
            None => {},
        }
    }
}

/// Once some prefix of the destination text is unrecognized, the whole
/// text is.
pub proof fn lemma_dest_bits_extend_none(s: Seq<char>, k: int)
    requires
        0 <= k <= s.len(),
        dest_bits(s.take(k)) is None,
    ensures
        dest_bits(s) is None,
    decreases s.len(),
{
    if k == s.len() {
        assert(s.take(k) =~= s);
    } else {
        assert(s.drop_last().take(k) =~= s.take(k));
        lemma_dest_bits_extend_none(s.drop_last(), k);
    }
}

/// The computation mnemonic of a (memory-substituted) computation text, or
/// `None` if it matches none of the eighteen fixed forms.
pub open spec fn comp_of_text(s: Seq<char>) -> Option<Comp> {
    if s.len() == 1 {
        if s[0] == '0' {
            Some(Comp::Zero)
        } else if s[0] == '1' {
            Some(Comp::One)
        } else if s[0] == 'D' {
            Some(Comp::D)
        } else if s[0] == 'A' {
            Some(Comp::A)
        } else {
            None
        }
    } else if s.len() == 2 {
        if s[0] == '-' && s[1] == '1' {
            Some(Comp::NegOne)
        } else if s[0] == '!' && s[1] == 'D' {
            Some(Comp::NotD)
        } else if s[0] == '!' && s[1] == 'A' {
            Some(Comp::NotA)
        } else if s[0] == '-' && s[1] == 'D' {
            Some(Comp::NegD)
        } else if s[0] == '-' && s[1] == 'A' {
            Some(Comp::NegA)
        } else {
            None
        }
    } else if s.len() == 3 {
        if s[0] == 'D' && s[1] == '+' && s[2] == '1' {
            Some(Comp::DPlusOne)
        } else if s[0] == 'A' && s[1] == '+' && s[2] == '1' {
            Some(Comp::APlusOne)
        } else if s[0] == 'D' && s[1] == '-' && s[2] == '1' {
            Some(Comp::DMinusOne)
        } else if s[0] == 'A' && s[1] == '-' && s[2] == '1' {
            Some(Comp::AMinusOne)
        } else if s[0] == 'D' && s[1] == '+' && s[2] == 'A' {
            Some(Comp::DPlusA)
        } else if s[0] == 'D' && s[1] == '-' && s[2] == 'A' {
            Some(Comp::DMinusA)
        } else if s[0] == 'A' && s[1] == '-' && s[2] == 'D' {
            Some(Comp::AMinusD)
        } else if s[0] == 'D' && s[1] == '&' && s[2] == 'A' {
            Some(Comp::DAndA)
        } else if s[0] == 'D' && s[1] == '|' && s[2] == 'A' {
            Some(Comp::DOrA)
        } else {
            None
        }
    } else {
        None
    }
}

/// The jump bitmask of a jump mnemonic, or `None` if it is not one of the
/// seven fixed mnemonics.
pub open spec fn jump_bits(s: Seq<char>) -> Option<u16> {
    if s.len() == 3 && s[0] == 'J' {
        if s[1] == 'G' && s[2] == 'T' {
            Some(JUMP_GT)
        } else if s[1] == 'E' && s[2] == 'Q' {
            Some(JUMP_EQ)
        } else if s[1] == 'G' && s[2] == 'E' {
            Some(JUMP_GT | JUMP_EQ)
        } else if s[1] == 'L' && s[2] == 'T' {
            Some(JUMP_LT)
        } else if s[1] == 'N' && s[2] == 'E' {
            Some(JUMP_GT | JUMP_LT)
        } else if s[1] == 'L' && s[2] == 'E' {
            Some(JUMP_EQ | JUMP_LT)
        } else if s[1] == 'M' && s[2] == 'P' {
            Some(JUMP_GT | JUMP_EQ | JUMP_LT)
        } else {
            None
        }
    } else {
        None
    }
}

/// The view of an optional text field.
pub open spec fn opt_view(o: Option<&str>) -> Option<Seq<char>> {
    match o {
        Some(s) => Some(s@),
        None => None,
    }
}

/// What building a compute instruction from its three text fields yields:
/// the fields are validated in order (destination, computation, jump), the
/// first unrecognized one names the error, and on success the components
/// are pinned down exactly.
pub open spec fn c_new_spec(
    dest: Option<Seq<char>>,
    comp: Seq<char>,
    jump: Option<Seq<char>>,
) -> Result<CInstruction, AsmError> {
    let d = match dest {
        None => Some(0u16),
        Some(t) => dest_bits(t),
    };
    match d {
        None => Err(AsmError::UnknownDest),
        Some(dm) => match comp_of_text(subst_m(comp)) {
            None => Err(AsmError::UnknownComp),
            Some(c) => {
                let j = match jump {
                    None => Some(0u16),
                    Some(t) => jump_bits(t),
                };
                match j {
                    None => Err(AsmError::UnknownJump),
                    Some(jm) => Ok(CInstruction { a: has_m(comp), comp: c, dest: dm, jump: jm }),
                }
            },
        },
    }
}

/// Replace a memory-reference register character by the accumulator
/// register; leave every other character as it stands.
fn subst_char(c: char) -> (r: char)
    ensures
        r == (if c == 'M' {
            'A'
        } else {
            c
        }),
{
    if c == 'M' {
        'A'
    } else {
        c
    }
}

/// Whether the text mentions the memory-reference register.
fn contains_m(s: &str) -> (r: bool)
    ensures
        r == has_m(s@),
{
    let n = s.unicode_len();
    let mut i: usize = 0;
    while i < n
        invariant
            i <= n,
            n == s@.len(),
            forall|j: int| 0 <= j < i ==> s@[j] != 'M',
        decreases n - i,
    {
        if s.get_char(i) == 'M' {
            return true;
        }
        i += 1;
    }
    false
}

/// Compute the destination bitmask of a destination text.
fn parse_dest(d: &str) -> (r: Option<u16>)
    ensures
        r == dest_bits(d@),
{
    let n = d.unicode_len();
    let mut mask: u16 = 0;
    let mut i: usize = 0;
    while i < n
        invariant
            i <= n,
            n == d@.len(),
            Some(mask) == dest_bits(d@.take(i as int)),
        decreases n - i,
    {
        let c = d.get_char(i);
        proof {
            assert(d@.take(i as int + 1).drop_last() =~= d@.take(i as int));
        }
        let b: u16 = if c == 'A' {
            DEST_A
        } else if c == 'M' {
            DEST_M
        } else if c == 'D' {
            DEST_D
        } else {
            0
        };
        if b == 0 || mask & b != 0 {
            proof {
                lemma_dest_bits_extend_none(d@, i as int + 1);
            }
            return None;
        }
        mask = mask | b;
        i += 1;
    }
    proof {
        assert(d@.take(n as int) =~= d@);
    }
    Some(mask)
}

/// Match a computation text (substituting memory references on the fly)
/// against the eighteen fixed forms.
fn parse_comp(comp: &str) -> (r: Option<Comp>)
    ensures
        r == comp_of_text(subst_m(comp@)),
{
    let n = comp.unicode_len();
    if n == 1 {
        let c0 = subst_char(comp.get_char(0));
        if c0 == '0' {
            Some(Comp::Zero)
        } else if c0 == '1' {
            Some(Comp::One)
        } else if c0 == 'D' {
            Some(Comp::D)
        } else if c0 == 'A' {
            Some(Comp::A)
        } else {
            None
        }
    } else if n == 2 {
        let c0 = subst_char(comp.get_char(0));
        let c1 = subst_char(comp.get_char(1));
        if c0 == '-' && c1 == '1' {
            Some(Comp::NegOne)
        } else if c0 == '!' && c1 == 'D' {
            Some(Comp::NotD)
        } else if c0 == '!' && c1 == 'A' {
            Some(Comp::NotA)
        } else if c0 == '-' && c1 == 'D' {
            Some(Comp::NegD)
        } else if c0 == '-' && c1 == 'A' {
            Some(Comp::NegA)
        } else {
            None
        }
    } else if n == 3 {
        let c0 = subst_char(comp.get_char(0));
        let c1 = subst_char(comp.get_char(1));
        let c2 = subst_char(comp.get_char(2));
        if c0 == 'D' && c1 == '+' && c2 == '1' {
            Some(Comp::DPlusOne)
        } else if c0 == 'A' && c1 == '+' && c2 == '1' {
            Some(Comp::APlusOne)
        } else if c0 == 'D' && c1 == '-' && c2 == '1' {
            Some(Comp::DMinusOne)
        } else if c0 == 'A' && c1 == '-' && c2 == '1' {
            Some(Comp::AMinusOne)
        } else if c0 == 'D' && c1 == '+' && c2 == 'A' {
            Some(Comp::DPlusA)
        } else if c0 == 'D' && c1 == '-' && c2 == 'A' {
            Some(Comp::DMinusA)
        } else if c0 == 'A' && c1 == '-' && c2 == 'D' {
            Some(Comp::AMinusD)
        } else if c0 == 'D' && c1 == '&' && c2 == 'A' {
            Some(Comp::DAndA)
        } else if c0 == 'D' && c1 == '|' && c2 == 'A' {
            Some(Comp::DOrA)
        } else {
            None
        }
    } else {
        None
    }
}

/// Match a jump text against the seven fixed mnemonics.
fn parse_jump(t: &str) -> (r: Option<u16>)
    ensures
        r == jump_bits(t@),
{
    let n = t.unicode_len();
    if n != 3 {
        return None;
    }
    let c0 = t.get_char(0);
    if c0 != 'J' {
        return None;
    }
    let c1 = t.get_char(1);
    let c2 = t.get_char(2);
    if c1 == 'G' && c2 == 'T' {
        Some(JUMP_GT)
    } else if c1 == 'E' && c2 == 'Q' {
        Some(JUMP_EQ)
    } else if c1 == 'G' && c2 == 'E' {
        Some(JUMP_GT | JUMP_EQ)
    } else if c1 == 'L' && c2 == 'T' {
        Some(JUMP_LT)
    } else if c1 == 'N' && c2 == 'E' {
        Some(JUMP_GT | JUMP_LT)
    } else if c1 == 'L' && c2 == 'E' {
        Some(JUMP_EQ | JUMP_LT)
    } else if c1 == 'M' && c2 == 'P' {
        Some(JUMP_GT | JUMP_EQ | JUMP_LT)
    } else {
        None
    }
}

impl CInstruction {
    /// Build a compute instruction from its three text fields, validating
    /// each against the fixed mnemonic tables; an unrecognized field is a
    /// fatal parse error, named in validation order.
    pub fn new(dest: Option<&str>, comp: &str, jump: Option<&str>) -> (r: Result<
        CInstruction,
        AsmError,
    >)
        ensures
            r == c_new_spec(opt_view(dest), comp@, opt_view(jump)),
            r matches Ok(ci) ==> ci.wf(),
    {
        let dest_mask: u16 = match dest {
            None => 0,
            Some(d) => match parse_dest(d) {
                Some(m) => m,
                None => {
                    return Err(AsmError::UnknownDest);
                },
            },
        };
        proof {
            match opt_view(dest) {
                Some(t) => lemma_dest_bits_bound(t),
                None => {},
            }
        }
        let comp_mnemonic: Comp = match parse_comp(comp) {
            Some(c) => c,
            None => {
                return Err(AsmError::UnknownComp);
            },
        };
        let jump_mask: u16 = match jump {
            None => 0,
            Some(t) => match parse_jump(t) {
                Some(m) => m,
                None => {
                    return Err(AsmError::UnknownJump);
                },
            },
        };
        proof {
            assert((1u16 | 2) < 8 && (1u16 | 4) < 8 && (2u16 | 4) < 8 && ((1u16 | 2) | 4) < 8)
                by (bit_vector);
        }
        let a = contains_m(comp);
        Ok(CInstruction { a, comp: comp_mnemonic, dest: dest_mask, jump: jump_mask })
    }
}

/// Round trip: decoding the machine word of a well-formed compute
/// instruction recovers exactly its indirection flag, computation,
/// destination mask and jump mask.
pub proof fn lemma_c_round_trip(ci: CInstruction)
    requires
        ci.wf(),
    ensures
        decode_spec(c_word(ci)) == Some(ci),
{
    let av: u16 = if ci.a {
        0x1000
    } else {
        0
    };
    let code = comp_code(ci.comp);
    let d = ci.dest;
    let j = ci.jump;
    lemma_comp_code_inverse(ci.comp);
    let w = C_INST | av | (code << 6) | (d << 3) | j;
    assert((w >> 13 == 0b111) && ((w >> 6) & 0b111111 == code) && ((w >> 12) & 1 == (
    if av == 0x1000 {
        1u16
    } else {
        0u16
    })) && ((w >> 3) & 0b111 == d) && (w & 0b111 == j)) by (bit_vector)
        requires
            w == 0b1110_0000_0000_0000u16 | av | (code << 6) | (d << 3) | j,
            av == 0x1000 || av == 0,
            code < 64,
            d < 8,
            j < 8,
    ;
}

} // verus!
