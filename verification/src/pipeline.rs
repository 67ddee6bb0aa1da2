//! The two-pass assembler pipeline.
//!
//! Pass 1 scans the trimmed source lines in order, binds each label
//! declaration `(<name>)` to the count of instruction-bearing lines seen so
//! far, and drops the declaration from the stream.  Pass 2 classifies each
//! remaining line as an address instruction or a compute instruction,
//! resolves symbols, and encodes one 16-bit word per line; the first
//! malformed line aborts the run with no output.

use vstd::prelude::*;

use crate::instr::a_resolve;
use crate::instr::c_new_spec;
use crate::instr::c_word;
use crate::instr::opt_view;
use crate::instr::AInstruction;
use crate::instr::AsmError;
use crate::instr::CInstruction;
use crate::instr::Instruction;
use crate::symbols::predefined_map;
use crate::symbols::Symbols;
use crate::symbols::FIRST_VARIABLE_ADDR;

verus! {

/// The views of a sequence of owned lines.
pub open spec fn views(lines: Seq<String>) -> Seq<Seq<char>> {
    lines.map_values(|l: String| l@)
}

/// Whether a line is a label declaration: parentheses wrapping a non-empty
/// name with no closing parenthesis inside.
pub open spec fn is_label_line(s: Seq<char>) -> bool {
    &&& s.len() >= 3
    &&& s[0] == '('
    &&& s[s.len() - 1] == ')'
    &&& forall|i: int| 1 <= i < s.len() - 1 ==> s[i] != ')'
}

/// The declared name of a label line.
pub open spec fn label_name(s: Seq<char>) -> Seq<char> {
    s.subrange(1, s.len() - 1)
}

/// The instruction-bearing lines, in order, with label declarations
/// removed.
pub open spec fn strip_labels(lines: Seq<Seq<char>>) -> Seq<Seq<char>>
    decreases lines.len(),
{
    if lines.len() == 0 {
        Seq::empty()
    } else if is_label_line(lines.first()) {
        strip_labels(lines.drop_first())
    } else {
        seq![lines.first()] + strip_labels(lines.drop_first())
    }
}

/// How many of the lines bear instructions (are not label declarations).
pub open spec fn instr_count(lines: Seq<Seq<char>>) -> int
    decreases lines.len(),
{
    if lines.len() == 0 {
        0int
    } else {
        (if is_label_line(lines.first()) {
            0int
        } else {
            1int
        }) + instr_count(lines.drop_first())
    }
}

/// Stripping labels keeps exactly the instruction-bearing lines.
pub proof fn lemma_strip_labels_len(lines: Seq<Seq<char>>)
    ensures
        strip_labels(lines).len() == instr_count(lines),
        0 <= instr_count(lines) <= lines.len(),
    decreases lines.len(),
{
    if lines.len() > 0 {
        lemma_strip_labels_len(lines.drop_first());
    }
}

/// What pass 1 leaves in the symbol table: each label declaration, in
/// order, bound to the count of instruction-bearing lines before it, a
/// later declaration of the same name overwriting an earlier one.
pub open spec fn pass1_map(
    lines: Seq<Seq<char>>,
    m: Map<Seq<char>, u16>,
    count: u16,
) -> Map<Seq<char>, u16>
    decreases lines.len(),
{
    if lines.len() == 0 {
        m
    } else if is_label_line(lines.first()) {
        pass1_map(lines.drop_first(), m.insert(label_name(lines.first()), count), count)
    } else {
        pass1_map(lines.drop_first(), m, (count + 1) as u16)
    }
}

/// A binding whose name no line declares survives pass 1 untouched.
pub proof fn lemma_pass1_map_preserves(
    lines: Seq<Seq<char>>,
    m: Map<Seq<char>, u16>,
    count: u16,
    name: Seq<char>,
)
    requires
        m.contains_key(name),
        forall|j: int| 0 <= j < lines.len() && is_label_line(lines[j]) ==> label_name(lines[j]) != name,
    ensures
        pass1_map(lines, m, count).contains_key(name),
        pass1_map(lines, m, count)[name] == m[name],
    decreases lines.len(),
{
    if lines.len() > 0 {
        let rest = lines.drop_first();
        assert(forall|j: int|
            0 <= j < rest.len() && is_label_line(rest[j]) ==> label_name(rest[j]) != name) by {
            assert(forall|j: int| 0 <= j < rest.len() ==> rest[j] == lines[j + 1]);
        }
        if is_label_line(lines.first()) {
            lemma_pass1_map_preserves(rest, m.insert(label_name(lines.first()), count), count, name);
        } else {
            lemma_pass1_map_preserves(rest, m, (count + 1) as u16, name);
        }
    }
}

/// Law: a label declaration resolves to the number of instruction-bearing
/// lines before it — its position in the final word sequence — however many
/// labels precede it, provided no later declaration of the same name
/// overwrites it.
pub proof fn lemma_label_address(lines: Seq<Seq<char>>, m: Map<Seq<char>, u16>, count: u16, k: int)
    requires
        0 <= k < lines.len(),
        is_label_line(lines[k]),
        forall|j: int|
            k < j < lines.len() && is_label_line(lines[j]) ==> label_name(lines[j]) != label_name(
                lines[k],
            ),
        count + lines.len() <= u16::MAX,
    ensures
        pass1_map(lines, m, count).contains_key(label_name(lines[k])),
        pass1_map(lines, m, count)[label_name(lines[k])] == count + instr_count(lines.take(k)),
    decreases lines.len(),
{
    let name = label_name(lines[k]);
    let rest = lines.drop_first();
    assert(forall|j: int| 0 <= j < rest.len() ==> rest[j] == lines[j + 1]);
    if k == 0 {
        assert(lines.take(0) =~= Seq::empty());
        lemma_pass1_map_preserves(rest, m.insert(name, count), count, name);
    } else {
        assert(lines.take(k).drop_first() =~= rest.take(k - 1));
        assert(lines.take(k).first() == lines.first());
        lemma_strip_labels_len(rest.take(k - 1));
        if is_label_line(lines.first()) {
            lemma_label_address(rest, m.insert(label_name(lines.first()), count), count, k - 1);
        } else {
            lemma_label_address(rest, m, (count + 1) as u16, k - 1);
        }
    }
}

/// Whether a line is a label declaration.
fn is_label(s: &str) -> (r: bool)
    ensures
        r == is_label_line(s@),
{
    let n = s.unicode_len();
    if n < 3 {
        return false;
    }
    if s.get_char(0) != '(' {
        return false;
    }
    if s.get_char(n - 1) != ')' {
        return false;
    }
    let mut i: usize = 1;
    while i < n - 1
        invariant
            1 <= i <= n - 1,
            n == s@.len(),
            3 <= n,
            forall|j: int| 1 <= j < i ==> s@[j] != ')',
        decreases n - 1 - i,
    {
        if s.get_char(i) == ')' {
            return false;
        }
        i += 1;
    }
    true
}

/// Pass 1: bind every label declaration to the address of the next
/// instruction-bearing line and return the instruction-bearing lines in
/// order; the variable cursor does not move.
pub fn pass1(lines: &Vec<String>, symbols: &mut Symbols) -> (out: Vec<String>)
    requires
        old(symbols).wf(),
        lines@.len() <= u16::MAX,
    ensures
        final(symbols).wf(),
        final(symbols).next_addr == old(symbols).next_addr,
        final(symbols).map() == pass1_map(views(lines@), old(symbols).map(), 0),
        views(out@) == strip_labels(views(lines@)),
        out@.len() <= lines@.len(),
{
    let mut out: Vec<String> = Vec::new();
    let n = lines.len();
    proof {
        assert(views(lines@).skip(0) =~= views(lines@));
        assert(views(out@) =~= Seq::<Seq<char>>::empty());
        assert(views(out@) + strip_labels(views(lines@)) =~= strip_labels(views(lines@)));
    }
    let mut i: usize = 0;
    while i < n
        invariant
            i <= n,
            n == lines@.len(),
            n <= u16::MAX,
            symbols.wf(),
            symbols.next_addr == old(symbols).next_addr,
            out@.len() <= i,
            pass1_map(views(lines@).skip(i as int), symbols.map(), out@.len() as u16)
                == pass1_map(views(lines@), old(symbols).map(), 0),
            strip_labels(views(lines@)) == views(out@) + strip_labels(views(lines@).skip(i as int)),
        decreases n - i,
    {
        let ghost cur = views(lines@).skip(i as int);
        proof {
            assert(cur.first() == lines@[i as int]@);
            assert(cur.drop_first() =~= views(lines@).skip(i as int + 1));
        }
        let line: &String = &lines[i];
        let s = line.as_str();
        if is_label(s) {
            let ln = s.unicode_len();
            let name = s.substring_char(1, ln - 1);
            symbols.declare_label(name, out.len() as u16);
            proof {
                assert(name@ == label_name(cur.first()));
            }
        } else {
            out.push(line.clone());
            proof {
                assert(views(out@) =~= views(out@.drop_last()).push(lines@[i as int]@));
                assert(views(out@.drop_last()) + strip_labels(cur) =~= views(out@)
                    + strip_labels(cur.drop_first()));
            }
        }
        i += 1;
    }
    proof {
        assert(views(lines@).skip(n as int) =~= Seq::<Seq<char>>::empty());
        assert(views(out@) + strip_labels(views(lines@).skip(n as int)) =~= views(out@));
    }
    out
}

/// The position of the first occurrence of a character in the text.
pub open spec fn first_idx(s: Seq<char>, c: char) -> Option<int>
    decreases s.len(),
{
    if s.len() == 0 {
        None
    } else if s.first() == c {
        Some(0int)
    } else {
        match first_idx(s.drop_first(), c) {
            None => None,
            Some(i) => Some(i + 1),
        }
    }
}

/// The first occurrence is an occurrence and nothing earlier is one.
pub proof fn lemma_first_idx(s: Seq<char>, c: char)
    ensures
        match first_idx(s, c) {
            Some(i) => 0 <= i < s.len() && s[i] == c && (forall|j: int| 0 <= j < i ==> s[j] != c),
            None => forall|j: int| 0 <= j < s.len() ==> s[j] != c,
        },
    decreases s.len(),
{
    if s.len() > 0 && s.first() != c {
        lemma_first_idx(s.drop_first(), c);
        match first_idx(s.drop_first(), c) {
            Some(i) => {
                assert(s[i + 1] == s.drop_first()[i]);
                assert forall|j: int| 0 <= j < i + 1 implies s[j] != c by {
                    if j > 0 {
                        assert(s[j] == s.drop_first()[j - 1]);
                    }
                }
            },
            None => {
                assert forall|j: int| 0 <= j < s.len() implies s[j] != c by {
                    if j > 0 {
                        assert(s[j] == s.drop_first()[j - 1]);
                    }
                }
            },
        }
    }
}

/// Find the first occurrence of a character in the text.
fn find_char(s: &str, c: char) -> (r: Option<usize>)
    ensures
        match r {
            Some(k) => first_idx(s@, c) == Some(k as int),
            None => first_idx(s@, c) is None,
        },
{
    proof {
        lemma_first_idx(s@, c);
    }
    let n = s.unicode_len();
    let mut i: usize = 0;
    while i < n
        invariant
            i <= n,
            n == s@.len(),
            forall|j: int| 0 <= j < i ==> s@[j] != c,
        decreases n - i,
    {
        if s.get_char(i) == c {
            proof {
                lemma_first_idx(s@, c);
            }
            return Some(i);
        }
        i += 1;
    }
    proof {
        lemma_first_idx(s@, c);
    }
    None
}

/// The form of one instruction-bearing line, by the fixed precedence: a
/// line opening with `@` is an address instruction whose operand is the
/// rest of the line; any other line is read as a compute instruction, the
/// text before the first `=` (if any) its destination and the text after
/// the first `;` of the remainder (if any) its jump condition.
pub enum LineForm {
    Addr(Seq<char>),
    Compute(Option<Seq<char>>, Seq<char>, Option<Seq<char>>),
}

/// Classify one line into its instruction form.
pub open spec fn classify_line(s: Seq<char>) -> LineForm {
    if s.len() >= 2 && s[0] == '@' {
        LineForm::Addr(s.subrange(1, s.len() as int))
    } else {
        let (dest, rest) = match first_idx(s, '=') {
            Some(i) => (Some(s.subrange(0, i)), s.subrange(i + 1, s.len() as int)),
            None => (None, s),
        };
        match first_idx(rest, ';') {
            Some(k) => LineForm::Compute(
                dest,
                rest.subrange(0, k),
                Some(rest.subrange(k + 1, rest.len() as int)),
            ),
            None => LineForm::Compute(dest, rest, None),
        }
    }
}

/// What assembling one line does: the word it emits and the symbol table it
/// leaves, or the fatal parse error it aborts with.  An address instruction
/// always succeeds (an unseen symbol is allocated); a compute instruction
/// fails on its first unrecognized field and touches nothing.
pub open spec fn line_step(s: Seq<char>, m: Map<Seq<char>, u16>, next: u16) -> Result<
    (u16, Map<Seq<char>, u16>, u16),
    AsmError,
> {
    match classify_line(s) {
        LineForm::Addr(op) => Ok(a_resolve(op, m, next)),
        LineForm::Compute(d, cp, j) => match c_new_spec(d, cp, j) {
            Ok(ci) => Ok((c_word(ci), m, next)),
            Err(e) => Err(e),
        },
    }
}

/// What pass 2 does to a line sequence: the emitted words in order, and the
/// symbol table and cursor it leaves — at the end of the run, or at the
/// point of the first malformed line, where the run aborts.
pub open spec fn run2(lines: Seq<Seq<char>>, m: Map<Seq<char>, u16>, next: u16) -> (
    Result<Seq<u16>, AsmError>,
    Map<Seq<char>, u16>,
    u16,
)
    decreases lines.len(),
{
    if lines.len() == 0 {
        (Ok(Seq::empty()), m, next)
    } else {
        match line_step(lines.first(), m, next) {
            Err(e) => (Err(e), m, next),
            Ok((w, m2, n2)) => {
                let rest = run2(lines.drop_first(), m2, n2);
                match rest.0 {
                    Err(e) => (Err(e), rest.1, rest.2),
                    Ok(ws) => (Ok(seq![w] + ws), rest.1, rest.2),
                }
            },
        }
    }
}

/// Pass 2: classify, resolve and encode each instruction-bearing line, in
/// order, one word per line; the first malformed line aborts with its error
/// and no words.
pub fn pass2(commands: &Vec<String>, symbols: &mut Symbols) -> (r: Result<Vec<u16>, AsmError>)
    requires
        old(symbols).wf(),
        old(symbols).next_addr + commands@.len() <= u16::MAX,
    ensures
        final(symbols).wf(),
        ({
            let full = run2(views(commands@), old(symbols).map(), old(symbols).next_addr);
            &&& final(symbols).map() == full.1
            &&& final(symbols).next_addr == full.2
            &&& match r {
                Ok(ws) => full.0 == Ok::<Seq<u16>, AsmError>(ws@),
                Err(e) => full.0 == Err::<Seq<u16>, AsmError>(e),
            }
        }),
{
    let mut out: Vec<u16> = Vec::new();
    let n = commands.len();
    proof {
        assert(views(commands@).skip(0) =~= views(commands@));
    }
    let mut i: usize = 0;
    while i < n
        invariant
            i <= n,
            n == commands@.len(),
            symbols.wf(),
            symbols.next_addr <= old(symbols).next_addr + i,
            old(symbols).next_addr + n <= u16::MAX,
            out@.len() == i,
            ({
                let full = run2(views(commands@), old(symbols).map(), old(symbols).next_addr);
                let rest = run2(views(commands@).skip(i as int), symbols.map(), symbols.next_addr);
                &&& full.1 == rest.1
                &&& full.2 == rest.2
                &&& match rest.0 {
                    Ok(ws) => full.0 == Ok::<Seq<u16>, AsmError>(out@ + ws),
                    Err(e) => full.0 == Err::<Seq<u16>, AsmError>(e),
                }
            }),
        decreases n - i,
    {
        let ghost cur = views(commands@).skip(i as int);
        let ghost pre_m = symbols.map();
        let ghost pre_next = symbols.next_addr;
        proof {
            assert(cur.first() == commands@[i as int]@);
            assert(cur.drop_first() =~= views(commands@).skip(i as int + 1));
        }
        let line: &String = &commands[i];
        let s = line.as_str();
        let n_chars = s.unicode_len();
        let w: u16;
        if n_chars >= 2 && s.get_char(0) == '@' {
            let op = s.substring_char(1, n_chars);
            let inst = AInstruction::new(op, symbols);
            w = inst.to_u16();
        } else {
            let dest_opt: Option<&str>;
            let rest_str: &str;
            match find_char(s, '=') {
                Some(k) => {
                    proof {
                        lemma_first_idx(s@, '=');
                    }
                    dest_opt = Some(s.substring_char(0, k));
                    rest_str = s.substring_char(k + 1, n_chars);
                },
                None => {
                    dest_opt = None;
                    rest_str = s;
                },
            }
            let rest_len = rest_str.unicode_len();
            let comp_str: &str;
            let jump_opt: Option<&str>;
            match find_char(rest_str, ';') {
                Some(k) => {
                    proof {
                        lemma_first_idx(rest_str@, ';');
                    }
                    comp_str = rest_str.substring_char(0, k);
                    jump_opt = Some(rest_str.substring_char(k + 1, rest_len));
                },
                None => {
                    comp_str = rest_str;
                    jump_opt = None;
                },
            }
            proof {
                assert(classify_line(cur.first()) == LineForm::Compute(
                    opt_view(dest_opt),
                    comp_str@,
                    opt_view(jump_opt),
                ));
            }
            match CInstruction::new(dest_opt, comp_str, jump_opt) {
                Ok(ci) => {
                    w = ci.to_u16();
                },
                Err(e) => {
                    return Err(e);
                },
            }
        }
        proof {
            assert(line_step(cur.first(), pre_m, pre_next) == Ok::<
                (u16, Map<Seq<char>, u16>, u16),
                AsmError,
            >((w, symbols.map(), symbols.next_addr)));
        }
        let ghost out_old = out@;
        out.push(w);
        i += 1;
        proof {
            let rest = run2(views(commands@).skip(i as int), symbols.map(), symbols.next_addr);
            assert(cur.len() > 0);
            assert(run2(cur, pre_m, pre_next) == match rest.0 {
                Err(e) => (Err::<Seq<u16>, AsmError>(e), rest.1, rest.2),
                Ok(ws) => (Ok::<Seq<u16>, AsmError>(seq![w] + ws), rest.1, rest.2),
            });
            match rest.0 {
                Ok(ws) => {
                    assert(out@ + ws =~= out_old + (seq![w] + ws));
                },
                Err(_) => {},
            }
        }
    }
    proof {
        assert(views(commands@).skip(n as int) =~= Seq::<Seq<char>>::empty());
        assert(out@ + Seq::<u16>::empty() =~= out@);
    }
    Ok(out)
}

/// What assembling a source yields: pass 1 binds the labels and strips
/// their declarations; pass 2 encodes the instruction-bearing lines against
/// the seeded table.
pub open spec fn assemble_spec(lines: Seq<Seq<char>>) -> Result<Seq<u16>, AsmError> {
    run2(
        strip_labels(lines),
        pass1_map(lines, predefined_map(), 0),
        FIRST_VARIABLE_ADDR,
    ).0
}

/// Assemble trimmed, non-empty, non-comment source lines into one 16-bit
/// word per instruction-bearing line, in source order; the first malformed
/// line aborts the run with its error and no words.
pub fn assemble(lines: &Vec<String>) -> (r: Result<Vec<u16>, AsmError>)
    requires
        lines@.len() + FIRST_VARIABLE_ADDR <= u16::MAX,
    ensures
        match r {
            Ok(ws) => assemble_spec(views(lines@)) == Ok::<Seq<u16>, AsmError>(ws@),
            Err(e) => assemble_spec(views(lines@)) == Err::<Seq<u16>, AsmError>(e),
        },
{
    let mut symbols = Symbols::new();
    let stripped = pass1(lines, &mut symbols);
    pass2(&stripped, &mut symbols)
}

/// The 16-character binary rendering of a machine word, most significant
/// bit first.
pub open spec fn word_bits(w: u16) -> Seq<char> {
    Seq::new(
        16,
        |i: int|
            if (w >> ((15 - i) as u16)) & 1 == 1 {
                '1'
            } else {
                '0'
            },
    )
}

/// Render a machine word as its 16 binary digits, most significant first.
pub fn format_word(w: u16) -> (s: String)
    ensures
        s@ == word_bits(w),
{
    let mut s = String::new();
    let mut i: usize = 0;
    while i < 16
        invariant
            i <= 16,
            s@.len() == i,
            forall|j: int| 0 <= j < i ==> s@[j] == word_bits(w)[j],
        decreases 16 - i,
    {
        let bit = (w >> ((15 - i) as u16)) & 1;
        if bit == 1 {
            s.append("1");
        } else {
            s.append("0");
        }
        proof {
            reveal_strlit("1");
            reveal_strlit("0");
        }
        i += 1;
    }
    proof {
        assert(s@ =~= word_bits(w));
    }
    s
}

} // verus!
