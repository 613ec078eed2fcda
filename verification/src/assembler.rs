use vstd::prelude::*;

use crate::emulator::{can_step, execute, jump_target, jump_target_fits, ldi_value, operand, step, MachineState};
use crate::text::{
    chars_eq, chars_of, copy_chars, is_word, lines, parse_byte, parse_u8, split_lines,
    split_tokens, tokens, views,
};

verus! {

/// Why a source text does not assemble; each carries the index of the
/// offending line (counting from 0).
#[derive(Debug, Clone, Copy, PartialEq, Eq, Structural)]
pub enum AsmError {
    /// A line of whitespace only.
    BlankLine(usize),
    /// An instruction or directive lacks an operand.
    MissingOperand(usize),
    /// More than 255 instruction lines before a label.
    TooManyInstructions(usize),
    /// More than 255 register names declared.
    TooManyRegisters(usize),
    /// A register operand names no register.
    UnknownRegister(usize),
    /// A condition operand names no flag.
    UnknownFlag(usize),
    /// A jump operand names no label.
    UnknownLabel(usize),
    /// An immediate is not a decimal byte.
    BadNumber(usize),
}

/// Name-to-number tables; a later entry for a name hides earlier ones.
pub open spec fn lookup(m: Seq<(Seq<char>, u8)>, k: Seq<char>) -> Option<u8>
    decreases m.len(),
{
    if m.len() == 0 {
        None
    } else if m.last().0 == k {
        Some(m.last().1)
    } else {
        lookup(m.drop_last(), k)
    }
}

/// The symbols gathered by the first pass over a source.
#[verifier::ext_equal]
pub struct Symbols {
    /// Register names and numbers.
    pub regs: Seq<(Seq<char>, u8)>,
    /// Label names and the instruction count at their definitions.
    pub labels: Seq<(Seq<char>, u8)>,
    /// Lines counted as instructions so far.
    pub n: u8,
    /// The number the next declared register name gets.
    pub reg_n: u8,
}

/// The built-in register names.
pub open spec fn builtin_registers() -> Seq<(Seq<char>, u8)> {
    seq![
        ("0"@, 0u8),
        ("a"@, 1u8),
        ("b"@, 2u8),
        ("c"@, 3u8),
        ("d"@, 4u8),
        ("e"@, 5u8),
        ("f"@, 6u8),
        ("g"@, 7u8),
        ("h"@, 8u8),
        ("i"@, 9u8),
        ("tmp"@, 10u8),
        ("tmp2"@, 11u8),
    ]
}

/// The condition names of conditional jumps.
pub open spec fn flag_names() -> Seq<(Seq<char>, u8)> {
    seq![
        ("odd"@, 0u8),
        ("true"@, 5u8),
        ("zero"@, 1u8),
        ("input"@, 5u8),
        ("cout"@, 3u8),
        ("greater"@, 3u8),
    ]
}

/// The symbols before the first line.
pub open spec fn initial_symbols() -> Symbols {
    Symbols { regs: builtin_registers(), labels: Seq::empty(), n: 0, reg_n: 1 }
}

/// `use` gives the names, in order, the next register numbers.
pub open spec fn declare_registers(st: Symbols, names: Seq<Seq<char>>, idx: int) -> Result<
    Symbols,
    AsmError,
>
    decreases names.len(),
{
    if names.len() == 0 {
        Ok(st)
    } else {
        match declare_registers(st, names.drop_last(), idx) {
            Err(e) => Err(e),
            Ok(s2) => if s2.reg_n == 255 {
                Err(AsmError::TooManyRegisters(idx as usize))
            } else {
                Ok(
                    Symbols {
                        regs: s2.regs.push((names.last(), s2.reg_n)),
                        reg_n: (s2.reg_n + 1) as u8,
                        ..s2
                    },
                )
            },
        }
    }
}

/// The register names a `use` line declares: at most its first eight operands.
pub open spec fn declared_names(t: Seq<Seq<char>>) -> Seq<Seq<char>> {
    t.subrange(1, if t.len() < 9 { t.len() as int } else { 9 })
}

/// The first pass over one line: labels take the current instruction count,
/// `use` declares registers, and every other non-empty, non-comment line
/// counts as an instruction.
pub open spec fn scan_line(st: Symbols, line: Seq<char>, idx: int) -> Result<Symbols, AsmError> {
    let t = tokens(line);
    if line.len() == 0 {
        Ok(st)
    } else if t.len() == 0 {
        Err(AsmError::BlankLine(idx as usize))
    } else if t[0] == "#"@ {
        Ok(st)
    } else if t[0] == "def"@ {
        if t.len() < 2 {
            Err(AsmError::MissingOperand(idx as usize))
        } else {
            Ok(Symbols { labels: st.labels.push((t[1], st.n)), ..st })
        }
    } else if t[0] == "use"@ {
        declare_registers(st, declared_names(t), idx)
    } else if st.n == 255 {
        Err(AsmError::TooManyInstructions(idx as usize))
    } else {
        Ok(Symbols { n: (st.n + 1) as u8, ..st })
    }
}

/// The first pass over the first `k` lines.
pub open spec fn collect_upto(ls: Seq<Seq<char>>, k: nat) -> Result<Symbols, AsmError>
    decreases k,
{
    if k == 0 {
        Ok(initial_symbols())
    } else {
        match collect_upto(ls, (k - 1) as nat) {
            Err(e) => Err(e),
            Ok(st) => scan_line(st, ls[k - 1], k - 1),
        }
    }
}

/// The shapes of instruction lines, by mnemonic.
#[derive(Debug, Clone, Copy, PartialEq, Eq, Structural)]
pub enum Form {
    /// `-`, `noop`
    Nop,
    /// `op d a b`: three registers.
    Alu(u8),
    /// `op= d b`: `d := d op b`.
    AluAssign(u8),
    /// `ldi d n`
    Ldi,
    /// `load d`
    Load,
    /// `store s`
    Store,
    /// `if [not] flag label`
    If,
    /// `call label`
    Call,
    /// `return`
    Return,
    /// `halt`
    Halt,
    /// `rshift= d`, `>>= d`
    ShiftRightAssign,
    /// `lshift= d`, `<<= d`
    ShiftLeftAssign,
    /// `mov d s`
    Mov,
    /// `cmp a b`
    Cmp,
    /// `goto label`, `jmp label`
    Goto,
    /// `inc d`
    Inc,
    /// `check s`
    Check,
    /// Anything else: the line is skipped.
    Unknown,
}

/// The shape of an instruction line with mnemonic `op`.
pub open spec fn classify(op: Seq<char>) -> Form {
    if op == "-"@ || op == "noop"@ {
        Form::Nop
    } else if op == "add"@ {
        Form::Alu(0)
    } else if op == "sub"@ {
        Form::Alu(1)
    } else if op == "addci"@ {
        Form::Alu(2)
    } else if op == "addco"@ {
        Form::Alu(3)
    } else if op == "or"@ {
        Form::Alu(4)
    } else if op == "and"@ {
        Form::Alu(5)
    } else if op == "xor"@ {
        Form::Alu(6)
    } else if op == "xnor"@ {
        Form::Alu(7)
    } else if op == "rshift"@ {
        Form::Alu(8)
    } else if op == "ldi"@ {
        Form::Ldi
    } else if op == "load"@ {
        Form::Load
    } else if op == "store"@ {
        Form::Store
    } else if op == "if"@ {
        Form::If
    } else if op == "call"@ {
        Form::Call
    } else if op == "return"@ {
        Form::Return
    } else if op == "halt"@ {
        Form::Halt
    } else if op == "add="@ {
        Form::AluAssign(0)
    } else if op == "sub="@ {
        Form::AluAssign(1)
    } else if op == "addci="@ {
        Form::AluAssign(2)
    } else if op == "addco="@ {
        Form::AluAssign(3)
    } else if op == "or="@ {
        Form::AluAssign(4)
    } else if op == "and="@ {
        Form::AluAssign(5)
    } else if op == "xor="@ {
        Form::AluAssign(6)
    } else if op == "xnor="@ {
        Form::AluAssign(7)
    } else if op == "rshift="@ || op == ">>="@ {
        Form::ShiftRightAssign
    } else if op == "lshift="@ || op == "<<="@ {
        Form::ShiftLeftAssign
    } else if op == "mov"@ {
        Form::Mov
    } else if op == "cmp"@ {
        Form::Cmp
    } else if op == "goto"@ || op == "jmp"@ {
        Form::Goto
    } else if op == "inc"@ {
        Form::Inc
    } else if op == "check"@ {
        Form::Check
    } else {
        Form::Unknown
    }
}

/// Operand `k` of line `idx`, looked up in table `m`; `not_found` is the
/// error for a name not in the table.
pub open spec fn named_operand(
    t: Seq<Seq<char>>,
    k: int,
    m: Seq<(Seq<char>, u8)>,
    not_found: AsmError,
    idx: int,
) -> Result<u8, AsmError> {
    if k >= t.len() {
        Err(AsmError::MissingOperand(idx as usize))
    } else {
        match lookup(m, t[k]) {
            Some(v) => Ok(v),
            None => Err(not_found),
        }
    }
}

/// Register operand `k`.
pub open spec fn reg_operand(t: Seq<Seq<char>>, k: int, st: Symbols, idx: int) -> Result<
    u8,
    AsmError,
> {
    named_operand(t, k, st.regs, AsmError::UnknownRegister(idx as usize), idx)
}

/// Label operand `k`.
pub open spec fn label_operand(t: Seq<Seq<char>>, k: int, st: Symbols, idx: int) -> Result<
    u8,
    AsmError,
> {
    named_operand(t, k, st.labels, AsmError::UnknownLabel(idx as usize), idx)
}

/// Flag operand `k`.
pub open spec fn flag_operand(t: Seq<Seq<char>>, k: int, idx: int) -> Result<u8, AsmError> {
    named_operand(t, k, flag_names(), AsmError::UnknownFlag(idx as usize), idx)
}

/// Immediate operand `k`.
pub open spec fn imm_operand(t: Seq<Seq<char>>, k: int, idx: int) -> Result<u8, AsmError> {
    if k >= t.len() {
        Err(AsmError::MissingOperand(idx as usize))
    } else {
        match parse_u8(t[k]) {
            Some(v) => Ok(v),
            None => Err(AsmError::BadNumber(idx as usize)),
        }
    }
}

/// The low nibble of a byte.
pub open spec fn lo_nibble(n: u8) -> u8 {
    n & 0xf
}

/// The high nibble of a byte.
pub open spec fn hi_nibble(n: u8) -> u8 {
    (n >> 4u8) & 0xf
}

/// The instruction word `[op, x, y, z]`.
pub open spec fn word(op: u8, x: u8, y: u8, z: u8) -> [u8; 4] {
    [op, x, y, z]
}

/// Encodes `[op, f(r1), f(r2), f(r3)]`-shaped instructions whose three
/// operand fields are registers `k1`, `k2`, `k3` of the line, read in that
/// order (a field with `k = 0` is the constant 0).
pub open spec fn encode_regs(
    op: u8,
    t: Seq<Seq<char>>,
    k1: int,
    k2: int,
    k3: int,
    st: Symbols,
    idx: int,
) -> Result<Option<[u8; 4]>, AsmError> {
    let r1 = if k1 == 0 { Ok(0u8) } else { reg_operand(t, k1, st, idx) };
    match r1 {
        Err(e) => Err(e),
        Ok(a) => {
            let r2 = if k2 == 0 { Ok(0u8) } else { reg_operand(t, k2, st, idx) };
            match r2 {
                Err(e) => Err(e),
                Ok(b) => {
                    let r3 = if k3 == 0 { Ok(0u8) } else { reg_operand(t, k3, st, idx) };
                    match r3 {
                        Err(e) => Err(e),
                        Ok(c) => Ok(Some(word(op, a, b, c))),
                    }
                },
            }
        },
    }
}

/// Encodes a jump-shaped instruction `[op, x, lo, hi]` to the label that
/// operand `k` names.
pub open spec fn encode_jump(op: u8, x: u8, t: Seq<Seq<char>>, k: int, st: Symbols, idx: int) -> Result<
    Option<[u8; 4]>,
    AsmError,
> {
    match label_operand(t, k, st, idx) {
        Err(e) => Err(e),
        Ok(n) => Ok(Some(word(op, x, lo_nibble(n), hi_nibble(n)))),
    }
}

/// The instruction that a line with tokens `t` (and mnemonic `t[0]`) encodes.
pub open spec fn encode(t: Seq<Seq<char>>, st: Symbols, idx: int) -> Result<
    Option<[u8; 4]>,
    AsmError,
> {
    match classify(t[0]) {
        Form::Nop => Ok(Some(word(0, 0, 0, 0))),
        Form::Alu(op) => encode_regs(op, t, 1, 2, 3, st, idx),
        Form::AluAssign(op) => encode_regs(op, t, 1, 1, 2, st, idx),
        Form::Ldi => match imm_operand(t, 2, idx) {
            Err(e) => Err(e),
            Ok(n) => match reg_operand(t, 1, st, idx) {
                Err(e) => Err(e),
                Ok(d) => Ok(Some(word(9, d, lo_nibble(n), hi_nibble(n)))),
            },
        },
        Form::Load => encode_regs(10, t, 1, 0, 0, st, idx),
        Form::Store => encode_regs(11, t, 0, 1, 0, st, idx),
        Form::If => if t.len() < 2 {
            Err(AsmError::MissingOperand(idx as usize))
        } else if t[1] == "not"@ {
            match label_operand(t, 4, st, idx) {
                Err(e) => Err(e),
                Ok(n) => match flag_operand(t, 2, idx) {
                    Err(e) => Err(e),
                    Ok(f) => Ok(Some(word(12, (8 + f) as u8, lo_nibble(n), hi_nibble(n)))),
                },
            }
        } else {
            match label_operand(t, 3, st, idx) {
                Err(e) => Err(e),
                Ok(n) => match flag_operand(t, 1, idx) {
                    Err(e) => Err(e),
                    Ok(f) => Ok(Some(word(12, f, lo_nibble(n), hi_nibble(n)))),
                },
            }
        },
        Form::Call => encode_jump(13, 0, t, 1, st, idx),
        Form::Return => Ok(Some(word(14, 0, 0, 0))),
        Form::Halt => Ok(Some(word(15, 0, 0, 0))),
        Form::ShiftRightAssign => encode_regs(8, t, 1, 0, 1, st, idx),
        Form::ShiftLeftAssign => encode_regs(0, t, 1, 1, 1, st, idx),
        Form::Mov => encode_regs(0, t, 1, 0, 2, st, idx),
        Form::Cmp => encode_regs(1, t, 0, 1, 2, st, idx),
        Form::Goto => encode_jump(13, 8, t, 1, st, idx),
        Form::Inc => encode_regs(2, t, 1, 0, 1, st, idx),
        Form::Check => encode_regs(0, t, 0, 0, 1, st, idx),
        Form::Unknown => Ok(None),
    }
}

/// Whether a mnemonic is a directive or comment that the second pass skips.
pub open spec fn is_directive(op: Seq<char>) -> bool {
    op == "use"@ || op == "def"@ || op == "#"@
}

/// The second pass over one line: the instruction it encodes, if any.
pub open spec fn encode_line(line: Seq<char>, st: Symbols, idx: int) -> Result<
    Option<[u8; 4]>,
    AsmError,
> {
    let t = tokens(line);
    if t.len() == 0 || is_directive(t[0]) {
        Ok(None)
    } else {
        encode(t, st, idx)
    }
}

/// The second pass over the first `k` lines.
pub open spec fn emit_upto(ls: Seq<Seq<char>>, st: Symbols, k: nat) -> Result<
    Seq<[u8; 4]>,
    AsmError,
>
    decreases k,
{
    if k == 0 {
        Ok(Seq::empty())
    } else {
        match emit_upto(ls, st, (k - 1) as nat) {
            Err(e) => Err(e),
            Ok(code) => match encode_line(ls[k - 1], st, k - 1) {
                Err(e) => Err(e),
                Ok(None) => Ok(code),
                Ok(Some(w)) => Ok(code.push(w)),
            },
        }
    }
}

/// The symbols of a source text.
pub open spec fn spec_symbols(src: Seq<char>) -> Result<Symbols, AsmError> {
    collect_upto(lines(src), lines(src).len())
}

/// The machine code of a source text: the first pass gathers registers and
/// labels over all lines, then the second pass encodes each line.
pub open spec fn spec_assemble(src: Seq<char>) -> Result<Seq<[u8; 4]>, AsmError> {
    match spec_symbols(src) {
        Err(e) => Err(e),
        Ok(st) => emit_upto(lines(src), st, lines(src).len()),
    }
}


/// A name table in executable form.
pub open spec fn table_view(v: Seq<(Vec<char>, u8)>) -> Seq<(Seq<char>, u8)> {
    v.map_values(|p: (Vec<char>, u8)| (p.0@, p.1))
}

/// The register and label tables gathered by the first pass.
pub struct SymbolTable {
    /// Register names and numbers; a later entry hides an earlier one.
    pub regs: Vec<(Vec<char>, u8)>,
    /// Label names and instruction counts; a later entry hides an earlier one.
    pub labels: Vec<(Vec<char>, u8)>,
    /// Lines counted as instructions.
    pub n: u8,
    /// The number the next declared register name gets.
    pub reg_n: u8,
}

impl SymbolTable {
    /// The tables as mathematical sequences.
    pub open spec fn symbols(&self) -> Symbols {
        Symbols {
            regs: table_view(self.regs@),
            labels: table_view(self.labels@),
            n: self.n,
            reg_n: self.reg_n,
        }
    }

    /// The number of `name` in the register table.
    pub fn register(&self, name: &Vec<char>) -> (r: Option<u8>)
        ensures
            r == lookup(self.symbols().regs, name@),
    {
        lookup_name(&self.regs, name)
    }

    /// The instruction count of label `name`.
    pub fn label(&self, name: &Vec<char>) -> (r: Option<u8>)
        ensures
            r == lookup(self.symbols().labels, name@),
    {
        lookup_name(&self.labels, name)
    }
}

/// Looks up a name; the latest entry wins.
fn lookup_name(m: &Vec<(Vec<char>, u8)>, k: &Vec<char>) -> (r: Option<u8>)
    ensures
        r == lookup(table_view(m@), k@),
{
    let mut i = m.len();
    assert(m@.take(i as int) =~= m@);
    while i > 0
        invariant
            i <= m.len(),
            lookup(table_view(m@), k@) == lookup(table_view(m@.take(i as int)), k@),
        decreases i,
    {
        let ghost pre = table_view(m@.take(i as int));
        assert(pre.drop_last() =~= table_view(m@.take(i - 1)));
        if chars_eq(&m[i - 1].0, k) {
            return Some(m[i - 1].1);
        }
        i = i - 1;
    }
    None
}

/// Appends a name with its number.
fn table_push(m: &mut Vec<(Vec<char>, u8)>, name: &Vec<char>, v: u8)
    ensures
        table_view(final(m)@) == table_view(old(m)@).push((name@, v)),
{
    m.push((copy_chars(name), v));
    assert(table_view(m@) =~= table_view(old(m)@).push((name@, v)));
}

/// Appends a name, given as a string, with its number.
fn table_push_str(m: &mut Vec<(Vec<char>, u8)>, name: &str, v: u8)
    ensures
        table_view(final(m)@) == table_view(old(m)@).push((name@, v)),
{
    m.push((chars_of(name), v));
    assert(table_view(m@) =~= table_view(old(m)@).push((name@, v)));
}

/// The built-in register table.
fn builtin_register_table() -> (m: Vec<(Vec<char>, u8)>)
    ensures
        table_view(m@) == builtin_registers(),
{
    let mut m: Vec<(Vec<char>, u8)> = Vec::new();
    table_push_str(&mut m, "0", 0);
    table_push_str(&mut m, "a", 1);
    table_push_str(&mut m, "b", 2);
    table_push_str(&mut m, "c", 3);
    table_push_str(&mut m, "d", 4);
    table_push_str(&mut m, "e", 5);
    table_push_str(&mut m, "f", 6);
    table_push_str(&mut m, "g", 7);
    table_push_str(&mut m, "h", 8);
    table_push_str(&mut m, "i", 9);
    table_push_str(&mut m, "tmp", 10);
    table_push_str(&mut m, "tmp2", 11);
    assert(table_view(m@) =~= builtin_registers());
    m
}

/// The flag name table.
fn flag_table() -> (m: Vec<(Vec<char>, u8)>)
    ensures
        table_view(m@) == flag_names(),
{
    let mut m: Vec<(Vec<char>, u8)> = Vec::new();
    table_push_str(&mut m, "odd", 0);
    table_push_str(&mut m, "true", 5);
    table_push_str(&mut m, "zero", 1);
    table_push_str(&mut m, "input", 5);
    table_push_str(&mut m, "cout", 3);
    table_push_str(&mut m, "greater", 3);
    assert(table_view(m@) =~= flag_names());
    m
}

/// The first pass over one line, as `scan_line` describes; on success the
/// table is updated.
fn scan_one_line(st: &mut SymbolTable, line: &Vec<char>, idx: usize) -> (r: Result<(), AsmError>)
    ensures
        match r {
            Ok(()) => scan_line(old(st).symbols(), line@, idx as int) == Ok::<Symbols, AsmError>(
                final(st).symbols(),
            ),
            Err(e) => scan_line(old(st).symbols(), line@, idx as int) == Err::<Symbols, AsmError>(e),
        },
{
    if line.len() == 0 {
        return Ok(());
    }
    let t = split_tokens(line);
    if t.len() == 0 {
        return Err(AsmError::BlankLine(idx));
    }
    assert(views(t@)[0] == t@[0]@);
    if is_word(&t[0], "#") {
        Ok(())
    } else if is_word(&t[0], "def") {
        if t.len() < 2 {
            return Err(AsmError::MissingOperand(idx));
        }
        assert(views(t@)[1] == t@[1]@);
        let n = st.n;
        table_push(&mut st.labels, &t[1], n);
        Ok(())
    } else if is_word(&t[0], "use") {
        let end: usize = if t.len() < 9 {
            t.len()
        } else {
            9
        };
        let ghost st0 = old(st).symbols();
        let ghost names = declared_names(views(t@));
        assert(names.subrange(0, 0) =~= Seq::<Seq<char>>::empty());
        let mut i: usize = 1;
        while i < end
            invariant
                1 <= i <= end,
                end <= t.len(),
                names == views(t@).subrange(1, end as int),
                st0 == old(st).symbols(),
                scan_line(st0, line@, idx as int) == declare_registers(st0, names, idx as int),
                declare_registers(st0, names.subrange(0, i - 1), idx as int) == Ok::<
                    Symbols,
                    AsmError,
                >(st.symbols()),
            decreases end - i,
        {
            assert(names.subrange(0, i as int).drop_last() =~= names.subrange(0, i - 1));
            assert(names.subrange(0, i as int).last() == t@[i as int]@);
            if st.reg_n == 255 {
                proof {
                    assert(declare_registers(st0, names.subrange(0, i as int), idx as int)
                        == Err::<Symbols, AsmError>(AsmError::TooManyRegisters(idx)));
                    lemma_declare_error_persists(st0, names, i as nat, idx as int);
                }
                return Err(AsmError::TooManyRegisters(idx));
            }
            let reg_n = st.reg_n;
            table_push(&mut st.regs, &t[i], reg_n);
            st.reg_n = reg_n + 1;
            i = i + 1;
        }
        assert(names.subrange(0, end - 1) =~= names);
        Ok(())
    } else {
        if st.n == 255 {
            return Err(AsmError::TooManyInstructions(idx));
        }
        st.n = st.n + 1;
        Ok(())
    }
}

/// The first pass over all lines.
fn collect_from_lines(ls: &Vec<Vec<char>>) -> (r: Result<SymbolTable, AsmError>)
    ensures
        match r {
            Ok(st) => collect_upto(views(ls@), ls@.len()) == Ok::<Symbols, AsmError>(st.symbols()),
            Err(e) => collect_upto(views(ls@), ls@.len()) == Err::<Symbols, AsmError>(e),
        },
{
    let mut st = SymbolTable { regs: builtin_register_table(), labels: Vec::new(), n: 0, reg_n: 1 };
    assert(table_view(st.labels@) =~= Seq::<(Seq<char>, u8)>::empty());
    assert(st.symbols() =~= initial_symbols());
    for k in 0..ls.len()
        invariant
            collect_upto(views(ls@), k as nat) == Ok::<Symbols, AsmError>(st.symbols()),
    {
        assert(views(ls@)[k as int] == ls@[k as int]@);
        match scan_one_line(&mut st, &ls[k], k) {
            Ok(()) => {},
            Err(e) => {
                proof {
                    lemma_collect_error_persists(views(ls@), (k + 1) as nat, ls@.len());
                }
                return Err(e);
            },
        }
    }
    Ok(st)
}

/// The first pass of the assembler: the register and label tables of a
/// source text.
pub fn collect_symbols(source: &str) -> (r: Result<SymbolTable, AsmError>)
    ensures
        match r {
            Ok(st) => spec_symbols(source@) == Ok::<Symbols, AsmError>(st.symbols()),
            Err(e) => spec_symbols(source@) == Err::<Symbols, AsmError>(e),
        },
{
    let chars = chars_of(source);
    let ls = split_lines(&chars);
    collect_from_lines(&ls)
}


/// The shape of an instruction line with mnemonic `op`, as `classify`
/// describes.
pub fn classify_mnemonic(op: &Vec<char>) -> (f: Form)
    ensures
        f == classify(op@),
{
    if is_word(op, "-") || is_word(op, "noop") {
        Form::Nop
    } else if is_word(op, "add") {
        Form::Alu(0)
    } else if is_word(op, "sub") {
        Form::Alu(1)
    } else if is_word(op, "addci") {
        Form::Alu(2)
    } else if is_word(op, "addco") {
        Form::Alu(3)
    } else if is_word(op, "or") {
        Form::Alu(4)
    } else if is_word(op, "and") {
        Form::Alu(5)
    } else if is_word(op, "xor") {
        Form::Alu(6)
    } else if is_word(op, "xnor") {
        Form::Alu(7)
    } else if is_word(op, "rshift") {
        Form::Alu(8)
    } else if is_word(op, "ldi") {
        Form::Ldi
    } else if is_word(op, "load") {
        Form::Load
    } else if is_word(op, "store") {
        Form::Store
    } else if is_word(op, "if") {
        Form::If
    } else if is_word(op, "call") {
        Form::Call
    } else if is_word(op, "return") {
        Form::Return
    } else if is_word(op, "halt") {
        Form::Halt
    } else if is_word(op, "add=") {
        Form::AluAssign(0)
    } else if is_word(op, "sub=") {
        Form::AluAssign(1)
    } else if is_word(op, "addci=") {
        Form::AluAssign(2)
    } else if is_word(op, "addco=") {
        Form::AluAssign(3)
    } else if is_word(op, "or=") {
        Form::AluAssign(4)
    } else if is_word(op, "and=") {
        Form::AluAssign(5)
    } else if is_word(op, "xor=") {
        Form::AluAssign(6)
    } else if is_word(op, "xnor=") {
        Form::AluAssign(7)
    } else if is_word(op, "rshift=") || is_word(op, ">>=") {
        Form::ShiftRightAssign
    } else if is_word(op, "lshift=") || is_word(op, "<<=") {
        Form::ShiftLeftAssign
    } else if is_word(op, "mov") {
        Form::Mov
    } else if is_word(op, "cmp") {
        Form::Cmp
    } else if is_word(op, "goto") || is_word(op, "jmp") {
        Form::Goto
    } else if is_word(op, "inc") {
        Form::Inc
    } else if is_word(op, "check") {
        Form::Check
    } else {
        Form::Unknown
    }
}

/// Operand `k`, looked up in a name table, as `named_operand` describes.
fn table_operand(
    t: &Vec<Vec<char>>,
    k: usize,
    m: &Vec<(Vec<char>, u8)>,
    not_found: AsmError,
    idx: usize,
) -> (r: Result<u8, AsmError>)
    ensures
        r == named_operand(views(t@), k as int, table_view(m@), not_found, idx as int),
{
    if k >= t.len() {
        return Err(AsmError::MissingOperand(idx));
    }
    assert(views(t@)[k as int] == t@[k as int]@);
    match lookup_name(m, &t[k]) {
        Some(v) => Ok(v),
        None => Err(not_found),
    }
}

/// Register operand `k`, or 0 when `k` is 0.
fn reg_field(t: &Vec<Vec<char>>, k: usize, st: &SymbolTable, idx: usize) -> (r: Result<
    u8,
    AsmError,
>)
    ensures
        r == (if k == 0 {
            Ok(0u8)
        } else {
            reg_operand(views(t@), k as int, st.symbols(), idx as int)
        }),
{
    if k == 0 {
        Ok(0)
    } else {
        table_operand(t, k, &st.regs, AsmError::UnknownRegister(idx), idx)
    }
}

/// Encodes a register-shaped instruction, as `encode_regs` describes.
fn encode_register_fields(
    op: u8,
    t: &Vec<Vec<char>>,
    k1: usize,
    k2: usize,
    k3: usize,
    st: &SymbolTable,
    idx: usize,
) -> (r: Result<Option<[u8; 4]>, AsmError>)
    ensures
        r == encode_regs(op, views(t@), k1 as int, k2 as int, k3 as int, st.symbols(), idx as int),
{
    let a = reg_field(t, k1, st, idx)?;
    let b = reg_field(t, k2, st, idx)?;
    let c = reg_field(t, k3, st, idx)?;
    Ok(Some([op, a, b, c]))
}

/// Encodes a jump-shaped instruction, as `encode_jump` describes.
fn encode_jump_fields(op: u8, x: u8, t: &Vec<Vec<char>>, k: usize, st: &SymbolTable, idx: usize) -> (r:
    Result<Option<[u8; 4]>, AsmError>)
    ensures
        r == encode_jump(op, x, views(t@), k as int, st.symbols(), idx as int),
{
    let n = table_operand(t, k, &st.labels, AsmError::UnknownLabel(idx), idx)?;
    Ok(Some([op, x, n & 0xf, (n >> 4) & 0xf]))
}

/// Encodes the instruction of a line with tokens `t`, as `encode` describes.
fn encode_tokens(
    t: &Vec<Vec<char>>,
    st: &SymbolTable,
    flags: &Vec<(Vec<char>, u8)>,
    idx: usize,
) -> (r: Result<Option<[u8; 4]>, AsmError>)
    requires
        t@.len() > 0,
        table_view(flags@) == flag_names(),
    ensures
        r == encode(views(t@), st.symbols(), idx as int),
{
    assert(views(t@)[0] == t@[0]@);
    match classify_mnemonic(&t[0]) {
        Form::Nop => Ok(Some([0, 0, 0, 0])),
        Form::Alu(op) => encode_register_fields(op, t, 1, 2, 3, st, idx),
        Form::AluAssign(op) => encode_register_fields(op, t, 1, 1, 2, st, idx),
        Form::Ldi => {
            if t.len() <= 2 {
                return Err(AsmError::MissingOperand(idx));
            }
            assert(views(t@)[2] == t@[2]@);
            let num: u8 = match parse_byte(&t[2]) {
                Some(v) => v,
                None => {
                    return Err(AsmError::BadNumber(idx));
                },
            };
            let d = reg_field(t, 1, st, idx)?;
            Ok(Some([9, d, num & 0xf, (num >> 4) & 0xf]))
        },
        Form::Load => encode_register_fields(10, t, 1, 0, 0, st, idx),
        Form::Store => encode_register_fields(11, t, 0, 1, 0, st, idx),
        Form::If => {
            if t.len() < 2 {
                return Err(AsmError::MissingOperand(idx));
            }
            assert(views(t@)[1] == t@[1]@);
            if is_word(&t[1], "not") {
                let num = table_operand(t, 4, &st.labels, AsmError::UnknownLabel(idx), idx)?;
                let f = table_operand(t, 2, flags, AsmError::UnknownFlag(idx), idx)?;
                proof {
                    lemma_lookup_bounded(flag_names(), views(t@)[2], 5);
                }
                Ok(Some([12, 8 + f, num & 0xf, (num >> 4) & 0xf]))
            } else {
                let num = table_operand(t, 3, &st.labels, AsmError::UnknownLabel(idx), idx)?;
                let f = table_operand(t, 1, flags, AsmError::UnknownFlag(idx), idx)?;
                Ok(Some([12, f, num & 0xf, (num >> 4) & 0xf]))
            }
        },
        Form::Call => encode_jump_fields(13, 0, t, 1, st, idx),
        Form::Return => Ok(Some([14, 0, 0, 0])),
        Form::Halt => Ok(Some([15, 0, 0, 0])),
        Form::ShiftRightAssign => encode_register_fields(8, t, 1, 0, 1, st, idx),
        Form::ShiftLeftAssign => encode_register_fields(0, t, 1, 1, 1, st, idx),
        Form::Mov => encode_register_fields(0, t, 1, 0, 2, st, idx),
        Form::Cmp => encode_register_fields(1, t, 0, 1, 2, st, idx),
        Form::Goto => encode_jump_fields(13, 8, t, 1, st, idx),
        Form::Inc => encode_register_fields(2, t, 1, 0, 1, st, idx),
        Form::Check => encode_register_fields(0, t, 0, 0, 1, st, idx),
        Form::Unknown => Ok(None),
    }
}

/// The second pass over one line, as `encode_line` describes.
fn encode_one_line(
    line: &Vec<char>,
    st: &SymbolTable,
    flags: &Vec<(Vec<char>, u8)>,
    idx: usize,
) -> (r: Result<Option<[u8; 4]>, AsmError>)
    requires
        table_view(flags@) == flag_names(),
    ensures
        r == encode_line(line@, st.symbols(), idx as int),
{
    let t = split_tokens(line);
    if t.len() == 0 {
        return Ok(None);
    }
    assert(views(t@)[0] == t@[0]@);
    if is_word(&t[0], "use") || is_word(&t[0], "def") || is_word(&t[0], "#") {
        return Ok(None);
    }
    encode_tokens(&t, st, flags, idx)
}

/// The second pass over all lines.
fn emit_from_lines(ls: &Vec<Vec<char>>, st: &SymbolTable) -> (r: Result<Vec<[u8; 4]>, AsmError>)
    ensures
        match r {
            Ok(code) => emit_upto(views(ls@), st.symbols(), ls@.len()) == Ok::<
                Seq<[u8; 4]>,
                AsmError,
            >(code@),
            Err(e) => emit_upto(views(ls@), st.symbols(), ls@.len()) == Err::<
                Seq<[u8; 4]>,
                AsmError,
            >(e),
        },
{
    let flags = flag_table();
    let mut code: Vec<[u8; 4]> = Vec::new();
    for k in 0..ls.len()
        invariant
            table_view(flags@) == flag_names(),
            emit_upto(views(ls@), st.symbols(), k as nat) == Ok::<Seq<[u8; 4]>, AsmError>(code@),
    {
        assert(views(ls@)[k as int] == ls@[k as int]@);
        match encode_one_line(&ls[k], st, &flags, k) {
            Ok(Some(w)) => {
                code.push(w);
            },
            Ok(None) => {},
            Err(e) => {
                proof {
                    lemma_emit_error_persists(views(ls@), st.symbols(), (k + 1) as nat, ls@.len());
                }
                return Err(e);
            },
        }
    }
    Ok(code)
}

/// Assembles a source text into machine code, as `spec_assemble` describes:
/// `Ok` with the instruction words, or the error of the first line that the
/// first pass, and then the second pass, cannot process.
pub fn assemble(source: &str) -> (r: Result<Vec<[u8; 4]>, AsmError>)
    ensures
        match r {
            Ok(code) => spec_assemble(source@) == Ok::<Seq<[u8; 4]>, AsmError>(code@),
            Err(e) => spec_assemble(source@) == Err::<Seq<[u8; 4]>, AsmError>(e),
        },
{
    let chars = chars_of(source);
    let ls = split_lines(&chars);
    let st = collect_from_lines(&ls)?;
    emit_from_lines(&ls, &st)
}

/// A name table whose numbers are all at most `bound` yields numbers at most
/// `bound`.
pub proof fn lemma_lookup_bounded(m: Seq<(Seq<char>, u8)>, k: Seq<char>, bound: u8)
    requires
        forall|i: int| 0 <= i < m.len() ==> (#[trigger] m[i]).1 <= bound,
    ensures
        lookup(m, k) matches Some(v) ==> v <= bound,
    decreases m.len(),
{
    if m.len() > 0 {
        assert(m.last() == m[m.len() - 1]);
        lemma_lookup_bounded(m.drop_last(), k, bound);
    }
}

/// Once `use` fails on a prefix of its names, it fails with that error.
pub proof fn lemma_declare_error_persists(st: Symbols, names: Seq<Seq<char>>, j: nat, idx: int)
    requires
        j <= names.len(),
        declare_registers(st, names.subrange(0, j as int), idx) is Err,
    ensures
        declare_registers(st, names, idx) == declare_registers(st, names.subrange(0, j as int), idx),
    decreases names.len() - j,
{
    if j < names.len() {
        let next = names.subrange(0, (j + 1) as int);
        assert(next.drop_last() =~= names.subrange(0, j as int));
        lemma_declare_error_persists(st, names, j + 1, idx);
    } else {
        assert(names.subrange(0, j as int) =~= names);
    }
}

/// Once the first pass fails on some line, it fails with that error.
pub proof fn lemma_collect_error_persists(ls: Seq<Seq<char>>, k: nat, m: nat)
    requires
        k <= m,
        collect_upto(ls, k) is Err,
    ensures
        collect_upto(ls, m) == collect_upto(ls, k),
    decreases m - k,
{
    if k < m {
        lemma_collect_error_persists(ls, k, (m - 1) as nat);
    }
}

/// Once the second pass fails on some line, it fails with that error.
pub proof fn lemma_emit_error_persists(ls: Seq<Seq<char>>, st: Symbols, k: nat, m: nat)
    requires
        k <= m,
        emit_upto(ls, st, k) is Err,
    ensures
        emit_upto(ls, st, m) == emit_upto(ls, st, k),
    decreases m - k,
{
    if k < m {
        lemma_emit_error_persists(ls, st, k, (m - 1) as nat);
    }
}


/// The nibble fields the assembler writes for an address or an immediate
/// `n` are read back as `n` by the CPU: as the target of a jump or call, and
/// as the value an `ldi` loads into its register.
pub proof fn lemma_nibble_fields_roundtrip(n: u8, op: u8, x: u8, s: MachineState)
    requires
        x < 11,
        s.registers.len() == 11,
    ensures
        jump_target_fits(word(op, x, lo_nibble(n), hi_nibble(n))),
        jump_target(word(op, x, lo_nibble(n), hi_nibble(n))) == n,
        ldi_value(word(9, x, lo_nibble(n), hi_nibble(n))) == n as u16,
        execute(s, word(9, x, lo_nibble(n), hi_nibble(n))).0.registers[x as int] == n,
{
    let w = word(op, x, lo_nibble(n), hi_nibble(n));
    let lo = n & 0xf;
    let hi = (n >> 4u8) & 0xf;
    assert(lo + (hi << 4u8) == n) by (bit_vector)
        requires
            lo == n & 0xf,
            hi == (n >> 4u8) & 0xf,
    ;
    assert((lo + ((hi as u16) << 4u16)) as u16 == n as u16) by (bit_vector)
        requires
            lo == n & 0xf,
            hi == (n >> 4u8) & 0xf,
    ;
    assert(w@[2] == lo && w@[3] == hi);
}

/// A byte is its low nibble plus sixteen times its high nibble.
proof fn lemma_nibble_split(n: u8)
    ensures
        lo_nibble(n) < 16,
        hi_nibble(n) < 16,
        lo_nibble(n) + 16 * hi_nibble(n) == n,
{
    assert((n & 0xf) < 16 && ((n >> 4u8) & 0xf) < 16 && (n & 0xf) + 16 * ((n >> 4u8) & 0xf) == n)
        by (bit_vector);
}

/// The address a jump word sends the CPU to, read from its two nibble fields.
pub open spec fn nibble_address(w: [u8; 4]) -> int {
    w@[2] + 16 * w@[3]
}

/// What the assembler writes for each jump and immediate: an `if` line
/// (`if flag x label`, or `if not flag x y label`) encodes opcode 12, the
/// flag's number (plus 8 after `not`) and its label's address split into two
/// nibbles, so that the CPU's target is exactly that address; `call` and
/// `goto`/`jmp` do the same with opcode 13 and link field 0 (push a return
/// address) or 8 (push nothing); `ldi` splits its immediate the same way.
pub proof fn lemma_encoded_addresses(t: Seq<Seq<char>>, st: Symbols, idx: int)
    requires
        t.len() > 0,
        encode(t, st, idx) matches Ok(Some(_)),
    ensures
        ({
            let w = encode(t, st, idx)->Ok_0->Some_0;
            match classify(t[0]) {
                Form::If => {
                    let neg = t.len() >= 2 && t[1] == "not"@;
                    let lk: int = if neg { 4 } else { 3 };
                    let fk: int = if neg { 2 } else { 1 };
                    &&& w@[0] == 12
                    &&& lk < t.len()
                    &&& w@[2] < 16 && w@[3] < 16
                    &&& lookup(st.labels, t[lk]) == Some(nibble_address(w) as u8)
                    &&& jump_target_fits(w)
                    &&& jump_target(w) as int == nibble_address(w)
                    &&& lookup(flag_names(), t[fk]) is Some
                    &&& w@[1] == if neg {
                        8 + lookup(flag_names(), t[fk])->Some_0
                    } else {
                        lookup(flag_names(), t[fk])->Some_0 as int
                    }
                },
                Form::Call | Form::Goto => {
                    &&& w@[0] == 13
                    &&& w@[1] == if classify(t[0]) == Form::Call { 0u8 } else { 8u8 }
                    &&& t.len() > 1
                    &&& w@[2] < 16 && w@[3] < 16
                    &&& lookup(st.labels, t[1]) == Some(nibble_address(w) as u8)
                    &&& jump_target_fits(w)
                    &&& jump_target(w) as int == nibble_address(w)
                },
                Form::Ldi => {
                    &&& w@[0] == 9
                    &&& t.len() > 2
                    &&& w@[2] < 16 && w@[3] < 16
                    &&& parse_u8(t[2]) == Some(nibble_address(w) as u8)
                    &&& lookup(st.regs, t[1]) == Some(w@[1])
                    &&& ldi_value(w) as int == nibble_address(w)
                },
                _ => true,
            }
        }),
{
    let w = encode(t, st, idx)->Ok_0->Some_0;
    match classify(t[0]) {
        Form::If => {
            let neg = t.len() >= 2 && t[1] == "not"@;
            let lk: int = if neg { 4 } else { 3 };
            let fk: int = if neg { 2 } else { 1 };
            let n = lookup(st.labels, t[lk])->Some_0;
            lemma_nibble_split(n);
            lemma_lookup_bounded(flag_names(), t[fk], 5);
            lemma_nibble_fields_roundtrip(n, 12, 0, initial_registers_state());
            assert(w@[2] == lo_nibble(n) && w@[3] == hi_nibble(n));
            assert(jump_target(w) == jump_target(word(12, 0, lo_nibble(n), hi_nibble(n))));
        },
        Form::Call | Form::Goto => {
            let n = lookup(st.labels, t[1])->Some_0;
            lemma_nibble_split(n);
            lemma_nibble_fields_roundtrip(n, 13, 0, initial_registers_state());
            assert(w@[2] == lo_nibble(n) && w@[3] == hi_nibble(n));
            assert(jump_target(w) == jump_target(word(13, 0, lo_nibble(n), hi_nibble(n))));
        },
        Form::Ldi => {
            let n = parse_u8(t[2])->Some_0;
            lemma_nibble_split(n);
            lemma_nibble_fields_roundtrip(n, 9, 0, initial_registers_state());
            assert(w@[2] == lo_nibble(n) && w@[3] == hi_nibble(n));
            assert(ldi_value(w) == ldi_value(word(9, 0, lo_nibble(n), hi_nibble(n))));
        },
        _ => {},
    }
}

/// A machine state with a register file of the right size.
spec fn initial_registers_state() -> MachineState {
    crate::emulator::initial_state()
}

/// In a name table the latest entry for a name wins, and entries for other
/// names do not matter.
pub proof fn lemma_lookup_latest_wins(m: Seq<(Seq<char>, u8)>, k: Seq<char>, j: Seq<char>, v: u8)
    ensures
        lookup(m.push((k, v)), k) == Some(v),
        j != k ==> lookup(m.push((k, v)), j) == lookup(m, j),
        lookup(Seq::empty(), k) is None,
{
    assert(m.push((k, v)).drop_last() =~= m);
}

/// The mnemonic table: the shape and opcode each mnemonic assembles to.
pub proof fn lemma_mnemonic_table()
    ensures
        classify("-"@) == Form::Nop,
        classify("noop"@) == Form::Nop,
        classify("add"@) == Form::Alu(0),
        classify("sub"@) == Form::Alu(1),
        classify("addci"@) == Form::Alu(2),
        classify("addco"@) == Form::Alu(3),
        classify("or"@) == Form::Alu(4),
        classify("and"@) == Form::Alu(5),
        classify("xor"@) == Form::Alu(6),
        classify("xnor"@) == Form::Alu(7),
        classify("rshift"@) == Form::Alu(8),
        classify("ldi"@) == Form::Ldi,
        classify("load"@) == Form::Load,
        classify("store"@) == Form::Store,
        classify("if"@) == Form::If,
        classify("call"@) == Form::Call,
        classify("return"@) == Form::Return,
        classify("halt"@) == Form::Halt,
        classify("add="@) == Form::AluAssign(0),
        classify("sub="@) == Form::AluAssign(1),
        classify("addci="@) == Form::AluAssign(2),
        classify("addco="@) == Form::AluAssign(3),
        classify("or="@) == Form::AluAssign(4),
        classify("and="@) == Form::AluAssign(5),
        classify("xor="@) == Form::AluAssign(6),
        classify("xnor="@) == Form::AluAssign(7),
        classify("rshift="@) == Form::ShiftRightAssign,
        classify(">>="@) == Form::ShiftRightAssign,
        classify("lshift="@) == Form::ShiftLeftAssign,
        classify("<<="@) == Form::ShiftLeftAssign,
        classify("mov"@) == Form::Mov,
        classify("cmp"@) == Form::Cmp,
        classify("goto"@) == Form::Goto,
        classify("jmp"@) == Form::Goto,
        classify("inc"@) == Form::Inc,
        classify("check"@) == Form::Check,
{
    reveal_strlit("-");
    assert("-"@ =~= seq!['-']);
    reveal_strlit("noop");
    assert("noop"@ =~= seq!['n', 'o', 'o', 'p']);
    reveal_strlit("add");
    assert("add"@ =~= seq!['a', 'd', 'd']);
    reveal_strlit("sub");
    assert("sub"@ =~= seq!['s', 'u', 'b']);
    reveal_strlit("addci");
    assert("addci"@ =~= seq!['a', 'd', 'd', 'c', 'i']);
    reveal_strlit("addco");
    assert("addco"@ =~= seq!['a', 'd', 'd', 'c', 'o']);
    reveal_strlit("or");
    assert("or"@ =~= seq!['o', 'r']);
    reveal_strlit("and");
    assert("and"@ =~= seq!['a', 'n', 'd']);
    reveal_strlit("xor");
    assert("xor"@ =~= seq!['x', 'o', 'r']);
    reveal_strlit("xnor");
    assert("xnor"@ =~= seq!['x', 'n', 'o', 'r']);
    reveal_strlit("rshift");
    assert("rshift"@ =~= seq!['r', 's', 'h', 'i', 'f', 't']);
    reveal_strlit("ldi");
    assert("ldi"@ =~= seq!['l', 'd', 'i']);
    reveal_strlit("load");
    assert("load"@ =~= seq!['l', 'o', 'a', 'd']);
    reveal_strlit("store");
    assert("store"@ =~= seq!['s', 't', 'o', 'r', 'e']);
    reveal_strlit("if");
    assert("if"@ =~= seq!['i', 'f']);
    reveal_strlit("call");
    assert("call"@ =~= seq!['c', 'a', 'l', 'l']);
    reveal_strlit("return");
    assert("return"@ =~= seq!['r', 'e', 't', 'u', 'r', 'n']);
    reveal_strlit("halt");
    assert("halt"@ =~= seq!['h', 'a', 'l', 't']);
    reveal_strlit("add=");
    assert("add="@ =~= seq!['a', 'd', 'd', '=']);
    reveal_strlit("sub=");
    assert("sub="@ =~= seq!['s', 'u', 'b', '=']);
    reveal_strlit("addci=");
    assert("addci="@ =~= seq!['a', 'd', 'd', 'c', 'i', '=']);
    reveal_strlit("addco=");
    assert("addco="@ =~= seq!['a', 'd', 'd', 'c', 'o', '=']);
    reveal_strlit("or=");
    assert("or="@ =~= seq!['o', 'r', '=']);
    reveal_strlit("and=");
    assert("and="@ =~= seq!['a', 'n', 'd', '=']);
    reveal_strlit("xor=");
    assert("xor="@ =~= seq!['x', 'o', 'r', '=']);
    reveal_strlit("xnor=");
    assert("xnor="@ =~= seq!['x', 'n', 'o', 'r', '=']);
    reveal_strlit("rshift=");
    assert("rshift="@ =~= seq!['r', 's', 'h', 'i', 'f', 't', '=']);
    reveal_strlit(">>=");
    assert(">>="@ =~= seq!['>', '>', '=']);
    reveal_strlit("lshift=");
    assert("lshift="@ =~= seq!['l', 's', 'h', 'i', 'f', 't', '=']);
    reveal_strlit("<<=");
    assert("<<="@ =~= seq!['<', '<', '=']);
    reveal_strlit("mov");
    assert("mov"@ =~= seq!['m', 'o', 'v']);
    reveal_strlit("cmp");
    assert("cmp"@ =~= seq!['c', 'm', 'p']);
    reveal_strlit("goto");
    assert("goto"@ =~= seq!['g', 'o', 't', 'o']);
    reveal_strlit("jmp");
    assert("jmp"@ =~= seq!['j', 'm', 'p']);
    reveal_strlit("inc");
    assert("inc"@ =~= seq!['i', 'n', 'c']);
    reveal_strlit("check");
    assert("check"@ =~= seq!['c', 'h', 'e', 'c', 'k']);
}

/// Assembled arithmetic/logic lines compute what their mnemonics name: for
/// `op d a b` (and `op= d b`, meaning `op d d b`) executed on any state, the
/// register that `d` names gets, from the bytes of the registers that `a` and
/// `b` name (register 0 reading as zero): `add` and `or` the sum, `sub` the
/// difference, `addci` the sum plus one, `addco` the sum plus the carry,
/// `and`, `xor`, `xnor` the bitwise AND, XOR and XNOR, and `rshift` the OR
/// shifted right by one, all modulo 256.
pub proof fn lemma_assembled_alu_semantics(t: Seq<Seq<char>>, st: Symbols, idx: int, s: MachineState)
    requires
        t.len() > 0,
        encode(t, st, idx) matches Ok(Some(w)) && w == s.current(),
        s.well_formed(),
        can_step(s),
        classify(t[0]) matches Form::Alu(_) || classify(t[0]) matches Form::AluAssign(_),
    ensures
        ({
            let assign = classify(t[0]) matches Form::AluAssign(_);
            let d = lookup(st.regs, t[1])->Some_0;
            let a = operand(s, lookup(st.regs, t[if assign { 1int } else { 2int }])->Some_0);
            let b = operand(s, lookup(st.regs, t[if assign { 2int } else { 3int }])->Some_0);
            let r = step(s).0.registers[d as int];
            let cin: int = if s.fl_cout { 1 } else { 0 };
            let m = t[0];
            &&& (m == "add"@ || m == "add="@ || m == "or"@ || m == "or="@) ==> r == (a + b) % 256
            &&& (m == "sub"@ || m == "sub="@) ==> r == (a - b + 256) % 256
            &&& (m == "addci"@ || m == "addci="@) ==> r == (a + b + 1) % 256
            &&& (m == "addco"@ || m == "addco="@) ==> r == (a + b + cin) % 256
            &&& (m == "and"@ || m == "and="@) ==> r == a & b
            &&& (m == "xor"@ || m == "xor="@) ==> r == a ^ b
            &&& (m == "xnor"@ || m == "xnor="@) ==> r == !(a ^ b)
            &&& m == "rshift"@ ==> r == (a | b) >> 1u8
        }),
{
    lemma_mnemonic_table();
    crate::emulator::lemma_alu_semantics(s);
}

/// Assembled control and immediate lines do what they name, executed on any
/// state: `if [not] flag x [y] label` queues a jump to `label` exactly when
/// the named flag (`odd`; `zero`; `cout` or `greater` for the carry) is set,
/// or clear after `not`, while `true` and `input` name no flag (the jump is
/// taken only after `not`); `call label` queues the jump and pushes its own
/// address plus 3; `goto`/`jmp label` queues the jump and pushes nothing;
/// `ldi d n` puts `n` in the register `d` names.
pub proof fn lemma_assembled_control_semantics(t: Seq<Seq<char>>, st: Symbols, idx: int, s: MachineState)
    requires
        t.len() > 0,
        encode(t, st, idx) matches Ok(Some(w)) && w == s.current(),
        s.well_formed(),
        can_step(s),
    ensures
        ({
            let m = t[0];
            let u = step(s).0;
            let neg = t.len() >= 2 && t[1] == "not"@;
            let f = t[if neg { 2int } else { 1int }];
            let lk: int = if neg { 4 } else { 3 };
            let taken = u.jmp_info[0] is Some;
            &&& m == "if"@ ==> (f == "odd"@ ==> taken == (s.fl_odd != neg))
                && (f == "zero"@ ==> taken == (s.fl_zero != neg))
                && ((f == "cout"@ || f == "greater"@) ==> taken == (s.fl_cout != neg))
                && ((f == "true"@ || f == "input"@) ==> taken == neg)
                && (taken ==> Some(u.jmp_info[0]->Some_0) == lookup(st.labels, t[lk]))
            &&& m == "call"@ ==> Some(u.jmp_info[2]->Some_0) == lookup(st.labels, t[1])
                && u.jmp_info[2] is Some && u.call_stack.drop_last() == s.call_stack
                && u.call_stack.len() == s.call_stack.len() + 1 && u.call_stack.last() == s.pc + 3
            &&& (m == "goto"@ || m == "jmp"@) ==> Some(u.jmp_info[2]->Some_0) == lookup(st.labels, t[1])
                && u.jmp_info[2] is Some && u.call_stack == s.call_stack
            &&& m == "ldi"@ ==> Some(u.registers[lookup(st.regs, t[1])->Some_0 as int]) == parse_u8(t[2])
        }),
{
    lemma_mnemonic_table();
    reveal_strlit("odd");
    assert("odd"@ =~= seq!['o', 'd', 'd']);
    reveal_strlit("true");
    assert("true"@ =~= seq!['t', 'r', 'u', 'e']);
    reveal_strlit("zero");
    assert("zero"@ =~= seq!['z', 'e', 'r', 'o']);
    reveal_strlit("input");
    assert("input"@ =~= seq!['i', 'n', 'p', 'u', 't']);
    reveal_strlit("cout");
    assert("cout"@ =~= seq!['c', 'o', 'u', 't']);
    reveal_strlit("greater");
    assert("greater"@ =~= seq!['g', 'r', 'e', 'a', 't', 'e', 'r']);
    reveal_strlit("not");
    assert("not"@ =~= seq!['n', 'o', 't']);
    lemma_encoded_addresses(t, st, idx);
    let w = s.current();
    if w@[0] == 12 {
        crate::emulator::lemma_branch_conditions(s);
        lemma_lookup_bounded(flag_names(), t[if t.len() >= 2 && t[1] == "not"@ { 2int } else { 1int }], 5);
    }
    if w@[0] == 13 {
        crate::emulator::lemma_call_stack_effects(s);
    }
    if w@[0] == 9 {
        crate::emulator::lemma_ldi_semantics(s);
    }
    let m = t[0];
    let u = step(s).0;
    if m == "ldi"@ {
        assert(w@[0] == 9);
        let n = parse_u8(t[2])->Some_0;
        assert(u.registers[w@[1] as int] == (w@[2] + 16 * w@[3]) % 256);
        assert(nibble_address(w) == n);
    }
    if m == "call"@ {
        assert(w@[0] == 13 && w@[1] == 0);
    }
    if m == "goto"@ || m == "jmp"@ {
        assert(w@[0] == 13 && w@[1] == 8);
    }
    if m == "if"@ {
        assert(w@[0] == 12);
        reveal_with_fuel(lookup, 7);
        let neg = t.len() >= 2 && t[1] == "not"@;
        let f = t[if neg { 2int } else { 1int }];
        let fv = lookup(flag_names(), f)->Some_0;
        assert(w@[1] == if neg { fv + 8 } else { fv as int });
        assert(f == "odd"@ ==> fv == 0);
        assert(f == "zero"@ ==> fv == 1);
        assert((f == "cout"@ || f == "greater"@) ==> fv == 3);
        assert((f == "true"@ || f == "input"@) ==> fv == 5);
    }
}

/// Assembled register pseudo-instructions do what they name, executed on
/// any state (with `x` the byte of the register the first operand names,
/// `y` that of the second, register 0 reading as zero): `mov d s` copies
/// `y` into `d`; `inc d` adds one; `lshift= d` doubles; `rshift= d` halves;
/// `cmp a b` sets the carry exactly when `x >= y` and the zero flag exactly
/// when `x == y`; `check r` sets the zero flag exactly when `x == 0`.
pub proof fn lemma_assembled_register_ops(t: Seq<Seq<char>>, st: Symbols, idx: int, s: MachineState)
    requires
        t.len() > 0,
        encode(t, st, idx) matches Ok(Some(w)) && w == s.current(),
        s.well_formed(),
        can_step(s),
    ensures
        ({
            let m = t[0];
            let u = step(s).0;
            let d = lookup(st.regs, t[1])->Some_0;
            let x = operand(s, d);
            let y = operand(s, lookup(st.regs, t[2])->Some_0);
            &&& m == "mov"@ ==> u.registers[d as int] == y
            &&& m == "inc"@ ==> u.registers[d as int] == (x + 1) % 256
            &&& (m == "lshift="@ || m == "<<="@) ==> u.registers[d as int] == (2 * x) % 256
            &&& (m == "rshift="@ || m == ">>="@) ==> u.registers[d as int] == x >> 1u8
            &&& m == "cmp"@ ==> u.fl_cout == (x >= y) && u.fl_zero == (x == y)
            &&& m == "check"@ ==> u.fl_zero == (x == 0) && !u.fl_cout
        }),
{
    lemma_mnemonic_table();
    let w = s.current();
    if w@[0] <= 8 {
        crate::emulator::lemma_alu_semantics(s);
        let x = operand(s, lookup(st.regs, t[1])->Some_0);
        assert((0u8 | x) >> 1u8 == x >> 1u8) by (bit_vector);
    }
}

/// The mnemonic of every counted line is a known instruction: no line is
/// skipped by the second pass after the first pass counted it.
pub open spec fn all_mnemonics_known(ls: Seq<Seq<char>>, k: nat) -> bool {
    forall|i: int|
        0 <= i < k ==> (tokens(#[trigger] ls[i]).len() > 0 && !is_directive(tokens(ls[i])[0]))
            ==> classify(tokens(ls[i])[0]) != Form::Unknown
}

/// `use` leaves the instruction count alone.
proof fn lemma_declare_keeps_count(st: Symbols, names: Seq<Seq<char>>, idx: int)
    ensures
        declare_registers(st, names, idx) matches Ok(s2) ==> s2.n == st.n,
    decreases names.len(),
{
    if names.len() > 0 {
        lemma_declare_keeps_count(st, names.drop_last(), idx);
    }
}

/// An encoded instruction of a known mnemonic is never skipped.
proof fn lemma_known_mnemonic_emits(t: Seq<Seq<char>>, st: Symbols, idx: int)
    requires
        t.len() > 0,
        classify(t[0]) != Form::Unknown,
    ensures
        encode(t, st, idx) matches Ok(w) ==> w is Some,
{
}

/// When every mnemonic is known, the first pass's instruction count after
/// `k` lines is the number of instructions the second pass emits for them;
/// so a label, which takes the count at its definition, is the address of
/// the next instruction emitted. (A line with an unknown mnemonic is counted
/// but emits nothing, so the law needs the premise.)
pub proof fn lemma_label_counts_match_emitted(ls: Seq<Seq<char>>, st: Symbols, k: nat)
    requires
        k <= ls.len(),
        all_mnemonics_known(ls, k),
        collect_upto(ls, k) is Ok,
        emit_upto(ls, st, k) is Ok,
    ensures
        collect_upto(ls, k)->Ok_0.n == emit_upto(ls, st, k)->Ok_0.len(),
    decreases k,
{
    if k > 0 {
        let j = (k - 1) as nat;
        if collect_upto(ls, j) is Err {
            lemma_collect_error_persists(ls, j, k);
        }
        if emit_upto(ls, st, j) is Err {
            lemma_emit_error_persists(ls, st, j, k);
        }
        lemma_label_counts_match_emitted(ls, st, j);
        let line = ls[j as int];
        let t = tokens(line);
        let before = collect_upto(ls, j)->Ok_0;
        if t.len() > 0 && t[0] == "use"@ {
            lemma_declare_keeps_count(before, declared_names(t), j as int);
        }
        if t.len() > 0 && !is_directive(t[0]) {
            assert(all_mnemonics_known(ls, k));
            assert(classify(t[0]) != Form::Unknown);
            lemma_known_mnemonic_emits(t, st, j as int);
        }
    }
}

/// A label defined on line `k` (with the first pass succeeding over all
/// lines) holds the number of instructions the second pass emits before that
/// line, when every mnemonic is known.
pub proof fn lemma_label_addresses_next_instruction(src: Seq<char>, k: nat)
    requires
        k < lines(src).len(),
        all_mnemonics_known(lines(src), lines(src).len()),
        spec_symbols(src) is Ok,
        spec_assemble(src) is Ok,
        tokens(lines(src)[k as int]).len() >= 2,
        tokens(lines(src)[k as int])[0] == "def"@,
    ensures
        collect_upto(lines(src), (k + 1) as nat)->Ok_0.labels.last() == (
            tokens(lines(src)[k as int])[1],
            emit_upto(lines(src), spec_symbols(src)->Ok_0, k)->Ok_0.len() as u8,
        ),
{
    let ls = lines(src);
    let st = spec_symbols(src)->Ok_0;
    if collect_upto(ls, k) is Err {
        lemma_collect_error_persists(ls, k, ls.len());
    }
    if collect_upto(ls, (k + 1) as nat) is Err {
        lemma_collect_error_persists(ls, (k + 1) as nat, ls.len());
    }
    if emit_upto(ls, st, k) is Err {
        lemma_emit_error_persists(ls, st, k, ls.len());
    }
    lemma_label_counts_match_emitted(ls, st, k);
    assert(ls[k as int].len() > 0);
    reveal_strlit("def");
    reveal_strlit("#");
    assert("def"@.len() == 3);
    assert("#"@.len() == 1);
    assert("def"@ != "#"@);
    let before = collect_upto(ls, k)->Ok_0;
    assert(collect_upto(ls, (k + 1) as nat) == scan_line(before, ls[k as int], k as int));
}

} // verus!
