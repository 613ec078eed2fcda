use brumm_cpu::assembler::{assemble, collect_symbols, AsmError};

fn chars(s: &str) -> Vec<char> {
    s.chars().collect()
}

#[test]
fn assembles_a_small_program() {
    let src = "use x y\ndef start\nldi x 200\nadd x x y\nif not zero then start\njmp start\nhalt\n";
    let code = assemble(src).unwrap();
    assert_eq!(
        code,
        vec![[9, 1, 8, 12], [0, 1, 1, 2], [12, 9, 0, 0], [13, 8, 0, 0], [15, 0, 0, 0]]
    );
}

#[test]
fn encodes_every_mnemonic() {
    let src = "def top\n- \nnoop\nadd a b c\nsub a b c\naddci a b c\naddco a b c\nor a b c\nand a b c\nxor a b c\nxnor a b c\nrshift a b c\nldi d 171\nload e\nstore f\nif odd then top\nif not greater then top\ncall top\nreturn\nhalt\nadd= a b\nsub= a b\naddci= a b\naddco= a b\nor= a b\nand= a b\nxor= a b\nxnor= a b\nrshift= g\n>>= g\nlshift= h\n<<= h\nmov i tmp\ncmp tmp tmp2\ngoto top\njmp top\ninc a\ncheck b\n";
    let code = assemble(src).unwrap();
    let expected: Vec<[u8; 4]> = vec![
        [0, 0, 0, 0],
        [0, 0, 0, 0],
        [0, 1, 2, 3],
        [1, 1, 2, 3],
        [2, 1, 2, 3],
        [3, 1, 2, 3],
        [4, 1, 2, 3],
        [5, 1, 2, 3],
        [6, 1, 2, 3],
        [7, 1, 2, 3],
        [8, 1, 2, 3],
        [9, 4, 11, 10],
        [10, 5, 0, 0],
        [11, 0, 6, 0],
        [12, 0, 0, 0],
        [12, 11, 0, 0],
        [13, 0, 0, 0],
        [14, 0, 0, 0],
        [15, 0, 0, 0],
        [0, 1, 1, 2],
        [1, 1, 1, 2],
        [2, 1, 1, 2],
        [3, 1, 1, 2],
        [4, 1, 1, 2],
        [5, 1, 1, 2],
        [6, 1, 1, 2],
        [7, 1, 1, 2],
        [8, 7, 0, 7],
        [8, 7, 0, 7],
        [0, 8, 8, 8],
        [0, 8, 8, 8],
        [0, 9, 0, 10],
        [1, 0, 10, 11],
        [13, 8, 0, 0],
        [13, 8, 0, 0],
        [2, 1, 0, 1],
        [0, 0, 0, 2],
    ];
    assert_eq!(code, expected);
}

#[test]
fn condition_names_map_to_flag_numbers() {
    let src = "def l\nif odd -> l\nif true -> l\nif zero -> l\nif input -> l\nif cout -> l\nif greater -> l\nif not odd -> l\n";
    let code = assemble(src).unwrap();
    let fields: Vec<u8> = code.iter().map(|w| w[1]).collect();
    assert_eq!(fields, vec![0, 5, 1, 5, 3, 3, 8]);
}

#[test]
fn labels_split_into_nibbles() {
    let mut src = String::new();
    for _ in 0..40 {
        src.push_str("noop\n");
    }
    src.push_str("def far\ncall far\n");
    let code = assemble(&src).unwrap();
    assert_eq!(code[40], [13, 0, 40 & 0xf, 40 >> 4]);
}

#[test]
fn later_definitions_win() {
    let code = assemble("def l\nnoop\ndef l\njmp l\nuse b\nmov b a\n").unwrap();
    assert_eq!(code, vec![[0, 0, 0, 0], [13, 8, 1, 0], [0, 1, 0, 1]]);
}

#[test]
fn use_declares_at_most_eight_names_per_line() {
    let r = assemble("use p q r s t u v w extra\nmov w a\nmov extra a\n");
    assert_eq!(r, Err(AsmError::UnknownRegister(2)));
    let code = assemble("use p q r s t u v w extra\nmov w a\n").unwrap();
    assert_eq!(code, vec![[0, 8, 0, 1]]);
}

#[test]
fn register_numbers_continue_across_use_lines() {
    let code = assemble("use p\nuse q\nmov q p\n").unwrap();
    assert_eq!(code, vec![[0, 2, 0, 1]]);
}

#[test]
fn comments_blank_lines_and_crlf() {
    let code = assemble("# a comment\r\n\r\nhalt\r\n\nreturn").unwrap();
    assert_eq!(code, vec![[15, 0, 0, 0], [14, 0, 0, 0]]);
}

#[test]
fn unknown_mnemonics_are_counted_but_not_emitted() {
    // `#x` is not the comment marker: the first pass counts it, the second skips it.
    let code = assemble("#x\ndef l\nhalt\njmp l\n").unwrap();
    assert_eq!(code, vec![[15, 0, 0, 0], [13, 8, 1, 0]]);
}

#[test]
fn unicode_whitespace_separates_tokens() {
    let code = assemble("add\u{3000}a\u{a0}b\tc").unwrap();
    assert_eq!(code, vec![[0, 1, 2, 3]]);
}

#[test]
fn immediates_accept_plus_sign() {
    assert_eq!(assemble("ldi a +7").unwrap(), vec![[9, 1, 7, 0]]);
    assert_eq!(assemble("ldi a 007").unwrap(), vec![[9, 1, 7, 0]]);
    assert_eq!(assemble("ldi a 255").unwrap(), vec![[9, 1, 15, 15]]);
}

#[test]
fn error_blank_line() {
    assert_eq!(assemble("halt\n   \nhalt"), Err(AsmError::BlankLine(1)));
}

#[test]
fn bare_carriage_return_at_end_is_a_blank_line() {
    assert_eq!(assemble("halt\n\r"), Err(AsmError::BlankLine(1)));
}

#[test]
fn error_missing_operand() {
    assert_eq!(assemble("add a b"), Err(AsmError::MissingOperand(0)));
    assert_eq!(assemble("halt\ndef"), Err(AsmError::MissingOperand(1)));
    assert_eq!(assemble("if"), Err(AsmError::MissingOperand(0)));
    assert_eq!(assemble("ldi a"), Err(AsmError::MissingOperand(0)));
}

#[test]
fn error_unknown_register() {
    assert_eq!(assemble("add a b zz"), Err(AsmError::UnknownRegister(0)));
}

#[test]
fn error_unknown_flag() {
    assert_eq!(assemble("def l\nif nope then l"), Err(AsmError::UnknownFlag(1)));
    // the label operand sits in the fourth (or, after `not`, fifth) place
    assert_eq!(assemble("def l\nif zero l"), Err(AsmError::MissingOperand(1)));
}

#[test]
fn error_unknown_label() {
    assert_eq!(assemble("jmp nowhere"), Err(AsmError::UnknownLabel(0)));
    // the label is looked up before the flag
    assert_eq!(assemble("if not nope then nowhere"), Err(AsmError::UnknownLabel(0)));
}

#[test]
fn error_bad_number() {
    assert_eq!(assemble("ldi a 256"), Err(AsmError::BadNumber(0)));
    assert_eq!(assemble("ldi a -1"), Err(AsmError::BadNumber(0)));
    assert_eq!(assemble("ldi a +"), Err(AsmError::BadNumber(0)));
    // the immediate is read before the register
    assert_eq!(assemble("ldi zz 300"), Err(AsmError::BadNumber(0)));
    assert_eq!(assemble("ldi zz 3"), Err(AsmError::UnknownRegister(0)));
}

#[test]
fn error_too_many_instructions() {
    let mut src = String::new();
    for _ in 0..256 {
        src.push_str("noop\n");
    }
    assert_eq!(assemble(&src), Err(AsmError::TooManyInstructions(255)));
    let mut ok = String::new();
    for _ in 0..255 {
        ok.push_str("noop\n");
    }
    assert_eq!(assemble(&ok).unwrap().len(), 255);
}

#[test]
fn error_too_many_registers() {
    let mut src = String::new();
    for line in 0..32 {
        src.push_str("use");
        for k in 0..8 {
            src.push_str(&format!(" r{}_{}", line, k));
        }
        src.push('\n');
    }
    assert_eq!(assemble(&src), Err(AsmError::TooManyRegisters(31)));
}

#[test]
fn first_pass_errors_come_first() {
    assert_eq!(assemble("jmp nowhere\n  \n"), Err(AsmError::BlankLine(1)));
}

#[test]
fn symbols_of_a_source() {
    let st = collect_symbols("use x y\ndef start\nnoop\ndef end\n# note\nhalt").unwrap();
    assert_eq!(st.n, 2);
    assert_eq!(st.reg_n, 3);
    assert_eq!(st.register(&chars("x")), Some(1));
    assert_eq!(st.register(&chars("y")), Some(2));
    assert_eq!(st.register(&chars("tmp2")), Some(11));
    assert_eq!(st.register(&chars("z")), None);
    assert_eq!(st.label(&chars("start")), Some(0));
    assert_eq!(st.label(&chars("end")), Some(1));
    assert_eq!(st.labels.len(), 2);
    assert_eq!(st.regs.len(), 14);
}

#[test]
fn label_law_labels_address_next_instruction() {
    let src = "noop\ndef a\nadd a b c\nuse q\ndef b\nhalt\nhalt\ndef c\njmp a\njmp b\njmp c\n";
    let code = assemble(src).unwrap();
    assert_eq!(code[4], [13, 8, 1, 0]);
    assert_eq!(code[5], [13, 8, 2, 0]);
    assert_eq!(code[6], [13, 8, 4, 0]);
    assert_eq!(code[1], [0, 1, 2, 3]);
    assert_eq!(code[2], [15, 0, 0, 0]);
}
