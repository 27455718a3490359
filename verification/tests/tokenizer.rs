use forte::opcode::Opcode;
use forte::parser::parse;
use forte::parser::Parser;

fn parse_ops(source: &str) -> Vec<Opcode> {
    let chars: Vec<char> = source.chars().collect();
    parse(&chars).expect("source should tokenize").into_inner()
}

#[test]
fn digit_runs_become_push_then_folds() {
    assert_eq!(parse_ops("12"), vec![Opcode::Push1, Opcode::Fold2]);
    assert_eq!(parse_ops("105"), vec![Opcode::Push1, Opcode::Fold0, Opcode::Fold5]);
}

#[test]
fn separated_digits_are_separate_pushes() {
    assert_eq!(parse_ops("1 2"), vec![Opcode::Push1, Opcode::Push2]);
}

#[test]
fn newline_separates_digits() {
    assert_eq!(parse_ops("1\n2"), vec![Opcode::Push1, Opcode::Push2]);
}

#[test]
fn minus_after_digit_is_negate_otherwise_subtract() {
    assert_eq!(parse_ops("1-"), vec![Opcode::Push1, Opcode::Neg]);
    assert_eq!(parse_ops("-"), vec![Opcode::Sub]);
    assert_eq!(parse_ops("1 -"), vec![Opcode::Push1, Opcode::Sub]);
}

#[test]
fn one_character_one_instruction() {
    assert_eq!(
        parse_ops("+*/%=><~&^|\u{AB}\u{BB}._,?!\u{A1}@$\u{A7}"),
        vec![
            Opcode::Add,
            Opcode::Mul,
            Opcode::Div,
            Opcode::Rem,
            Opcode::Eq,
            Opcode::Gt,
            Opcode::Lt,
            Opcode::BitNot,
            Opcode::BitAnd,
            Opcode::BitXor,
            Opcode::BitOr,
            Opcode::BitShl,
            Opcode::BitShr,
            Opcode::Pop,
            Opcode::Dup,
            Opcode::Swap,
            Opcode::Ask,
            Opcode::Say,
            Opcode::Print,
            Opcode::Call,
            Opcode::Ret,
            Opcode::Halt,
        ]
    );
}

#[test]
fn brackets_and_braces_emit_markers() {
    assert_eq!(parse_ops("[]"), vec![Opcode::While, Opcode::Until]);
    assert_eq!(parse_ops("{}"), vec![Opcode::Let, Opcode::End]);
    assert_eq!(
        parse_ops("[[]]"),
        vec![Opcode::While, Opcode::While, Opcode::Until, Opcode::Until]
    );
}

#[test]
fn unknown_characters_are_ignored() {
    assert_eq!(parse_ops("ab c#"), Vec::<Opcode>::new());
}

#[test]
fn mismatched_loop_closer_fails_with_position() {
    let chars: Vec<char> = "]".chars().collect();
    let e = parse(&chars).err().expect("a lone `]` must not tokenize");
    assert_eq!(e.line, 1);
    assert_eq!(e.col, 1);
    assert_eq!(e.message, "mismatched `]`");
    assert_eq!(e.into_inner(), "At '1:1': mismatched `]`");
}

#[test]
fn mismatched_procedure_closer_fails_with_position() {
    let chars: Vec<char> = "}".chars().collect();
    let e = parse(&chars).err().expect("a lone `}` must not tokenize");
    assert_eq!(e.line, 1);
    assert_eq!(e.col, 1);
    assert_eq!(e.message, "mismatched `}`");
}

#[test]
fn error_position_counts_lines_and_columns() {
    let chars: Vec<char> = "12\n34]x".chars().collect();
    let e = parse(&chars).err().expect("the `]` must not tokenize");
    assert_eq!(e.line, 2);
    assert_eq!(e.col, 3);
}

#[test]
fn closer_matching_an_opener_from_an_earlier_call_is_accepted() {
    let mut parser = Parser::new();
    let opening: Vec<char> = "[".chars().collect();
    let closing: Vec<char> = "]".chars().collect();
    let first = parser.parse(&opening).expect("the opener tokenizes");
    assert_eq!(first.into_inner(), vec![Opcode::While]);
    let second = parser.parse(&closing).expect("the closer matches across calls");
    assert_eq!(second.into_inner(), vec![Opcode::Until]);
}

#[test]
fn step_emits_at_most_one_instruction() {
    let mut parser = Parser::new();
    assert_eq!(parser.step('1').unwrap(), Some(Opcode::Push1));
    assert_eq!(parser.step('2').unwrap(), Some(Opcode::Fold2));
    assert_eq!(parser.step(' ').unwrap(), None);
    assert_eq!(parser.step('2').unwrap(), Some(Opcode::Push2));
}
