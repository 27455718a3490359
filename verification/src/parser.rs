use vstd::prelude::*;

use crate::opcode::Opcode;
use crate::program::Program;

verus! {

/// The lexical state of the tokenizer: nesting depth of the two bracket
/// kinds, the 1-based position of the next character, and whether the
/// previous character was a digit.
pub ghost struct ParserState {
    pub brackets: nat,
    pub braces: nat,
    pub line: nat,
    pub col: nat,
    pub was_digit: bool,
}

/// Where and why tokenizing failed: the 1-based position of the offending
/// character, and whether it was a procedure-end (`}`) rather than a
/// loop-exit (`]`) marker.
pub ghost struct SpecParseError {
    pub line: nat,
    pub col: nat,
    pub proc_marker: bool,
}

/// The outcome of tokenizing one character.
#[verifier::ext_equal]
pub ghost struct TokStep {
    pub st: ParserState,
    pub tok: Result<Option<Opcode>, SpecParseError>,
}

/// The outcome of tokenizing a character sequence: the state afterwards,
/// and the emitted instructions or the first failure.
#[verifier::ext_equal]
pub ghost struct TokRun {
    pub st: ParserState,
    pub out: Result<Seq<Opcode>, SpecParseError>,
}

/// The state of a freshly constructed tokenizer.
pub open spec fn parser_init() -> ParserState {
    ParserState { brackets: 0, braces: 0, line: 1, col: 1, was_digit: false }
}

pub open spec fn is_digit_char(c: char) -> bool {
    c == '0' || c == '1' || c == '2' || c == '3' || c == '4' || c == '5' || c == '6' || c == '7'
        || c == '8' || c == '9'
}

pub open spec fn digit_of_char(c: char) -> i32 {
    if c == '0' {
        0
    } else if c == '1' {
        1
    } else if c == '2' {
        2
    } else if c == '3' {
        3
    } else if c == '4' {
        4
    } else if c == '5' {
        5
    } else if c == '6' {
        6
    } else if c == '7' {
        7
    } else if c == '8' {
        8
    } else {
        9
    }
}

/// The push instruction for digit `d`.
pub open spec fn digit_push_op(d: i32) -> Opcode {
    if d == 0 {
        Opcode::Push0
    } else if d == 1 {
        Opcode::Push1
    } else if d == 2 {
        Opcode::Push2
    } else if d == 3 {
        Opcode::Push3
    } else if d == 4 {
        Opcode::Push4
    } else if d == 5 {
        Opcode::Push5
    } else if d == 6 {
        Opcode::Push6
    } else if d == 7 {
        Opcode::Push7
    } else if d == 8 {
        Opcode::Push8
    } else {
        Opcode::Push9
    }
}

/// The fold instruction for digit `d`.
pub open spec fn digit_fold_op(d: i32) -> Opcode {
    if d == 0 {
        Opcode::Fold0
    } else if d == 1 {
        Opcode::Fold1
    } else if d == 2 {
        Opcode::Fold2
    } else if d == 3 {
        Opcode::Fold3
    } else if d == 4 {
        Opcode::Fold4
    } else if d == 5 {
        Opcode::Fold5
    } else if d == 6 {
        Opcode::Fold6
    } else if d == 7 {
        Opcode::Fold7
    } else if d == 8 {
        Opcode::Fold8
    } else {
        Opcode::Fold9
    }
}

/// The instruction for a character that needs no lexical state, or None for
/// one that is ignored.
pub open spec fn simple_token(c: char) -> Option<Opcode> {
    if c == '+' {
        Some(Opcode::Add)
    } else if c == '*' {
        Some(Opcode::Mul)
    } else if c == '/' {
        Some(Opcode::Div)
    } else if c == '%' {
        Some(Opcode::Rem)
    } else if c == '=' {
        Some(Opcode::Eq)
    } else if c == '>' {
        Some(Opcode::Gt)
    } else if c == '<' {
        Some(Opcode::Lt)
    } else if c == '~' {
        Some(Opcode::BitNot)
    } else if c == '&' {
        Some(Opcode::BitAnd)
    } else if c == '^' {
        Some(Opcode::BitXor)
    } else if c == '|' {
        Some(Opcode::BitOr)
    } else if c == '\u{AB}' {
        Some(Opcode::BitShl)
    } else if c == '\u{BB}' {
        Some(Opcode::BitShr)
    } else if c == '.' {
        Some(Opcode::Pop)
    } else if c == '_' {
        Some(Opcode::Dup)
    } else if c == ',' {
        Some(Opcode::Swap)
    } else if c == '?' {
        Some(Opcode::Ask)
    } else if c == '!' {
        Some(Opcode::Say)
    } else if c == '\u{A1}' {
        Some(Opcode::Print)
    } else if c == '@' {
        Some(Opcode::Call)
    } else if c == '$' {
        Some(Opcode::Ret)
    } else if c == '\u{A7}' {
        Some(Opcode::Halt)
    } else {
        None
    }
}

/// The state after any non-newline character: the column advances and the
/// digit flag drops.
pub open spec fn advanced(ps: ParserState) -> ParserState {
    ParserState { col: ps.col + 1, was_digit: false, ..ps }
}

/// What one character does to the tokenizer: the new state, and the
/// instruction emitted, nothing, or a failure.
pub open spec fn tok_spec(ps: ParserState, c: char) -> TokStep {
    if c == '\n' {
        TokStep {
            st: ParserState { line: ps.line + 1, col: 1, was_digit: false, ..ps },
            tok: Ok(None),
        }
    } else if is_digit_char(c) {
        let d = digit_of_char(c);
        TokStep {
            st: ParserState { col: ps.col + 1, was_digit: true, ..ps },
            tok: Ok(
                Some(
                    if ps.was_digit {
                        digit_fold_op(d)
                    } else {
                        digit_push_op(d)
                    },
                ),
            ),
        }
    } else if c == '-' {
        TokStep {
            st: advanced(ps),
            tok: Ok(
                Some(
                    if ps.was_digit {
                        Opcode::Neg
                    } else {
                        Opcode::Sub
                    },
                ),
            ),
        }
    } else if c == '[' {
        TokStep {
            st: ParserState { brackets: ps.brackets + 1, ..advanced(ps) },
            tok: Ok(Some(Opcode::While)),
        }
    } else if c == ']' {
        if ps.brackets > 0 {
            TokStep {
                st: ParserState { brackets: (ps.brackets - 1) as nat, ..advanced(ps) },
                tok: Ok(Some(Opcode::Until)),
            }
        } else {
            TokStep {
                st: advanced(ps),
                tok: Err(SpecParseError { line: ps.line, col: ps.col, proc_marker: false }),
            }
        }
    } else if c == '{' {
        TokStep {
            st: ParserState { braces: ps.braces + 1, ..advanced(ps) },
            tok: Ok(Some(Opcode::Let)),
        }
    } else if c == '}' {
        if ps.braces > 0 {
            TokStep {
                st: ParserState { braces: (ps.braces - 1) as nat, ..advanced(ps) },
                tok: Ok(Some(Opcode::End)),
            }
        } else {
            TokStep {
                st: advanced(ps),
                tok: Err(SpecParseError { line: ps.line, col: ps.col, proc_marker: true }),
            }
        }
    } else {
        TokStep { st: advanced(ps), tok: Ok(simple_token(c)) }
    }
}

/// No counter grows by more than one per character.
pub proof fn lemma_tok_spec_counters(ps: ParserState, c: char)
    ensures
        tok_spec(ps, c).st.line <= ps.line + 1,
        tok_spec(ps, c).st.col <= ps.col + 1,
        tok_spec(ps, c).st.brackets <= ps.brackets + 1,
        tok_spec(ps, c).st.braces <= ps.braces + 1,
{
}

/// Tokenizing a whole character sequence: instructions of all characters in
/// order, stopping at the first failure.
pub open spec fn tok_run(ps: ParserState, cs: Seq<char>) -> TokRun
    decreases cs.len(),
{
    if cs.len() == 0 {
        TokRun { st: ps, out: Ok(Seq::empty()) }
    } else {
        let first = tok_spec(ps, cs[0]);
        match first.tok {
            Err(e) => TokRun { st: first.st, out: Err(e) },
            Ok(t) => {
                let rest = tok_run(first.st, cs.skip(1));
                match rest.out {
                    Err(e2) => TokRun { st: rest.st, out: Err(e2) },
                    Ok(ops) => TokRun {
                        st: rest.st,
                        out: Ok(
                            match t {
                                Some(x) => seq![x] + ops,
                                None => ops,
                            },
                        ),
                    },
                }
            },
        }
    }
}

/// The message carried by a tokenizer failure of each kind.
pub open spec fn mismatch_message(proc_marker: bool) -> Seq<char> {
    if proc_marker {
        "mismatched `}`"@
    } else {
        "mismatched `]`"@
    }
}

/// A tokenize failure: the 1-based line and column of the offending
/// character and what was wrong with it.
#[derive(Debug)]
pub struct ParseError {
    pub line: usize,
    pub col: usize,
    pub message: &'static str,
}

/// Relies on format!: renders the position and the message as one line of
/// text.
#[verifier::external_body]
fn render_message(line: usize, col: usize, message: &str) -> (r: String) {
    format!("At '{}:{}': {}", line, col, message)
}

impl ParseError {
    fn new(line: usize, col: usize, message: &'static str) -> (e: ParseError)
        ensures
            e.line == line,
            e.col == col,
            e.message@ == message@,
    {
        ParseError { line, col, message }
    }

    /// The failure rendered as one line of text.
    pub fn into_inner(self) -> String {
        render_message(self.line, self.col, self.message)
    }
}

/// The tokenizer: consumes characters one at a time and emits at most one
/// instruction per character.
pub struct Parser {
    brackets: usize,
    braces: usize,
    line: usize,
    col: usize,
    was_digit: bool,
}

impl View for Parser {
    type V = ParserState;

    closed spec fn view(&self) -> ParserState {
        ParserState {
            brackets: self.brackets as nat,
            braces: self.braces as nat,
            line: self.line as nat,
            col: self.col as nat,
            was_digit: self.was_digit,
        }
    }
}

impl Parser {
    pub fn new() -> (r: Parser)
        ensures
            r@ == parser_init(),
    {
        let p = Parser { brackets: 0, braces: 0, line: 1, col: 1, was_digit: false };
        proof {
            assert(p@ =~= parser_init());
        }
        p
    }

    /// Tokenizes one character: exactly the transition `tok_spec` describes.
    pub fn step(&mut self, c: char) -> (r: Result<Option<Opcode>, ParseError>)
        requires
            old(self)@.line < usize::MAX,
            old(self)@.col < usize::MAX,
            old(self)@.brackets < usize::MAX,
            old(self)@.braces < usize::MAX,
        ensures
            final(self)@ == tok_spec(old(self)@, c).st,
            match (r, tok_spec(old(self)@, c).tok) {
                (Ok(t), Ok(ts)) => t == ts,
                (Err(e), Err(es)) => e.line == es.line && e.col == es.col && e.message@
                    == mismatch_message(es.proc_marker),
                _ => false,
            },
    {
        let was_digit = self.was_digit;
        self.was_digit = false;
        let r: Result<Option<Opcode>, ParseError> = match c {
            '\n' => {
                self.line = self.line + 1;
                self.col = 0;
                Ok(None)
            },
            '0' => { self.was_digit = true; Ok(Some(if was_digit { Opcode::Fold0 } else { Opcode::Push0 })) },
            '1' => { self.was_digit = true; Ok(Some(if was_digit { Opcode::Fold1 } else { Opcode::Push1 })) },
            '2' => { self.was_digit = true; Ok(Some(if was_digit { Opcode::Fold2 } else { Opcode::Push2 })) },
            '3' => { self.was_digit = true; Ok(Some(if was_digit { Opcode::Fold3 } else { Opcode::Push3 })) },
            '4' => { self.was_digit = true; Ok(Some(if was_digit { Opcode::Fold4 } else { Opcode::Push4 })) },
            '5' => { self.was_digit = true; Ok(Some(if was_digit { Opcode::Fold5 } else { Opcode::Push5 })) },
            '6' => { self.was_digit = true; Ok(Some(if was_digit { Opcode::Fold6 } else { Opcode::Push6 })) },
            '7' => { self.was_digit = true; Ok(Some(if was_digit { Opcode::Fold7 } else { Opcode::Push7 })) },
            '8' => { self.was_digit = true; Ok(Some(if was_digit { Opcode::Fold8 } else { Opcode::Push8 })) },
            '9' => { self.was_digit = true; Ok(Some(if was_digit { Opcode::Fold9 } else { Opcode::Push9 })) },
            '-' => Ok(Some(if was_digit { Opcode::Neg } else { Opcode::Sub })),
            '+' => Ok(Some(Opcode::Add)),
            '*' => Ok(Some(Opcode::Mul)),
            '/' => Ok(Some(Opcode::Div)),
            '%' => Ok(Some(Opcode::Rem)),
            '=' => Ok(Some(Opcode::Eq)),
            '>' => Ok(Some(Opcode::Gt)),
            '<' => Ok(Some(Opcode::Lt)),
            '~' => Ok(Some(Opcode::BitNot)),
            '&' => Ok(Some(Opcode::BitAnd)),
            '^' => Ok(Some(Opcode::BitXor)),
            '|' => Ok(Some(Opcode::BitOr)),
            '\u{AB}' => Ok(Some(Opcode::BitShl)),
            '\u{BB}' => Ok(Some(Opcode::BitShr)),
            '.' => Ok(Some(Opcode::Pop)),
            '_' => Ok(Some(Opcode::Dup)),
            ',' => Ok(Some(Opcode::Swap)),
            '?' => Ok(Some(Opcode::Ask)),
            '!' => Ok(Some(Opcode::Say)),
            '\u{A1}' => Ok(Some(Opcode::Print)),
            '[' => {
                self.brackets = self.brackets + 1;
                Ok(Some(Opcode::While))
            },
            ']' => {
                if self.brackets > 0 {
                    self.brackets = self.brackets - 1;
                    Ok(Some(Opcode::Until))
                } else {
                    Err(ParseError::new(self.line, self.col, "mismatched `]`"))
                }
            },
            '{' => {
                self.braces = self.braces + 1;
                Ok(Some(Opcode::Let))
            },
            '}' => {
                if self.braces > 0 {
                    self.braces = self.braces - 1;
                    Ok(Some(Opcode::End))
                } else {
                    Err(ParseError::new(self.line, self.col, "mismatched `}`"))
                }
            },
            '@' => Ok(Some(Opcode::Call)),
            '$' => Ok(Some(Opcode::Ret)),
            '\u{A7}' => Ok(Some(Opcode::Halt)),
            _ => Ok(None),
        };
        self.col = self.col + 1;
        proof {
            assert(self@ =~= tok_spec(old(self)@, c).st);
        }
        r
    }

    /// Tokenizes a whole character sequence into a program, stopping at the
    /// first failure; instructions gathered before a failure are discarded.
    pub fn parse(&mut self, stream: &Vec<char>) -> (r: Result<Program, ParseError>)
        requires
            old(self)@.line + stream@.len() <= usize::MAX,
            old(self)@.col + stream@.len() <= usize::MAX,
            old(self)@.brackets + stream@.len() <= usize::MAX,
            old(self)@.braces + stream@.len() <= usize::MAX,
        ensures
            final(self)@ == tok_run(old(self)@, stream@).st,
            match (r, tok_run(old(self)@, stream@).out) {
                (Ok(p), Ok(ops)) => p@ == ops,
                (Err(e), Err(es)) => e.line == es.line && e.col == es.col && e.message@
                    == mismatch_message(es.proc_marker),
                _ => false,
            },
    {
        let mut program = Program::new();
        let mut i: usize = 0;
        proof {
            assert(stream@.skip(0) =~= stream@);
        }
        while i < stream.len()
            invariant
                i <= stream@.len(),
                self@.line + (stream@.len() - i) <= usize::MAX,
                self@.col + (stream@.len() - i) <= usize::MAX,
                self@.brackets + (stream@.len() - i) <= usize::MAX,
                self@.braces + (stream@.len() - i) <= usize::MAX,
                tok_run(old(self)@, stream@).st == tok_run(self@, stream@.skip(i as int)).st,
                match (tok_run(old(self)@, stream@).out, tok_run(self@, stream@.skip(i as int)).out) {
                    (Ok(whole), Ok(rest)) => whole == program@ + rest,
                    (Err(e1), Err(e2)) => e1 == e2,
                    _ => false,
                },
            decreases stream@.len() - i,
        {
            let ghost pre = self@;
            let ghost rest_pre = stream@.skip(i as int);
            let c = stream[i];
            proof {
                assert(rest_pre[0] == c);
                assert(rest_pre.skip(1) =~= stream@.skip(i + 1));
                lemma_tok_spec_counters(pre, c);
            }
            match self.step(c) {
                Ok(Some(op)) => {
                    let ghost prog_pre = program@;
                    program.push(op);
                    proof {
                        let rest_now = stream@.skip(i + 1);
                        if tok_run(self@, rest_now).out is Ok {
                            let tail = tok_run(self@, rest_now).out->Ok_0;
                            assert(program@ + tail =~= prog_pre + (seq![op] + tail));
                        }
                    }
                },
                Ok(None) => {
                },
                Err(e) => {
                    return Err(e);
                },
            }
            i = i + 1;
        }
        proof {
            assert(stream@.skip(i as int) =~= Seq::<char>::empty());
            assert(tok_run(self@, stream@.skip(i as int)).out == Ok::<
                Seq<Opcode>,
                SpecParseError,
            >(Seq::<Opcode>::empty()));
            if tok_run(old(self)@, stream@).out is Ok {
                assert(program@ + Seq::<Opcode>::empty() =~= program@);
            }
        }
        Ok(program)
    }
}

/// Tokenizes one character stream with a fresh tokenizer.
pub fn parse(stream: &Vec<char>) -> (r: Result<Program, ParseError>)
    requires
        stream@.len() < usize::MAX,
    ensures
        match (r, tok_run(parser_init(), stream@).out) {
            (Ok(p), Ok(ops)) => p@ == ops,
            (Err(e), Err(es)) => e.line == es.line && e.col == es.col && e.message@
                == mismatch_message(es.proc_marker),
            _ => false,
        },
{
    let mut p = Parser::new();
    p.parse(stream)
}

} // verus!
