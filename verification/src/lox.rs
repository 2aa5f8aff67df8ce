//! The front of the interpreter: from a source text to its effects.

use crate::grammar::program;
use crate::interpreter::{lines_view, unit_result, Interpreter, LoxResult, ReturnStatus, Signal};
use crate::lox_error::{LoxError, LoxErrorView};
use crate::object::{value_text, Object, Value};
use crate::parser::Parser;
use crate::resolver::{resolve_stmts, FunctionType, Resolution, Resolver};
use crate::safety::{
    adds_no_binding_error, fit, lemma_fit_when_clock_set, lemma_initial_is_fit,
    lemma_run_stays_fit,
};
use crate::scanner::{Scanner, Scanning};
use crate::semantics::{eval, interpret, State};
use crate::statement::{stmts_view, Statement, StmtView};
use vstd::prelude::*;
use vstd::string::StrSliceExecFns;

verus! {

/// An interpreter with what a host needs around it: whether a source text
/// failed to parse or to resolve, whether a program failed while it ran,
/// and the errors met so far, in the order in which they were met.
pub struct Lox {
    pub had_error: bool,
    pub had_runtime_error: bool,
    pub interpreter: Interpreter,
    pub errors: Vec<LoxError>,
    pub next_id: usize,
}

/// The mathematical value of a [`Lox`].
pub struct LoxView {
    pub had_error: bool,
    pub had_runtime_error: bool,
    pub interpreter: State,
    pub errors: Seq<LoxErrorView>,
    pub next_id: usize,
}

/// The views of the errors of a list, in order.
pub open spec fn errors_view(list: Seq<LoxError>) -> Seq<LoxErrorView> {
    Seq::new(list.len(), |i: int| list[i]@)
}

/// The errors that stand for what the scanner could not read.
pub open spec fn scan_errors(messages: Seq<Seq<char>>) -> Seq<LoxErrorView> {
    Seq::new(messages.len(), |i: int| LoxErrorView::RuntimeError(messages[i]))
}

/// The message for a source text that is too long for the machine.
pub open spec fn msg_source_too_long() -> Seq<char> {
    "Source too long."@
}

/// The message for a source text whose nodes cannot all be numbered.
pub open spec fn msg_too_many_nodes() -> Seq<char> {
    "Too many nodes."@
}

/// The tokens of a source text.
pub open spec fn scan(source: Seq<char>) -> Scanning {
    (Scanning {
        source,
        tokens: Seq::empty(),
        start: 0,
        current: 0,
        line: 1,
        errors: Seq::empty(),
    }).scan_tokens()
}

impl LoxView {
    /// The state after the error `e` was met before the run.
    pub open spec fn fail(self, e: LoxErrorView) -> LoxView {
        LoxView { had_error: true, errors: self.errors.push(e), ..self }
    }

    /// The state after a signal ended a run: an error is noted behind those
    /// met before.
    pub open spec fn fail_at_runtime(self, signal: Signal) -> LoxView {
        LoxView {
            had_runtime_error: true,
            errors: match signal {
                Signal::Error(e) => self.errors.push(e),
                _ => self.errors,
            },
            ..self
        }
    }

    /// The state with another state of the interpreter.
    pub open spec fn with_interpreter(self, interpreter: State) -> LoxView {
        LoxView { interpreter, ..self }
    }

    /// The state after a program was resolved, and whether that failed.
    pub open spec fn resolve(self, statements: Seq<StmtView>) -> (LoxView, Result<(), Signal>) {
        let (resolved, done) = resolve_stmts(
            Resolution {
                interpreter: self.interpreter,
                scopes: Seq::empty(),
                current_function: FunctionType::TopLevel,
                globals: Map::empty(),
            },
            statements,
        );
        (self.with_interpreter(resolved.interpreter), done)
    }

    /// The state after a resolved program ran.
    ///
    /// A program that is one bare expression is evaluated and the text of
    /// its value printed. Any other program is run statement by statement.
    pub open spec fn run_statements(self, depth: nat, statements: Seq<StmtView>) -> LoxView {
        if statements.len() == 1 && statements[0] is Expression {
            let (s, r) = eval(depth, self.interpreter, statements[0]->Expression_expression);
            match r {
                Ok(v) => self.with_interpreter(s.print(value_text(v))),
                Err(x) => self.with_interpreter(s).fail_at_runtime(x),
            }
        } else {
            let (s, r) = interpret(depth, self.interpreter, statements);
            match r {
                Ok(_) => self.with_interpreter(s),
                Err(x) => self.with_interpreter(s).fail_at_runtime(x),
            }
        }
    }

    /// The state after a source text was scanned, parsed, resolved and run.
    ///
    /// What the scanner could not read is noted as errors, and the rest is
    /// parsed. A text that fails to parse or to resolve is not run.
    pub open spec fn run(self, depth: nat, source: Seq<char>) -> LoxView {
        if source.len() >= usize::MAX {
            self.fail(LoxErrorView::RuntimeError(msg_source_too_long()))
        } else {
            let scanned = scan(source);
            let noted = LoxView { errors: self.errors + scan_errors(scanned.errors), ..self };
            if self.next_id + scanned.tokens.len() > usize::MAX {
                noted.fail(LoxErrorView::RuntimeError(msg_too_many_nodes()))
            } else {
                let numbered = LoxView {
                    next_id: (self.next_id + scanned.tokens.len()) as usize,
                    ..noted
                };
                match program(scanned.tokens, self.next_id as int, 0, Seq::empty()) {
                    Ok((statements, _)) => {
                        let (resolved, done) = numbered.resolve(statements);
                        match done {
                            Ok(_) => resolved.run_statements(depth, statements),
                            Err(Signal::Error(e)) => resolved.fail(e),
                            Err(_) => resolved,
                        }
                    },
                    Err((e, _)) => numbered.fail(e),
                }
            }
        }
    }
}

impl View for Lox {
    type V = LoxView;

    open spec fn view(&self) -> LoxView {
        LoxView {
            had_error: self.had_error,
            had_runtime_error: self.had_runtime_error,
            interpreter: self.interpreter@,
            errors: errors_view(self.errors@),
            next_id: self.next_id,
        }
    }
}

impl Lox {
    /// Whether the interpreter is fit for the next program: every function
    /// of it was declared at a place whose scopes its chain of scopes fits,
    /// and its table files only numbers that were given out.
    pub open spec fn is_fit(&self) -> bool {
        fit(self@.interpreter, self.next_id as int)
    }

    /// A new interpreter that has met no error.
    pub fn new() -> (r: Self)
        ensures
            r.interpreter.wf(),
            r.is_fit(),
            r@ == (LoxView {
                had_error: false,
                had_runtime_error: false,
                interpreter: State::initial(),
                errors: Seq::empty(),
                next_id: 0,
            }),
    {
        let r = Self {
            had_error: false,
            had_runtime_error: false,
            interpreter: Interpreter::new(),
            errors: Vec::new(),
            next_id: 0,
        };
        assert(r@.errors =~= Seq::empty());
        proof {
            lemma_initial_is_fit(0);
        }
        r
    }

    /// Sets the clock of the interpreter to `seconds`, or to the largest
    /// number of the language if that is less.
    pub fn set_clock(&mut self, seconds: u64)
        ensures
            final(self).interpreter.clock == if seconds > i32::MAX {
                i32::MAX
            } else {
                seconds as i32
            },
            final(self)@ == old(self)@.with_interpreter(
                State { clock: final(self).interpreter.clock, ..old(self)@.interpreter },
            ),
            final(self).interpreter.depth == old(self).interpreter.depth,
            old(self).interpreter.wf() ==> final(self).interpreter.wf(),
            old(self).is_fit() ==> final(self).is_fit(),
    {
        self.interpreter.clock = if seconds > 0x7fff_ffff {
            0x7fff_ffff
        } else {
            seconds as i32
        };
        proof {
            if old(self).is_fit() {
                lemma_fit_when_clock_set(
                    old(self)@.interpreter,
                    self.interpreter.clock,
                    self.next_id as int,
                );
            }
        }
    }

    /// Notes an error behind those met before.
    fn report(&mut self, e: LoxError)
        ensures
            final(self)@ == (LoxView { errors: old(self)@.errors.push(e@), ..old(self)@ }),
            final(self).interpreter == old(self).interpreter,
    {
        let ghost before = self@.errors;
        self.errors.push(e);
        assert(self@.errors =~= before.push(e@));
    }

    /// Notes what the scanner could not read.
    fn report_scan_errors(&mut self, messages: &Vec<String>)
        ensures
            final(self)@ == (LoxView {
                errors: old(self)@.errors + scan_errors(lines_view(messages@)),
                ..old(self)@
            }),
            final(self).interpreter == old(self).interpreter,
    {
        let ghost noted = scan_errors(lines_view(messages@));
        let mut i: usize = 0;
        assert(old(self)@.errors + noted.take(0) =~= old(self)@.errors);
        while i < messages.len()
            invariant
                i <= messages@.len(),
                noted == scan_errors(lines_view(messages@)),
                self@ == (LoxView { errors: old(self)@.errors + noted.take(i as int), ..old(self)@ }),
                self.interpreter == old(self).interpreter,
            decreases messages@.len() - i,
        {
            self.report(LoxError::RuntimeError(messages[i].clone()));
            assert(old(self)@.errors + noted.take(i + 1) =~= (old(self)@.errors + noted.take(
                i as int,
            )).push(noted[i as int]));
            i += 1;
        }
        assert(noted.take(i as int) =~= noted);
    }

    /// Resolves a program for the interpreter.
    pub fn resolve(&mut self, statements: &Vec<Box<Statement>>) -> (r: LoxResult<Object>)
        ensures
            final(self).interpreter.depth == old(self).interpreter.depth,
            old(self).interpreter.wf() ==> final(self).interpreter.wf(),
            r matches Ok(v) ==> v@ == Value::Nil,
            (final(self)@, unit_result(r)) == old(self)@.resolve(stmts_view(statements@)),
    {
        let mut interpreter = Interpreter::new();
        std::mem::swap(&mut self.interpreter, &mut interpreter);
        let mut r = Resolver::new(interpreter);
        let result = r.resolve(statements);
        self.interpreter = r.interpreter;
        result
    }

    /// Scans, parses, resolves and runs a source text.
    ///
    /// An interpreter that is fit stays fit, and every error that the run
    /// of a fit interpreter notes is a runtime error: no variable that the
    /// resolver has filed is missed where it was filed.
    pub fn run(&mut self, source: &String)
        requires
            old(self).interpreter.wf(),
        ensures
            final(self).interpreter.wf(),
            final(self).interpreter.depth == old(self).interpreter.depth,
            final(self)@ == old(self)@.run(old(self).interpreter.depth as nat, source@),
            old(self).is_fit() ==> final(self).is_fit() && adds_no_binding_error(
                old(self)@.errors,
                final(self)@.errors,
            ),
    {
        proof {
            if old(self).is_fit() {
                lemma_run_stays_fit(old(self)@, old(self).interpreter.depth as nat, source@);
            }
        }
        let length = source.as_str().unicode_len();
        if length == usize::MAX {
            self.had_error = true;
            self.report(LoxError::runtime("Source too long."));
            return ;
        }
        let mut scanner = Scanner::new(source.clone());
        scanner.scan_tokens();
        let ghost scanned = scanner@;
        let tokens = scanner.tokens;
        self.report_scan_errors(&scanner.errors);
        assert(lines_view(scanner.errors@) =~= scanned.errors);
        if tokens.len() > usize::MAX - self.next_id {
            self.had_error = true;
            self.report(LoxError::runtime("Too many nodes."));
            return ;
        }
        let first_id = self.next_id;
        self.next_id = self.next_id + tokens.len();
        let mut parser: Parser = Parser::numbered_from(tokens, first_id);
        match parser.parse() {
            Ok(statements) => match self.resolve(&statements) {
                Ok(_) => {
                    self.run_statements(&statements);
                },
                Err(ReturnStatus::Error(e)) => {
                    self.had_error = true;
                    self.report(e);
                },
                Err(_) => (),
            },
            Err(e) => {
                self.had_error = true;
                self.report(e);
            },
        }
    }

    /// Notes that a signal ended a run.
    fn fail_at_runtime(&mut self, signal: ReturnStatus)
        ensures
            final(self)@ == old(self)@.fail_at_runtime(signal@),
            final(self).interpreter == old(self).interpreter,
    {
        self.had_runtime_error = true;
        match signal {
            ReturnStatus::Error(e) => {
                self.report(e);
            },
            _ => {},
        }
    }

    /// Runs a resolved program.
    pub fn run_statements(&mut self, statements: &Vec<Box<Statement>>)
        requires
            old(self).interpreter.wf(),
        ensures
            final(self).interpreter.wf(),
            final(self).interpreter.depth == old(self).interpreter.depth,
            final(self)@ == old(self)@.run_statements(
                old(self).interpreter.depth as nat,
                stmts_view(statements@),
            ),
    {
        let mut did_evaluate_single_expression = false;
        if statements.len() == 1 {
            match &*statements[0] {
                Statement::Expression { expression } => {
                    did_evaluate_single_expression = true;
                    match self.interpreter.evaluate(expression) {
                        Ok(r) => {
                            let ghost before = self@.interpreter.output;
                            let line = r.to_string();
                            self.interpreter.output.push(line);
                            assert(self@.interpreter.output =~= before.push(line@));
                        },
                        Err(e) => {
                            self.fail_at_runtime(e);
                        },
                    }
                },
                _ => (),
            }
        }
        if !did_evaluate_single_expression {
            match self.interpreter.interpret(&statements) {
                Ok(()) => (),
                Err(e) => {
                    self.fail_at_runtime(e);
                },
            }
        }
    }
}

} // verus!
