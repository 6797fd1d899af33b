//! A tree-walking interpreter for a small, dynamically typed, lexically
//! scoped scripting language: scanner, recursive-descent parser, a static
//! resolver that pre-computes lexical distances, and an evaluator over a
//! chain of environments with first-class functions and closures.
pub mod callable;
pub mod environment;
pub mod error;
pub mod expr;
pub mod idmap;
pub mod interpreter;
pub mod numtext;
pub mod parser;
pub mod resolver;
pub mod rlvalue;
pub mod scanner;
pub mod stmt;
pub mod strmap;
pub mod strutil;
pub mod token;

use vstd::prelude::*;

use crate::error::RloxError;
use crate::interpreter::Interpreter;
use crate::parser::Parser;
use crate::resolver::Resolver;
use crate::scanner::Scanner;

verus! {

/// The line an error report renders to: the line number, the place, and
/// the message.
pub open spec fn report_line(line: u32, place: Seq<char>, message: Seq<char>) -> Seq<char> {
    "[line "@ + crate::numtext::dec_of_nat(line as nat) + "] Error "@ + place + ": "@ + message
}

/// A centralized error log: reports accumulate here, and a flag records
/// that at least one arrived. The embedder prints the log.
pub struct ErrorReporter {
    pub had_error: bool,
    pub log: Vec<String>,
}

impl ErrorReporter {
    /// A reporter with nothing reported.
    pub fn new() -> (r: ErrorReporter)
        ensures
            !r.had_error,
            r.log.deep_view() == Seq::<Seq<char>>::empty(),
    {
        let r = ErrorReporter { had_error: false, log: Vec::new() };
        proof {
            assert(r.log.deep_view() =~= Seq::<Seq<char>>::empty());
        }
        r
    }

    /// Reports an error with no place attached.
    pub fn error(&mut self, line: u32, message: &str)
        ensures
            final(self).had_error,
            final(self).log.deep_view() == old(self).log.deep_view().push(
                report_line(line, ""@, message@),
            ),
    {
        self.report(line, "", message);
    }

    /// Records one error report and raises the flag.
    pub fn report(&mut self, line: u32, place: &str, message: &str)
        ensures
            final(self).had_error,
            final(self).log.deep_view() == old(self).log.deep_view().push(
                report_line(line, place@, message@),
            ),
    {
        let mut entry = "[line ".to_owned();
        let digits = crate::numtext::u64_to_string(line as u64);
        entry.append(digits.as_str());
        entry.append("] Error ");
        entry.append(place);
        entry.append(": ");
        entry.append(message);
        self.had_error = true;
        let ghost before = self.log.deep_view();
        self.log.push(entry);
        proof {
            assert(entry@ =~= report_line(line, place@, message@));
            assert(self.log.deep_view() =~= before.push(report_line(line, place@, message@)));
        }
    }

    /// Lowers the flag; the log is kept.
    pub fn reset(&mut self)
        ensures
            !final(self).had_error,
            final(self).log == old(self).log,
    {
        self.had_error = false;
    }

    /// Whether any error has been reported since the last reset.
    pub fn had_error(&self) -> (r: bool)
        ensures
            r == self.had_error,
    {
        self.had_error
    }
}

impl Default for ErrorReporter {
    /// A reporter with nothing reported.
    fn default() -> (r: ErrorReporter)
        ensures
            !r.had_error,
            r.log.deep_view() == Seq::<Seq<char>>::empty(),
    {
        ErrorReporter::new()
    }
}

/// The whole pipeline under one handle: an interpreter that persists
/// across runs, and the reporter that collects scan-time errors.
pub struct RLox {
    pub interpreter: Interpreter,
    pub error_reporter: ErrorReporter,
}

/// What a successful run is: some statement list, executed under the
/// interpreter's starting state with the resolver's map and the given
/// clock, finished without failure; the returned lines are that run's
/// output buffer, and the interpreter keeps the run's final state with
/// the buffer drained.
pub open spec fn run_outcome(
    before: crate::interpreter::StateG,
    clock_ms: i64,
    fuel: nat,
    stmts: Seq<crate::stmt::Stmt>,
    resolved: Map<u64, u32>,
    lines: Seq<Seq<char>>,
    after: crate::interpreter::StateG,
) -> bool {
    let st0 = crate::interpreter::StateG { locals: resolved, clock: clock_ms, ..before };
    &&& crate::interpreter::spec_interpret(st0, stmts, fuel).1 == Ok::<(), crate::error::ErrorG>(())
    &&& lines == crate::interpreter::spec_interpret(st0, stmts, fuel).0.output
    &&& after == (crate::interpreter::StateG {
        output: Seq::<Seq<char>>::empty(),
        ..crate::interpreter::spec_interpret(st0, stmts, fuel).0
    })
}

/// Some parsed program and some resolution map account for the run.
pub open spec fn some_run_outcome(
    before: crate::interpreter::StateG,
    clock_ms: i64,
    fuel: nat,
    lines: Seq<Seq<char>>,
    after: crate::interpreter::StateG,
) -> bool {
    exists|stmts: Seq<crate::stmt::Stmt>, resolved: Map<u64, u32>|
        run_outcome(before, clock_ms, fuel, stmts, resolved, lines, after)
}

impl RLox {
    /// A fresh interpreter behind a fresh pipeline.
    pub fn new(error_reporter: ErrorReporter) -> (r: RLox)
        ensures
            r.interpreter.inv(),
            r.error_reporter == error_reporter,
    {
        RLox { interpreter: Interpreter::new(), error_reporter }
    }

    /// Runs one program fragment: scan, parse, resolve, execute. The
    /// value returned by `clock` during the run is `clock_ms`; `fuel`
    /// bounds the evaluator's nesting depth. On success the returned
    /// lines are exactly what executing the parsed program printed, per
    /// `run_outcome`; on any failure the error comes back instead and the
    /// reporter's flag goes up, and a failure before execution — at scan,
    /// parse or resolve time — leaves the environments and the output
    /// untouched. The internal `Return` signal is never among the errors.
    pub fn run(&mut self, input: &str, clock_ms: i64, fuel: u64) -> (r: Result<
        Vec<String>,
        RloxError,
    >)
        requires
            old(self).interpreter.inv(),
        ensures
            final(self).interpreter.inv(),
            r is Err ==> final(self).error_reporter.had_error,
            !(r matches Err(RloxError::Return(_))),
            r matches Ok(lines) ==> some_run_outcome(
                old(self).interpreter@,
                clock_ms,
                fuel as nat,
                lines.deep_view(),
                final(self).interpreter@,
            ),
            (r matches Err(e) && (e@ is Parse || e@ is Resolve)) ==> final(self).interpreter@.envs
                == old(self).interpreter@.envs && final(self).interpreter@.output == old(
                self).interpreter@.output,
    {
        // 1. scan
        let mut scanner = Scanner::new(input.to_owned(), ErrorReporter::new());
        match scanner.scan_tokens() {
            Ok(_) => (),
            Err(e) => {
                self.error_reporter.had_error = true;
                return Err(e);
            },
        }
        if scanner.error_reporter.had_error() {
            self.error_reporter.had_error = true;
            return Err(RloxError::ParseError("the scanner rejected the source text".to_owned()));
        }
        let tokens = scanner.tokens();

        // 2. parse
        let mut parser = Parser::new(tokens, ErrorReporter::new());
        let stmts = match parser.parse() {
            Ok(stmts) => stmts,
            Err(e) => {
                self.error_reporter.had_error = true;
                return Err(e);
            },
        };

        // 3. resolve
        let mut resolver = Resolver::new();
        let mut i: usize = 0;
        while i < stmts.len()
            invariant
                self.interpreter.inv(),
                resolver.wf(),
                self.interpreter@.envs == old(self).interpreter@.envs,
                self.interpreter@.current == old(self).interpreter@.current,
                self.interpreter@.output == old(self).interpreter@.output,
                self.interpreter@.clock == old(self).interpreter@.clock,
                self.error_reporter == old(self).error_reporter,
            decreases stmts.len() - i,
        {
            let ghost scopes_before = resolver@;
            let ghost locals_before = self.interpreter@.locals;
            match resolver.resolve(&mut self.interpreter, &stmts[i]) {
                Ok(_) => (),
                Err(e) => {
                    proof {
                        crate::resolver::lemma_resolve_stmt_error_kind(
                            scopes_before,
                            locals_before,
                            stmts@[i as int],
                        );
                    }
                    self.error_reporter.had_error = true;
                    return Err(e);
                },
            }
            i = i + 1;
        }

        // 4. execute
        let ghost resolved = self.interpreter@.locals;
        self.interpreter.set_clock_ms(clock_ms);
        let ghost st0 = self.interpreter@;
        proof {
            assert(st0 =~= crate::interpreter::StateG {
                locals: resolved,
                clock: clock_ms,
                ..old(self).interpreter@
            });
        }
        match self.interpreter.interpret(&stmts, fuel) {
            Ok(_) => {
                let lines = self.interpreter.take_output();
                proof {
                    assert(self.interpreter@ =~= crate::interpreter::StateG {
                        output: Seq::<Seq<char>>::empty(),
                        ..crate::interpreter::spec_interpret(st0, stmts@, fuel as nat).0
                    });
                    assert(some_run_outcome(
                        old(self).interpreter@,
                        clock_ms,
                        fuel as nat,
                        lines.deep_view(),
                        self.interpreter@,
                    )) by {
                        assert(run_outcome(
                            old(self).interpreter@,
                            clock_ms,
                            fuel as nat,
                            stmts@,
                            resolved,
                            lines.deep_view(),
                            self.interpreter@,
                        ));
                    }
                }
                Ok(lines)
            },
            Err(e) => {
                proof {
                    crate::interpreter::lemma_interpret_error_runtime(st0, stmts@, fuel as nat);
                }
                self.error_reporter.had_error = true;
                Err(e)
            },
        }
    }
}

} // verus!
