//! A front end and evaluator for a small dynamically-typed scripting
//! language: a scanner turns source text into tokens, a recursive-descent
//! parser turns tokens into a statement tree, and a tree-walking interpreter
//! evaluates that tree against a chain of lexical scopes.
//!
//! The host around this library supplies raw source text and prints what
//! comes back: each run returns its program output and its diagnostics as
//! values rather than writing to a terminal.
use vstd::prelude::*;

pub mod environment;
pub mod expr;
pub mod interpreter;
pub mod numeric;
pub mod parser;
pub mod scanner;
pub mod stmt;
pub mod token;

use crate::environment::Environment;
use crate::interpreter::{spec_eval, spec_exec_seq, spec_runtime_diagnostic, EnvModel, Interpreter};
use crate::numeric::dec_digits;
use crate::stmt::Stmt;
use crate::token::{spec_print_val, Token, TokenModel, TokenType};

verus! {

/// Mathematical model of the host-facing state of a run.
pub struct LoxModel {
    pub had_error: bool,
    pub had_runtime_error: bool,
    pub diagnostics: Seq<Seq<char>>,
    pub output: Seq<Seq<char>>,
}

/// The host-facing state of a run: the two error flags, the diagnostics
/// stream, and the program output, one printed line per entry.
pub struct Lox {
    pub had_error: bool,
    pub had_runtime_error: bool,
    pub diagnostics: Vec<String>,
    pub output: Vec<String>,
}

impl View for Lox {
    type V = LoxModel;

    open spec fn view(&self) -> LoxModel {
        LoxModel {
            had_error: self.had_error,
            had_runtime_error: self.had_runtime_error,
            diagnostics: self.diagnostics.deep_view(),
            output: self.output.deep_view(),
        }
    }
}

/// The scan- and parse-time diagnostic line: `[line <L>] Error<where>: <message>`.
pub open spec fn spec_report_line(line: u32, where_: Seq<char>, message: Seq<char>) -> Seq<char> {
    "[line "@ + dec_digits(line as nat) + "] Error"@ + where_ + ": "@ + message
}

/// The `<where>` part a token contributes to a diagnostic: ` at end` for the
/// end-of-input token, ` at '<lexeme>'` otherwise.
pub open spec fn spec_where_of_token(t: TokenModel) -> Seq<char> {
    if t.token_type == TokenType::EOF {
        " at end"@
    } else {
        " at '"@ + t.lexeme + "'"@
    }
}

impl Default for Lox {
    /// A fresh run: no errors, nothing reported, nothing printed.
    fn default() -> (r: Self)
        ensures
            !r@.had_error,
            !r@.had_runtime_error,
            r@.diagnostics =~= Seq::<Seq<char>>::empty(),
            r@.output =~= Seq::<Seq<char>>::empty(),
    {
        Lox {
            had_error: false,
            had_runtime_error: false,
            diagnostics: Vec::new(),
            output: Vec::new(),
        }
    }
}

impl Lox {
    /// Records a diagnostic for `line` and sets the error flag.
    pub fn report(&mut self, line: u32, where_: &str, message: &str)
        ensures
            final(self)@ == (LoxModel {
                had_error: true,
                diagnostics: old(self)@.diagnostics.push(
                    spec_report_line(line, where_@, message@),
                ),
                ..old(self)@
            }),
    {
        proof {
            reveal_strlit("[line ");
            reveal_strlit("] Error");
            reveal_strlit(": ");
        }
        let mut entry = String::from_str("[line ");
        let line_str = crate::numeric::u32_to_dec(line);
        entry.append(line_str.as_str());
        entry.append("] Error");
        entry.append(where_);
        entry.append(": ");
        entry.append(message);
        self.diagnostics.push(entry);
        self.had_error = true;
        proof {
            assert(self.diagnostics.deep_view() =~= old(self).diagnostics.deep_view().push(
                spec_report_line(line, where_@, message@),
            ));
        }
    }

    /// Records a generic diagnostic, with an empty `<where>` part.
    pub fn error(&mut self, line: u32, message: &str)
        ensures
            final(self)@ == (LoxModel {
                had_error: true,
                diagnostics: old(self)@.diagnostics.push(
                    spec_report_line(line, ""@, message@),
                ),
                ..old(self)@
            }),
    {
        proof {
            reveal_strlit("");
        }
        self.report(line, "", message);
    }

    /// Records a runtime error's diagnostic and sets the runtime-error flag.
    pub fn runtime_error(&mut self, err: crate::interpreter::RuntimeError)
        ensures
            final(self)@ == (LoxModel {
                had_runtime_error: true,
                diagnostics: old(self)@.diagnostics.push(
                    crate::interpreter::spec_runtime_diagnostic(err@),
                ),
                ..old(self)@
            }),
    {
        let mut entry = err.message();
        match &err.token {
            Some(op) => {
                proof {
                    reveal_strlit("\n[line ");
                    reveal_strlit(";token ");
                    reveal_strlit("]");
                }
                entry.append("\n[line ");
                let line_str = crate::numeric::u32_to_dec(op.line);
                entry.append(line_str.as_str());
                entry.append(";token ");
                entry.append(op.lexeme.as_str());
                entry.append("]");
            },
            None => {},
        }
        self.diagnostics.push(entry);
        self.had_runtime_error = true;
        proof {
            assert(self.diagnostics.deep_view() =~= old(self).diagnostics.deep_view().push(
                crate::interpreter::spec_runtime_diagnostic(err@),
            ));
        }
    }

    /// Records a diagnostic attributed to a token: phrased `at end` for the
    /// end-of-input token, `at '<lexeme>'` otherwise.
    pub fn error_token(&mut self, token: &Token, message: &str)
        ensures
            final(self)@ == (LoxModel {
                had_error: true,
                diagnostics: old(self)@.diagnostics.push(
                    spec_report_line(token@.line, spec_where_of_token(token@), message@),
                ),
                ..old(self)@
            }),
    {
        if token.token_type == TokenType::EOF {
            proof {
                reveal_strlit(" at end");
            }
            self.report(token.line, " at end", message);
        } else {
            proof {
                reveal_strlit(" at '");
                reveal_strlit("'");
            }
            let mut where_ = String::from_str(" at '");
            where_.append(token.lexeme.as_str());
            where_.append("'");
            self.report(token.line, where_.as_str(), message);
        }
    }
}

/// The host-facing state after a runtime error is reported.
pub open spec fn lox_after_runtime_error(m: LoxModel, e: crate::interpreter::RuntimeErrorModel)
    -> LoxModel {
    LoxModel {
        had_runtime_error: true,
        diagnostics: m.diagnostics.push(spec_runtime_diagnostic(e)),
        ..m
    }
}

/// One whole run over `src` against the scope chain `env`: scan, parse,
/// then — unless any scan or parse diagnostic was recorded, or the error
/// flag was already set — execute. A run of exactly one bare expression
/// statement under `repl` displays the expression's value directly instead
/// of executing it. Yields the host-facing state and the scope chain after
/// the run.
pub open spec fn spec_run(src: Seq<char>, env: EnvModel, repl: bool, m: LoxModel) -> (
    LoxModel,
    EnvModel,
) {
    let scan = crate::scanner::spec_scan(src, 0, 1, Seq::empty(), Seq::empty());
    let m1 = LoxModel {
        had_error: m.had_error || scan.errors.len() > 0,
        diagnostics: m.diagnostics + scan.errors.map_values(
            |e: crate::scanner::LexErrorModel| crate::scanner::lex_error_diagnostic(e),
        ),
        ..m
    };
    let (stmts, perrs) = crate::parser::spec_parse(scan.tokens, 0, Seq::empty(), Seq::empty());
    let m2 = crate::parser::lox_after_parse_errors(m1, perrs);
    if m2.had_error {
        (m2, env)
    } else if repl && stmts.len() == 1 && stmts[0] is Expression {
        let (r, env2) = spec_eval(stmts[0]->Expression_0, env);
        match r {
            Ok(v) => match spec_print_val(v) {
                Ok(line) => (LoxModel { output: m2.output.push(line), ..m2 }, env2),
                Err(er) => (lox_after_runtime_error(m2, er), env2),
            },
            Err(er) => (lox_after_runtime_error(m2, er), env2),
        }
    } else {
        let (res, env2, out) = spec_exec_seq(stmts, env);
        let m3 = LoxModel { output: m2.output + out, ..m2 };
        match res {
            Ok(_) => (m3, env2),
            Err(er) => (lox_after_runtime_error(m3, er), env2),
        }
    }
}

impl Lox {
    /// One whole run, as `spec_run` lays down: scan, parse, and — with no
    /// scan or parse diagnostic recorded and no earlier error flagged —
    /// execute against the supplied scope chain. Under `repl`, a run of
    /// exactly one bare expression statement displays its value directly.
    pub fn run(
        &mut self,
        source: String,
        interpreter: &mut Interpreter,
        environment: &mut Environment,
        repl: bool,
    )
        requires
            source@.len() < 0xFFFF_FFFF,
            old(environment).well_formed(),
        ensures
            final(environment).well_formed(),
            ({
                let (m2, env2) = spec_run(source@, old(environment)@, repl, old(self)@);
                &&& final(self)@ == m2
                &&& final(environment)@ == env2
            }),
    {
        let ghost src = source@;
        let ghost scan = crate::scanner::spec_scan(src, 0, 1, Seq::empty(), Seq::empty());
        let mut scanner = crate::scanner::Scanner::new(source);
        let tokens = scanner.scan_tokens(self);
        proof {
            crate::scanner::lemma_scan_shape(src, 0, 1, Seq::empty(), Seq::empty());
            assert(crate::parser::tokens_wf(scan.tokens));
        }
        let mut parser = crate::parser::Parser::new(tokens);
        let statements = parser.parse(self);
        let ghost stmts = crate::parser::spec_parse(scan.tokens, 0, Seq::empty(), Seq::empty()).0;
        proof {
            crate::parser::lemma_parse_wf(scan.tokens, 0, Seq::empty(), Seq::empty());
            crate::stmt::lemma_stmts_model_index(statements@);
        }
        if self.had_error {
            return ;
        }
        let should_interpret = if repl && statements.len() == 1 {
            match &statements[0] {
                Stmt::Expression(expr) => {
                    proof {
                        assert(crate::stmt::wf_stmt(stmts[0]));
                        lemma_eval_len_for_run(expr@, old(environment)@);
                    }
                    match interpreter.evaluate(self, environment, expr) {
                        Ok(val) => {
                            match val.print() {
                                Ok(s) => {
                                    let ghost pre = self@;
                                    self.output.push(s);
                                    proof {
                                        assert(self.output.deep_view() =~= pre.output.push(s@));
                                    }
                                },
                                Err(e) => {
                                    self.runtime_error(e);
                                },
                            }
                            false
                        },
                        Err(e) => {
                            self.runtime_error(e);
                            false
                        },
                    }
                },
                _ => true,
            }
        } else {
            true
        };
        if should_interpret {
            proof {
                crate::interpreter::lemma_exec_seq_preserves_len(stmts, old(environment)@);
            }
            interpreter.interpret(self, statements, environment);
        }
    }
}

/// Evaluation keeps the scope chain's length; phrased for `run`'s proof.
proof fn lemma_eval_len_for_run(e: crate::expr::ExprModel, env: EnvModel)
    ensures
        spec_eval(e, env).1.len() == env.len(),
{
    crate::interpreter::lemma_eval_preserves_len(e, env);
}

} // verus!
