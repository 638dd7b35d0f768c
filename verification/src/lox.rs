//! The front door: scanning, parsing and interpreting a source text, with
//! diagnostics collected per run and classified failure kinds.
//!
//! The whole pipeline is specified by [`spec_run`]: a run is a scan
//! failure exactly when the ghost scanner reports one, else a parse
//! failure exactly when the ghost parser reports diagnostics on the
//! scanned tokens, else the ghost interpretation of the parsed program
//! decides between success and a runtime failure — and the diagnostics,
//! output and rendered runtime error collected along the way are pinned
//! down as well. The token list, the program and the clock sample are
//! existentially quantified: the scanner's contract fixes the tokens only
//! up to their mathematical views, and the clock sample is drawn from the
//! machine.

use vstd::prelude::*;

use crate::ast::{stmts_view, Stmt};
use crate::diagnostics::DiagV;
use crate::environment::{env_define, env_initial, env_vals_wf, env_wf, EnvV, Enviornment};
use crate::interpreter::{
    lemma_view_strings_push, spec_interpret, view_strings, Interpreter, StateV,
};
use crate::numbers::LoxNum;
use crate::parser::{sp_program, PState, Parser};
use crate::scanner::{scan_from, scan_tokens, view_diags, view_tokens};
use crate::text::{append_int, spec_int_digits};
use crate::tokens::Token;
use crate::values::{LoxRuntimeError, ObjectV, RteV};

verus! {

/// A fatal scanning failure.
#[derive(Debug, PartialEq)]
pub struct LoxScanError {}

/// A fatal parsing failure.
#[derive(Debug, PartialEq)]
pub struct LoxParseError {}

/// Why a run failed: scanning, parsing, or a runtime error. Mapping these
/// to process exit codes is the driver's concern.
#[derive(Debug, PartialEq)]
pub enum LoxFailure {
    ScanFailed(LoxScanError),
    ParseFailed(LoxParseError),
    RuntimeFailed(LoxRuntimeError),
}

/// The diagnostics collector: scanner and parser diagnostics are reported
/// through it, once per error.
pub trait LoxError {
    fn error(&mut self, line: i32, message: &str);

    fn report(&mut self, line: i32, wh: &str, message: &str);

    fn has_error(&self) -> bool;
}

/// Options for a run.
#[derive(Debug, PartialEq)]
pub struct LoxOptions {
    pub debug_ast: bool,
}

/// One interpreter front end: collects formatted diagnostics, the program's
/// printed output, and the rendering of a runtime error if one stopped the
/// run.
#[derive(Debug)]
pub struct Lox {
    pub has_error: bool,
    pub opts: LoxOptions,
    pub reports: Vec<String>,
    pub output: Vec<String>,
    pub runtime_message: Option<String>,
}

/// The mathematical view of the front end's collected state.
pub struct LoxV {
    pub has_error: bool,
    pub debug_ast: bool,
    pub reports: Seq<Seq<char>>,
    pub output: Seq<Seq<char>>,
    pub runtime_message: Option<Seq<char>>,
}

impl View for Lox {
    type V = LoxV;

    open spec fn view(&self) -> LoxV {
        LoxV {
            has_error: self.has_error,
            debug_ast: self.opts.debug_ast,
            reports: view_strings(self.reports@),
            output: view_strings(self.output@),
            runtime_message: match self.runtime_message {
                Some(m) => Some(m@),
                None => None,
            },
        }
    }
}

/// The form of a reported diagnostic line.
pub open spec fn report_line(line: int, wh: Seq<char>, message: Seq<char>) -> Seq<char> {
    "[line "@ + spec_int_digits(line) + "] Error"@ + wh + ": "@ + message
}

/// The reported form of each diagnostic, in order.
pub open spec fn fmt_diags(ds: Seq<DiagV>) -> Seq<Seq<char>> {
    ds.map_values(|d: DiagV| report_line(d.line, Seq::empty(), d.message))
}

/// The rendered form of a runtime error: `message.` followed by
/// `[line N]` on the next line.
pub open spec fn rendered_runtime_error(e: RteV) -> Seq<char> {
    e.message + ".\n[line "@ + spec_int_digits(e.line) + "]"@
}

/// One more diagnostic is formatted.
proof fn lemma_fmt_diags_take_snoc(ds: Seq<DiagV>, i: int)
    requires
        0 <= i < ds.len(),
    ensures
        fmt_diags(ds.take(i + 1)) == fmt_diags(ds.take(i)).push(
            report_line(ds[i].line, Seq::empty(), ds[i].message),
        ),
{
    assert(fmt_diags(ds.take(i + 1)) =~= fmt_diags(ds.take(i)).push(
        report_line(ds[i].line, Seq::empty(), ds[i].message),
    ));
}

/// What one run explains, given the scanned tokens `ts` (fixed by the
/// ghost scanner up to views), the parsed program `prog` (fixed by the
/// ghost parser up to views), and the clock sample `clock` the evaluator
/// drew: the parse-failure classification, and otherwise the ghost
/// interpretation's verdict, output, environment and rendered error.
pub open spec fn run_pipeline(
    source: Seq<char>,
    lox0: LoxV,
    lox1: LoxV,
    env0: EnvV,
    env1: EnvV,
    r: Result<(), LoxFailure>,
    ts: Seq<Token>,
    prog: Seq<Stmt>,
    clock: LoxNum,
) -> bool {
    let sc = scan_from(source, 0, 1);
    let (pstmts, pst) = sp_program(ts, PState { pos: 0, diags: Seq::empty() });
    &&& view_tokens(ts) == sc.tokens
    &&& if pst.diags.len() > 0 {
        &&& r matches Err(LoxFailure::ParseFailed(_))
        &&& lox1.has_error
        &&& lox1.reports == lox0.reports + fmt_diags(pst.diags)
        &&& lox1.output == lox0.output
        &&& lox1.runtime_message == lox0.runtime_message
        &&& env1 == env0
    } else {
        &&& pstmts == stmts_view(prog)
        &&& clock.wf() && clock.num >= 0
        &&& ({
            let st0 = StateV {
                env: env_define(env0, "clock"@, ObjectV::Clock),
                output: Seq::empty(),
                clock,
            };
            let (verdict, stf) = spec_interpret(prog, st0);
            &&& lox1.has_error == lox0.has_error
            &&& lox1.reports == lox0.reports
            &&& lox1.output == lox0.output + stf.output
            &&& env1 == stf.env
            &&& match verdict {
                Ok(()) => r is Ok && lox1.runtime_message == lox0.runtime_message,
                Err(e) => (r matches Err(LoxFailure::RuntimeFailed(f)) && f@ == e)
                    && lox1.runtime_message == Some(rendered_runtime_error(e)),
            }
        })
    }
}

/// What one run does. A scan failure (a fatal scanner error or any scanner
/// diagnostic) stops the run with the scanner's diagnostics reported and
/// nothing else touched; otherwise some tokenization of the scanned views
/// and some clock sample explain the rest of the run through the ghost
/// parser and the ghost interpretation, per [`run_pipeline`].
pub open spec fn spec_run(
    source: Seq<char>,
    lox0: LoxV,
    lox1: LoxV,
    env0: EnvV,
    env1: EnvV,
    r: Result<(), LoxFailure>,
) -> bool {
    let sc = scan_from(source, 0, 1);
    &&& lox1.debug_ast == lox0.debug_ast
    &&& if !sc.ok || sc.diags.len() > 0 {
        &&& r matches Err(LoxFailure::ScanFailed(_))
        &&& lox1.has_error
        &&& lox1.reports == lox0.reports + fmt_diags(sc.diags)
        &&& lox1.output == lox0.output
        &&& lox1.runtime_message == lox0.runtime_message
        &&& env1 == env0
    } else {
        &&& !(r matches Err(LoxFailure::ScanFailed(_)))
        &&& exists|ts: Seq<Token>, prog: Seq<Stmt>, clock: LoxNum|
            #[trigger] run_pipeline(source, lox0, lox1, env0, env1, r, ts, prog, clock)
    }
}

impl Lox {
    pub fn new(opts: LoxOptions) -> (r: Lox)
        ensures
            r.has_error == false,
            r.opts == opts,
            r.reports@ == Seq::<String>::empty(),
            r.output@ == Seq::<String>::empty(),
            r.runtime_message is None,
    {
        Lox { has_error: false, opts, reports: Vec::new(), output: Vec::new(), runtime_message: None }
    }

    /// Whether any diagnostic has been reported so far.
    pub fn check_err(&self) -> (r: Result<(), ()>)
        ensures
            r is Ok <==> !self.has_error,
    {
        if self.has_error {
            Err(())
        } else {
            Ok(())
        }
    }

    /// Records a diagnostic in the form `[line N] Error<where>: message`
    /// and marks the run as failed.
    pub fn report_diag(&mut self, line: i32, wh: &str, message: &str)
        ensures
            final(self).has_error,
            final(self).reports@ == old(self).reports@.push(
                final(self).reports@.last(),
            ) && final(self).reports@.last()@ == report_line(line as int, wh@, message@),
            final(self).output == old(self).output,
            final(self).opts == old(self).opts,
            final(self).runtime_message == old(self).runtime_message,
    {
        let mut s = String::from_str("[line ");
        append_int(&mut s, line as i64);
        s.append("] Error");
        s.append(wh);
        s.append(": ");
        s.append(message);
        let ghost rs = self.reports@;
        self.reports.push(s);
        self.has_error = true;
        proof {
            assert(final(self).reports@ =~= rs.push(final(self).reports@.last()));
        }
    }

    /// Records a plain diagnostic for a line: a report with an empty
    /// "where" part.
    pub fn error_diag(&mut self, line: i32, message: &str)
        ensures
            final(self).has_error,
            final(self).reports@ == old(self).reports@.push(
                final(self).reports@.last(),
            ) && final(self).reports@.last()@ == report_line(
                line as int,
                Seq::empty(),
                message@,
            ),
            final(self).output == old(self).output,
            final(self).opts == old(self).opts,
            final(self).runtime_message == old(self).runtime_message,
    {
        proof {
            reveal_strlit("");
            assert(""@ =~= Seq::<char>::empty());
        }
        self.report_diag(line, "", message);
    }

    /// Runs a source text in a fresh environment: the run acts on one
    /// empty global scope, per [`spec_run`].
    pub fn run(&mut self, source: String) -> (r: Result<(), LoxFailure>)
        requires
            source@.len() < 0x7fff_0000,
        ensures
            exists|env1: EnvV|
                #[trigger] spec_run(source@, old(self)@, final(self)@, env_initial(), env1, r),
    {
        let env = Enviornment::new();
        let (env_out, r) = self.run_with_env(source, env);
        proof {
            assert(spec_run(source@, old(self)@, self@, env_initial(), env_out@, r));
        }
        r
    }

    /// Runs a source text against a given environment (so a driver can keep
    /// state across runs) and hands the environment back.
    ///
    /// Scanning diagnostics fail the run before parsing; parsing
    /// diagnostics fail it before interpretation; a runtime error stops
    /// interpretation and is kept in rendered form. Printed output
    /// accumulates in `output` in statement-execution order. All of this is
    /// stated exactly by [`spec_run`].
    #[verifier::rlimit(100)]
    pub fn run_with_env(&mut self, source: String, env: Enviornment) -> (r: (
        Enviornment,
        Result<(), LoxFailure>,
    ))
        requires
            env_wf(env@),
            env_vals_wf(env@),
            source@.len() < 0x7fff_0000,
        ensures
            env_wf(r.0@),
            env_vals_wf(r.0@),
            spec_run(source@, old(self)@, final(self)@, env@, r.0@, r.1),
    {
        let ghost sc = scan_from(source@, 0, 1);
        let scanned = scan_tokens(source.as_str());
        let mut i: usize = 0;
        let fatal = !scanned.ok;
        let any_scan_diag = scanned.diagnostics.len() > 0;
        while i < scanned.diagnostics.len()
            invariant
                i <= scanned.diagnostics@.len(),
                view_diags(scanned.diagnostics@) == sc.diags,
                view_strings(self.reports@) == view_strings(old(self).reports@) + fmt_diags(
                    sc.diags.take(i as int),
                ),
                self.output == old(self).output,
                self.opts == old(self).opts,
                self.runtime_message == old(self).runtime_message,
                i > 0 ==> self.has_error,
                i == 0 ==> self.has_error == old(self).has_error,
            decreases scanned.diagnostics@.len() - i,
        {
            let ghost reports0 = self.reports@;
            let d = &scanned.diagnostics[i];
            self.error_diag(d.line, d.message.as_str());
            i = i + 1;
            proof {
                lemma_view_strings_push(reports0, self.reports@.last());
                lemma_fmt_diags_take_snoc(sc.diags, i - 1);
            }
        }
        proof {
            if i == scanned.diagnostics@.len() {
                assert(sc.diags.take(sc.diags.len() as int) =~= sc.diags);
            }
        }
        if fatal || any_scan_diag {
            self.has_error = true;
            return (env, Err(LoxFailure::ScanFailed(LoxScanError {})));
        }
        proof {
            assert(sc.diags.take(0) =~= Seq::<DiagV>::empty());
            assert(fmt_diags(Seq::<DiagV>::empty()) =~= Seq::<Seq<char>>::empty());
            assert(view_strings(self.reports@) =~= view_strings(old(self).reports@));
        }
        let ghost ts0 = scanned.tokens@;
        let mut parser = Parser::new(scanned.tokens);
        proof {
            assert(view_diags(Seq::<crate::diagnostics::Diagnostic>::empty()) =~= Seq::<
                DiagV,
            >::empty());
            assert(parser.pstate() == PState { pos: 0, diags: Seq::<DiagV>::empty() });
        }
        let statements = parser.parse();
        let ghost pst = sp_program(ts0, PState { pos: 0, diags: Seq::empty() }).1;
        let mut j: usize = 0;
        let any_parse_diag = parser.diagnostics.len() > 0;
        while j < parser.diagnostics.len()
            invariant
                j <= parser.diagnostics@.len(),
                view_diags(parser.diagnostics@) == pst.diags,
                view_strings(self.reports@) == view_strings(old(self).reports@) + fmt_diags(
                    pst.diags.take(j as int),
                ),
                self.output == old(self).output,
                self.opts == old(self).opts,
                self.runtime_message == old(self).runtime_message,
                j > 0 ==> self.has_error,
                j == 0 ==> self.has_error == old(self).has_error,
            decreases parser.diagnostics@.len() - j,
        {
            let ghost reports0 = self.reports@;
            let d = &parser.diagnostics[j];
            self.error_diag(d.line, d.message.as_str());
            j = j + 1;
            proof {
                lemma_view_strings_push(reports0, self.reports@.last());
                lemma_fmt_diags_take_snoc(pst.diags, j - 1);
            }
        }
        proof {
            if j == parser.diagnostics@.len() {
                assert(pst.diags.take(pst.diags.len() as int) =~= pst.diags);
            }
        }
        if any_parse_diag {
            proof {
                let clk = LoxNum { num: 0, den: 1 };
                assert(run_pipeline(
                    source@,
                    old(self)@,
                    self@,
                    env@,
                    env@,
                    Err(LoxFailure::ParseFailed(LoxParseError {})),
                    ts0,
                    Seq::<Stmt>::empty(),
                    clk,
                ));
            }
            return (env, Err(LoxFailure::ParseFailed(LoxParseError {})));
        }
        proof {
            assert(pst.diags.take(0) =~= Seq::<DiagV>::empty());
            assert(fmt_diags(Seq::<DiagV>::empty()) =~= Seq::<Seq<char>>::empty());
            assert(view_strings(self.reports@) =~= view_strings(old(self).reports@));
        }
        let mut interpreter = Interpreter::new_with_env(env);
        let ghost clk = interpreter@.clock;
        let ghost st0 = StateV {
            env: env_define(env@, "clock"@, ObjectV::Clock),
            output: Seq::empty(),
            clock: clk,
        };
        proof {
            assert(interpreter@ == st0);
        }
        let ghost verdict_state = spec_interpret(statements@, st0);
        let outcome = interpreter.interpret(statements.as_slice());
        let ghost stf = verdict_state.1;
        let mut k: usize = 0;
        let ghost out0 = self.output@;
        while k < interpreter.output.len()
            invariant
                k <= interpreter.output@.len(),
                view_strings(interpreter.output@) == stf.output,
                view_strings(self.output@) == view_strings(out0) + stf.output.take(k as int),
                view_strings(self.reports@) == view_strings(old(self).reports@),
                self.opts == old(self).opts,
                self.has_error == old(self).has_error,
                self.runtime_message == old(self).runtime_message,
            decreases interpreter.output@.len() - k,
        {
            let ghost mine0 = self.output@;
            let line = interpreter.output[k].clone();
            self.output.push(line);
            k = k + 1;
            proof {
                lemma_view_strings_push(mine0, self.output@.last());
                assert(stf.output.take(k as int) =~= stf.output.take(k - 1 as int).push(
                    stf.output[k - 1],
                ));
            }
        }
        proof {
            assert(stf.output.take(stf.output.len() as int) =~= stf.output);
        }
        let env2 = interpreter.into_env();
        match outcome {
            Ok(()) => {
                proof {
                    assert(run_pipeline(
                        source@,
                        old(self)@,
                        self@,
                        env@,
                        env2@,
                        Ok(()),
                        ts0,
                        statements@,
                        clk,
                    ));
                }
                (env2, Ok(()))
            },
            Err(e) => {
                let ghost ev = e@;
                self.runtime_message = Some(e.to_display_string());
                proof {
                    assert(run_pipeline(
                        source@,
                        old(self)@,
                        self@,
                        env@,
                        env2@,
                        Err(LoxFailure::RuntimeFailed(e)),
                        ts0,
                        statements@,
                        clk,
                    ));
                }
                (env2, Err(LoxFailure::RuntimeFailed(e)))
            },
        }
    }
}

impl Default for Lox {
    /// A front end with default options.
    fn default() -> (r: Lox)
        ensures
            r.has_error == false,
    {
        Lox::new(LoxOptions { debug_ast: false })
    }
}

impl LoxError for Lox {
    fn error(&mut self, line: i32, message: &str) {
        self.error_diag(line, message);
    }

    fn report(&mut self, line: i32, wh: &str, message: &str) {
        self.report_diag(line, wh, message);
    }

    fn has_error(&self) -> bool {
        self.has_error
    }
}

} // verus!
