//! Execution of programs: the single global environment that resolves
//! identifiers, and the state that runs declarations in order,
//! collecting printed lines and stopping at the first runtime error.

use vstd::prelude::*;

use crate::config::Config;
use crate::error::ErrorState;
use crate::error::ErrorStateView;
use crate::error::ErrorView;
use crate::eval::spec_eval;
use crate::eval::value_render_view;
use crate::eval::Value;
use crate::eval::ValueView;
use crate::expr::Decl;
use crate::expr::DeclView;
use crate::expr::ExprDataView;
use crate::expr::Program;
use crate::expr::Stmt;
use crate::expr::StmtView;
use crate::eval::runtime_err;
use vstd::hash_map::StringHashMap;

verus! {

/// The single global mapping from identifier names to values. Entries
/// are created or overwritten by variable declarations and read when
/// identifiers evaluate; nothing ever removes one.
pub struct Environment {
    globals: StringHashMap<Value>,
}

impl View for Environment {
    type V = Map<Seq<char>, ValueView>;

    closed spec fn view(&self) -> Map<Seq<char>, ValueView> {
        self.globals@.map_values(|v: Value| v@)
    }
}

impl Environment {
    /// An environment with no bindings.
    pub fn new() -> (r: Self)
        ensures
            r@ == Map::<Seq<char>, ValueView>::empty(),
    {
        let r = Self { globals: StringHashMap::new() };
        proof {
            assert(r@ =~= Map::<Seq<char>, ValueView>::empty());
        }
        r
    }

    /// Binds a name to a value, overwriting any prior binding.
    pub fn insert(&mut self, k: String, v: Value)
        ensures
            final(self)@ == old(self)@.insert(k@, v@),
    {
        let ghost pre = self.globals@;
        let ghost vv = v@;
        self.globals.insert(k, v);
        proof {
            assert(self.globals@.map_values(|x: Value| x@) =~= pre.map_values(|x: Value| x@)
                .insert(k@, vv));
        }
    }

    /// Looks a name up, returning its value, or nothing when the name
    /// is unbound.
    pub fn get(&self, k: &String) -> (r: Option<Value>)
        ensures
            match r {
                Some(v) => self@.contains_key(k@) && v@ == self@[k@],
                None => !self@.contains_key(k@),
            },
    {
        match self.globals.get(k.as_str()) {
            Some(v) => Some(v.clone()),
            None => None,
        }
    }
}

/// What executing one declaration against an environment yields: the
/// new environment, at most one printed line, and the runtime error
/// that stopped it, if one did.
pub struct ExecOut {
    pub env: Map<Seq<char>, ValueView>,
    pub output: Seq<Seq<char>>,
    pub error: Option<ErrorView>,
}

/// Executing one declaration:
///
/// - a variable declaration evaluates its initializer and binds the
///   declared name to the value (the parser only ever places an
///   identifier there; any other target is a runtime error rather than
///   a fault);
/// - an expression statement evaluates for effect and discards the
///   value;
/// - a print statement evaluates and emits the value's printed form.
pub open spec fn spec_exec_decl(d: DeclView, env: Map<Seq<char>, ValueView>) -> ExecOut {
    match d {
        DeclView::VarDecl(id, init) => match spec_eval(init, env) {
            Err(e) => ExecOut { env, output: seq![], error: Some(e) },
            Ok(v) => match id.data {
                ExprDataView::Identifier(s) => ExecOut {
                    env: env.insert(s, v),
                    output: seq![],
                    error: None,
                },
                _ => ExecOut {
                    env,
                    output: seq![],
                    error: Some(runtime_err("expected identifier"@, id.line)),
                },
            },
        },
        DeclView::Stmt(s) => match s {
            StmtView::Expr(e) => match spec_eval(e, env) {
                Err(er) => ExecOut { env, output: seq![], error: Some(er) },
                Ok(_) => ExecOut { env, output: seq![], error: None },
            },
            StmtView::Print(e) => match spec_eval(e, env) {
                Err(er) => ExecOut { env, output: seq![], error: Some(er) },
                Ok(v) => ExecOut { env, output: seq![value_render_view(v)], error: None },
            },
        },
    }
}

/// Executing a program: its declarations run in order, each against the
/// environment the previous ones built; the first runtime error stops
/// the whole run, so nothing after it binds, prints, or evaluates.
pub open spec fn spec_exec(program: Seq<DeclView>, env: Map<Seq<char>, ValueView>) -> ExecOut
    decreases program.len(),
{
    if program.len() == 0 {
        ExecOut { env, output: seq![], error: None }
    } else {
        let first = spec_exec_decl(program[0], env);
        match first.error {
            Some(_) => first,
            None => {
                let rest = spec_exec(program.skip(1), first.env);
                ExecOut { env: rest.env, output: first.output + rest.output, error: rest.error }
            },
        }
    }
}

/// The model of a program vector.
pub open spec fn program_view(p: Seq<Decl>) -> Seq<DeclView> {
    p.map_values(|d: Decl| d@)
}

/// Mathematical model of an [`ExecState`]: its environment and the
/// lines printed so far.
pub struct ExecStateView {
    pub env: Map<Seq<char>, ValueView>,
    pub output: Seq<Seq<char>>,
}

/// The state a program (or an interactive session) runs in: the global
/// environment, and the lines printed so far, kept in order for the
/// caller to emit.
pub struct ExecState {
    config: Config,
    env: Environment,
    output: Vec<String>,
}

impl View for ExecState {
    type V = ExecStateView;

    closed spec fn view(&self) -> ExecStateView {
        ExecStateView { env: self.env@, output: self.output@.map_values(|s: String| s@) }
    }
}

impl ExecState {
    /// A fresh state with no bindings and no output.
    pub fn new(config: Config) -> (r: Self)
        ensures
            r@.env == Map::<Seq<char>, ValueView>::empty(),
            r@.output == Seq::<Seq<char>>::empty(),
    {
        let r = Self { config, env: Environment::new(), output: Vec::new() };
        proof {
            assert(r@.output =~= Seq::<Seq<char>>::empty());
        }
        r
    }

    /// The lines printed so far, in order.
    pub fn output(&self) -> (r: &Vec<String>)
        ensures
            r@.map_values(|s: String| s@) == self@.output,
    {
        &self.output
    }

    /// Runs a program's declarations in order against this state:
    /// exactly [`spec_exec`] of the program against the current
    /// environment. Printed lines are appended to the state's output;
    /// the first runtime error is returned and stops the run, so no
    /// binding or printed line past it is made.
    pub fn exec(&mut self, program: Program) -> (r: Result<(), ErrorState>)
        ensures
            ({
                let out = spec_exec(program_view(program@), old(self)@.env);
                &&& final(self)@.env == out.env
                &&& final(self)@.output == old(self)@.output + out.output
                &&& match r {
                    Ok(_) => out.error is None,
                    Err(st) => out.error matches Some(ev) && st@ == ErrorStateView::RuntimeErr(ev),
                }
            }),
    {
        let ghost pv = program_view(program@);
        let ghost env0 = self@.env;
        let ghost out0 = self@.output;
        let ghost full = spec_exec(pv, env0);
        let ghost mut produced: Seq<Seq<char>> = Seq::empty();
        let n = program.len();
        let mut i: usize = 0;
        proof {
            assert(pv.skip(0) =~= pv);
            assert(produced + spec_exec(pv, env0).output =~= spec_exec(pv, env0).output);
        }
        while i < n
            invariant
                n == program@.len(),
                0 <= i <= n,
                pv == program_view(program@),
                env0 == old(self)@.env,
                out0 == old(self)@.output,
                full == spec_exec(pv, env0),
                self@.output == out0 + produced,
                ({
                    let rest = spec_exec(pv.skip(i as int), self@.env);
                    &&& full.env == rest.env
                    &&& full.error == rest.error
                    &&& full.output == produced + rest.output
                }),
            decreases n - i,
        {
            let ghost i0 = i as int;
            let ghost envc = self@.env;
            proof {
                assert(pv.skip(i0)[0] == pv[i0]);
                assert(pv[i0] == program@[i0]@);
                assert(pv.skip(i0).skip(1) =~= pv.skip(i0 + 1));
            }
            let decl = &program[i];
            match decl {
                Decl::VarDecl(id, e) => {
                    let val = match e.eval(&self.env) {
                        Ok(v) => v,
                        Err(st) => {
                            proof {
                                assert(full.output =~= produced);
                                assert(self@.output =~= out0 + full.output);
                            }
                            return Err(st);
                        },
                    };
                    match &id.data {
                        crate::expr::ExprData::Identifier(s) => {
                            let name = s.clone();
                            self.env.insert(name, val);
                            proof {
                                let first = spec_exec_decl(pv[i0], envc);
                                assert(first.error is None);
                                assert(first.env == self@.env);
                                let rest2 = spec_exec(pv.skip(i0 + 1), self@.env);
                                assert(produced + (first.output + rest2.output) =~= produced
                                    + rest2.output);
                            }
                        },
                        _ => {
                            let st = ErrorState::runtime_error(
                                String::from_str("expected identifier"),
                                id.line,
                            );
                            proof {
                                assert(full.output =~= produced);
                                assert(self@.output =~= out0 + full.output);
                            }
                            return Err(st);
                        },
                    }
                },
                Decl::Stmt(stmt) => match stmt {
                    Stmt::Expr(e) => {
                        match e.eval(&self.env) {
                            Ok(_) => {
                                proof {
                                    let first = spec_exec_decl(pv[i0], envc);
                                    assert(first.error is None);
                                    assert(first.env == self@.env);
                                    let rest2 = spec_exec(pv.skip(i0 + 1), self@.env);
                                    assert(produced + (first.output + rest2.output) =~= produced
                                        + rest2.output);
                                }
                            },
                            Err(st) => {
                                proof {
                                    assert(full.output =~= produced);
                                    assert(self@.output =~= out0 + full.output);
                                }
                                return Err(st);
                            },
                        }
                    },
                    Stmt::Print(e) => {
                        match e.eval(&self.env) {
                            Ok(v) => {
                                let line = v.render();
                                let ghost lv = line@;
                                self.output.push(line);
                                proof {
                                    let first = spec_exec_decl(pv[i0], envc);
                                    assert(first.error is None);
                                    assert(first.env == self@.env);
                                    assert(first.output =~= seq![lv]);
                                    let rest2 = spec_exec(pv.skip(i0 + 1), self@.env);
                                    assert(self.output@.map_values(|s: String| s@)
                                        =~= self.output@.drop_last().map_values(
                                        |s: String| s@,
                                    ).push(lv));
                                    assert(self@.output =~= (out0 + produced).push(lv));
                                    assert((out0 + produced).push(lv) =~= out0 + produced.push(
                                        lv,
                                    ));
                                    assert(produced + (first.output + rest2.output)
                                        =~= produced.push(lv) + rest2.output);
                                    produced = produced.push(lv);
                                }
                            },
                            Err(st) => {
                                proof {
                                    assert(full.output =~= produced);
                                    assert(self@.output =~= out0 + full.output);
                                }
                                return Err(st);
                            },
                        }
                    },
                },
            }
            i = i + 1;
        }
        proof {
            assert(pv.skip(n as int) =~= Seq::<DeclView>::empty());
            assert(full.output =~= produced);
            assert(self@.output =~= out0 + full.output);
        }
        Ok(())
    }
}


impl ExecState {
    /// Runs one chunk of source text against this state: scanning,
    /// parsing, then executing. Scan or parse diagnostics are returned
    /// with the state untouched; otherwise the program runs as
    /// [`ExecState::exec`] does. The line counter must not be able to
    /// overflow across the text's newlines.
    pub fn run(&mut self, text: &str, starting_line: u32) -> (r: Result<(), ErrorState>)
        requires
            starting_line + crate::scanner::newline_count(text@) <= u32::MAX,
        ensures
            ({
                let sc = crate::scanner::spec_scan(text@, starting_line);
                let pr = crate::parser::spec_parse(sc.tokens);
                if sc.errors.len() > 0 {
                    &&& *final(self) == *old(self)
                    &&& r matches Err(st) && st@ == ErrorStateView::ScanErrs(sc.errors)
                } else if pr.errors.len() > 0 {
                    &&& *final(self) == *old(self)
                    &&& r matches Err(st) && st@ == ErrorStateView::ParseErrs(pr.errors)
                } else {
                    let out = spec_exec(pr.decls, old(self)@.env);
                    &&& final(self)@.env == out.env
                    &&& final(self)@.output == old(self)@.output + out.output
                    &&& match r {
                        Ok(_) => out.error is None,
                        Err(st) => out.error matches Some(ev) && st@
                            == ErrorStateView::RuntimeErr(ev),
                    }
                }
            }),
    {
        let tokens = match crate::scanner::scan(text, starting_line) {
            Ok(tokens) => tokens,
            Err(st) => {
                return Err(st);
            },
        };
        proof {
            crate::scanner::lemma_spec_scan_tokens_wf(text@, starting_line);
        }
        let program = match crate::parser::parse(tokens) {
            Ok(program) => program,
            Err(st) => {
                return Err(st);
            },
        };
        self.exec(program)
    }
}

} // verus!
