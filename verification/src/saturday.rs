use vstd::prelude::*;
use crate::arithmetic::{numbers, Arithmetic, Numbers};
use crate::callable::Callable;
use crate::error::{complaint_of, complaints_of, Complaint, SaturdayResult};
use crate::grammar::{program, stmt_models, Cursor, Parsed, StmtModel};
use crate::interpreter::Interpreter;
use crate::native_functions::NativeClock;
use crate::numbering::tagged_stmts;
use crate::object::Object;
use crate::parser::Parser;
use crate::resolver::{fresh_analysis, resolved_stmts, Analysis, Resolver};
use crate::scanner::{
    describes_all, faults, lemma_lexemes_end, lexemes, reports, reports_all, Scanner,
};
use crate::semantics::{given2, interprets, Completion, State};
use crate::soundness::{
    annotated_stmts, lemma_session_resolved, lemma_session_run, lemma_session_wider, session_fits,
    Scopes,
};
use crate::stmt::Stmt;
use crate::token::Token;

verus! {

/// The language as a whole: an interpreter that lives from one source text
/// to the next, as in an interactive session, so that what one text defines
/// is there for the texts that follow.
pub struct Saturday {
    interpreter: Interpreter,
    next_id: u64,
    reports: Vec<SaturdayResult>,
    /// For every function made so far, the scopes around its declaration.
    around: Ghost<Seq<Scopes>>,
}

/// Whether `r` is an error of the parser or resolver that says `c`.
pub open spec fn complains(r: Completion, c: Complaint) -> bool {
    r matches Err(e) && e is ParseError && complaint_of(e) == c
}

/// What the parser makes of a token stream, where `first_id` is the first
/// identity that is free.
#[verifier::opaque]
pub open spec fn parsed_from(tokens: Seq<Token>, first_id: nat) -> Parsed<Seq<StmtModel>> {
    program(tokens, Cursor { pos: 0, id: first_id, errors: Seq::empty() }, Seq::empty())
}

/// What the resolver makes of a program, where `locals` are the distances
/// recorded for earlier programs.
#[verifier::opaque]
pub open spec fn analysed_from(locals: Map<u64, usize>, statements: Seq<Stmt>) -> Analysis {
    resolved_stmts(fresh_analysis(locals), statements, 0)
}

/// What executing a program does.
#[verifier::opaque]
pub open spec fn executed(
    num: Numbers,
    pre: State,
    statements: Seq<Stmt>,
    fuel: nat,
    post: State,
    r: Completion,
) -> bool {
    interprets(num, pre, statements, 0, fuel, post, r)
}

/// What running the tokens of a source text does, where `first_id` is the
/// first identity that is free.
///
/// The tokens are parsed. If the parser reports an error, nothing else
/// happens and the first of its errors is the result. Otherwise the resolver
/// analyses the statements and records its distances. If it finds an error,
/// the first of its errors is the result and no statement is executed.
/// Otherwise the statements are executed. The reports `told` are every
/// error of the phase that ended the run, in their order.
pub open spec fn runs_tokens(
    num: Numbers,
    pre: State,
    first_id: nat,
    fuel: nat,
    tokens: Seq<Token>,
    statements: Seq<Stmt>,
    post: State,
    next_id: nat,
    told: Seq<SaturdayResult>,
    r: Completion,
) -> bool {
    let parsed = parsed_from(tokens, first_id);
    &&& next_id == parsed.cursor.id
    &&& if parsed.cursor.errors.len() > 0 {
        post == pre && complains(r, parsed.cursor.errors[0]) && tells(told, parsed.cursor.errors)
    } else {
        let analysed = analysed_from(pre.locals, statements);
        let noted = State { locals: analysed.locals, ..pre };
        &&& parsed.value == Some(stmt_models(statements, statements.len()))
        &&& if analysed.errors.len() > 0 {
            post == noted && complains(r, analysed.errors[0]) && tells(told, analysed.errors)
        } else {
            executed(num, noted, statements, fuel, post, r) && told == ended_with(r)
        }
    }
}

/// Whether the reports `told` are errors of the parser or resolver that say
/// `cs`, one by one.
pub open spec fn tells(told: Seq<SaturdayResult>, cs: Seq<Complaint>) -> bool {
    &&& complaints_of(told) == cs
    &&& forall|i: int| 0 <= i < told.len() ==> (#[trigger] told[i]) is ParseError
}

/// The reports of a run that got as far as executing: none after success,
/// else the one error that ended it.
pub open spec fn ended_with(r: Completion) -> Seq<SaturdayResult> {
    match r {
        Ok(_) => Seq::empty(),
        Err(e) => seq![e],
    }
}

/// What running a source text does.
///
/// The text is scanned. If the scanner finds a fault, nothing else happens,
/// the first fault is the result and every fault is reported. If there are
/// more tokens than identities left, the result is a system error.
/// Otherwise the tokens are run, as `runs_tokens` says.
pub open spec fn runs(
    num: Numbers,
    pre: State,
    first_id: nat,
    fuel: nat,
    source: Seq<char>,
    post: State,
    next_id: nat,
    told: Seq<SaturdayResult>,
    r: Completion,
) -> bool {
    if faults(source, 0).len() > 0 {
        &&& post == pre
        &&& next_id == first_id
        &&& r matches Err(e) && reports(faults(source, 0)[0], e)
        &&& reports_all(faults(source, 0), told)
    } else if first_id + lexemes(source, 0).len() > u64::MAX {
        &&& post == pre
        &&& next_id == first_id
        &&& r matches Err(e) && e is SystemError
        &&& told == ended_with(r)
    } else {
        exists|tokens: Seq<Token>, statements: Seq<Stmt>| #[trigger]
            given2(tokens, statements) && describes_all(lexemes(source, 0), source, tokens)
                && runs_tokens(
                num,
                pre,
                first_id,
                fuel,
                tokens,
                statements,
                post,
                next_id,
                told,
                r,
            )
    }
}

impl Saturday {
    /// The state of the interpreter.
    pub closed spec fn state(&self) -> State {
        self.interpreter.state()
    }

    /// The first identity that is free for the uses of variables of the next program.
    pub closed spec fn free_id(&self) -> nat {
        self.next_id as nat
    }

    /// What every evaluation is allowed.
    pub closed spec fn allowance(&self) -> nat {
        self.interpreter.allowance()
    }

    /// The errors that the last run reported.
    pub closed spec fn reported(&self) -> Seq<SaturdayResult> {
        self.reports@
    }

    /// The interpreter is well formed, and the records of the resolver are
    /// right for every function made so far.
    pub closed spec fn wf(&self) -> bool {
        self.settled(self.next_id as nat)
    }

    /// As `wf`, where the identities below `next` are given out.
    spec fn settled(&self, next: nat) -> bool {
        self.interpreter.wf() && session_fits(next, self.around@, self.interpreter.state())
    }

    /// A session with a new interpreter: its only environment holds the
    /// globals, in which `clock` is bound to the builtin clock; nothing is
    /// recorded, no function is made and nothing is printed.
    pub fn new() -> (r: Self)
        ensures
            r.wf(),
            r.free_id() == 0,
            r.reported().len() == 0,
            r.allowance() == u64::MAX,
            r.state().active == 0,
            r.state().arena.len() == 1,
            r.state().arena[0].parent() is None,
            r.state().arena[0].bindings() == Map::<Seq<char>, Object>::empty().insert(
                "clock"@,
                Object::Func(Callable::Native(NativeClock)),
            ),
            r.state().functions.len() == 0,
            r.state().locals == Map::<u64, usize>::empty(),
            r.state().output.len() == 0,
    {
        let r = Self {
            interpreter: Interpreter::new(),
            next_id: 0,
            reports: Vec::new(),
            around: Ghost(Seq::empty()),
        };
        assert(r.interpreter.state().locals.dom() =~= Set::<u64>::empty());
        r
    }

    /// Sets what every evaluation is allowed from now on.
    pub fn set_budget(&mut self, budget: u64)
        ensures
            final(self).state() == old(self).state(),
            final(self).wf() == old(self).wf(),
            final(self).free_id() == old(self).free_id(),
            final(self).allowance() == budget,
    {
        self.interpreter.set_budget(budget);
    }

    /// Hands out the lines printed since the last call, oldest first.
    pub fn take_output(&mut self) -> (lines: Vec<String>)
        ensures
            lines@ == old(self).state().output,
            final(self).state() == (State { output: Seq::empty(), ..old(self).state() }),
            final(self).wf() == old(self).wf(),
            final(self).free_id() == old(self).free_id(),
            final(self).allowance() == old(self).allowance(),
    {
        let lines = self.interpreter.take_output();
        assert(final(self).wf() == old(self).wf()) by {
            let a = old(self).interpreter.state();
            let b = self.interpreter.state();
            assert(session_fits(self.next_id as nat, self.around@, a) == session_fits(
                self.next_id as nat,
                self.around@,
                b,
            ));
        }
        lines
    }

    /// The errors that the last run reported: every error of the first
    /// phase that found one.
    pub fn reports(&self) -> (r: &Vec<SaturdayResult>)
        ensures
            r@ == self.reported(),
    {
        &self.reports
    }

    /// Writes the active environment: its variables, then those of the
    /// environment that encloses it, and so on outward.
    pub fn print_environment(&self) -> (s: String)
        requires
            self.wf(),
        ensures
            s@ == self.state().described(),
    {
        self.interpreter.print_environment()
    }

    /// Runs a source text: scans it, parses it, resolves it and executes it.
    /// The result is the first error of the first phase that found one.
    pub fn run<A: Arithmetic>(&mut self, unit: &A, source: String) -> (r: Completion)
        requires
            old(self).wf(),
            source@.len() < usize::MAX,
        ensures
            final(self).wf(),
            final(self).allowance() == old(self).allowance(),
            runs(
                numbers(unit),
                old(self).state(),
                old(self).free_id(),
                old(self).allowance(),
                source@,
                final(self).state(),
                final(self).free_id(),
                final(self).reported(),
                r,
            ),
            r matches Err(e) ==> final(self).reported().len() > 0 && final(self).reported()[0] == e,
            r is Ok ==> final(self).reported().len() == 0,
            !(r matches Err(SaturdayResult::Fail)),
    {
        self.reports = Vec::new();
        let mut scanner = Scanner::new(source);
        let tokens = match scanner.scan_tokens() {
            Ok(tokens) => tokens,
            Err(e) => {
                self.reports = copy_errors(scanner.errors());
                return Err(e);
            },
        };
        proof {
            lemma_lexemes_end(source@, 0);
            assert(tokens@ =~= tokens@.subrange(0, tokens@.len() as int));
        }
        if tokens.len() as u64 > u64::MAX - self.next_id {
            let e = SaturdayResult::system_error("Too many tokens.");
            self.reports.push(e.clone_error());
            assert(self.reports@ =~= seq![e]);
            return Err(e);
        }
        let ghost ts = tokens@;
        let (r, Ghost(statements)) = self.run_tokens(unit, tokens);
        proof {
            assert(given2(ts, statements));
        }
        r
    }

    /// Runs the tokens of a source text: parses them, resolves the
    /// statements and executes them. Besides the result it names the
    /// statements that the tokens stand for.
    fn run_tokens<A: Arithmetic>(&mut self, unit: &A, tokens: Vec<Token>) -> (r: (
        Completion,
        Ghost<Seq<Stmt>>,
    ))
        requires
            old(self).wf(),
            old(self).reports@.len() == 0,
            tokens@.len() > 0,
            tokens@.last().t_type == crate::token_type::TokenType::Eof,
            old(self).next_id + tokens@.len() <= u64::MAX,
        ensures
            final(self).wf(),
            final(self).allowance() == old(self).allowance(),
            runs_tokens(
                numbers(unit),
                old(self).state(),
                old(self).free_id(),
                old(self).allowance(),
                tokens@,
                r.1@,
                final(self).state(),
                final(self).free_id(),
                final(self).reported(),
                r.0,
            ),
            r.0 matches Err(e) ==> final(self).reported().len() > 0 && final(self).reported()[0]
                == e,
            r.0 is Ok ==> final(self).reported().len() == 0,
            !(r.0 matches Err(SaturdayResult::Fail)),
    {
        let ghost lo = self.next_id as nat;
        let statements = match self.parse(tokens) {
            Ok(statements) => statements,
            Err(e) => {
                return (Err(e), Ghost(Seq::empty()));
            },
        };
        match self.analyse(&statements, Ghost(lo)) {
            Some(e) => {
                return (Err(e), Ghost(statements@));
            },
            None => {},
        }
        (self.execute(unit, &statements, Ghost(lo)), Ghost(statements@))
    }

    /// Parses a token stream.
    fn parse(&mut self, tokens: Vec<Token>) -> (r: Result<Vec<Stmt>, SaturdayResult>)
        requires
            old(self).wf(),
            old(self).reports@.len() == 0,
            tokens@.len() > 0,
            tokens@.last().t_type == crate::token_type::TokenType::Eof,
            old(self).next_id + tokens@.len() <= u64::MAX,
        ensures
            final(self).interpreter == old(self).interpreter,
            final(self).around == old(self).around,
            final(self).next_id >= old(self).next_id,
            final(self).free_id() == parsed_from(tokens@, old(self).free_id()).cursor.id,
            r is Err ==> final(self).wf(),
            match r {
                Ok(statements) => {
                    &&& tagged_stmts(statements@, old(self).free_id(), final(self).free_id())
                    &&& final(self).reports@.len() == 0
                    &&& parsed_from(tokens@, old(self).free_id()).cursor.errors.len() == 0
                    &&& parsed_from(tokens@, old(self).free_id()).value == Some(
                        stmt_models(statements@, statements@.len()),
                    )
                },
                Err(e) => {
                    &&& final(self).reports@.len() > 0
                    &&& final(self).reports@[0] == e
                    &&& parsed_from(tokens@, old(self).free_id()).cursor.errors.len() > 0
                    &&& complains(
                        Err::<(), SaturdayResult>(e),
                        parsed_from(tokens@, old(self).free_id()).cursor.errors[0],
                    )
                    &&& tells(
                        final(self).reports@,
                        parsed_from(tokens@, old(self).free_id()).cursor.errors,
                    )
                },
            },
    {
        reveal(parsed_from);
        let mut parser = Parser::with_first_id(tokens, self.next_id);
        let parsed = parser.parse();
        self.next_id = parser.next_id();
        proof {
            lemma_session_wider(
                old(self).next_id as nat,
                self.next_id as nat,
                self.around@,
                self.interpreter.state(),
            );
        }
        match parsed {
            Ok(statements) => Ok(statements),
            Err(e) => {
                self.reports = copy_errors(parser.errors());
                Err(e)
            },
        }
    }

    /// Resolves a program. The result is the first error, if there is one.
    fn analyse(&mut self, statements: &Vec<Stmt>, Ghost(lo): Ghost<nat>) -> (r: Option<
        SaturdayResult,
    >)
        requires
            old(self).settled(lo),
            lo <= old(self).next_id,
            tagged_stmts(statements@, lo, old(self).next_id as nat),
            old(self).reports@.len() == 0,
        ensures
            r is None ==> annotated_stmts(
                final(self).state().locals,
                Seq::empty(),
                statements@,
                0,
            ),
            final(self).wf(),
            final(self).allowance() == old(self).allowance(),
            final(self).next_id == old(self).next_id,
            final(self).state() == (State {
                locals: analysed_from(old(self).state().locals, statements@).locals,
                ..old(self).state()
            }),
            match r {
                Some(e) => {
                    &&& final(self).reports@.len() > 0
                    &&& final(self).reports@[0] == e
                    &&& analysed_from(old(self).state().locals, statements@).errors.len() > 0
                    &&& complains(
                        Err::<(), SaturdayResult>(e),
                        analysed_from(old(self).state().locals, statements@).errors[0],
                    )
                    &&& tells(
                        final(self).reports@,
                        analysed_from(old(self).state().locals, statements@).errors,
                    )
                },
                None => {
                    &&& final(self).reports@.len() == 0
                    &&& analysed_from(old(self).state().locals, statements@).errors.len() == 0
                },
            },
    {
        reveal(analysed_from);
        let mut resolver = Resolver::new();
        proof {
            lemma_session_resolved(
                lo,
                self.next_id as nat,
                self.around@,
                self.interpreter.state(),
                statements@,
            );
        }
        let _ = resolver.resolve(&mut self.interpreter, statements);
        if !resolver.success() {
            self.reports = copy_errors(resolver.errors());
            Some(resolver.errors()[0].clone_error())
        } else {
            None
        }
    }

    /// Executes a program.
    fn execute<A: Arithmetic>(&mut self, unit: &A, statements: &Vec<Stmt>, Ghost(lo): Ghost<nat>) -> (r:
        Completion)
        requires
            old(self).wf(),
            old(self).reports@.len() == 0,
            lo <= old(self).next_id,
            tagged_stmts(statements@, lo, old(self).next_id as nat),
            annotated_stmts(old(self).state().locals, Seq::empty(), statements@, 0),
        ensures
            !(r matches Err(SaturdayResult::Fail)),
            final(self).wf(),
            final(self).allowance() == old(self).allowance(),
            final(self).next_id == old(self).next_id,
            executed(
                numbers(unit),
                old(self).state(),
                statements@,
                old(self).allowance(),
                final(self).state(),
                r,
            ),
            final(self).reports@ == ended_with(r),
    {
        reveal(executed);
        let ghost pre = self.interpreter.state();
        let r = self.interpreter.interpreter(unit, statements);
        let ghost out = lemma_session_run(
            numbers(unit),
            self.next_id as nat,
            self.around@,
            pre,
            statements@,
            self.interpreter.allowance(),
            self.interpreter.state(),
            r,
        );
        self.around = Ghost(out);
        match &r {
            Ok(_) => {},
            Err(e) => {
                self.reports.push(e.clone_error());
                assert(self.reports@ =~= seq![*e]);
            },
        }
        r
    }

    /// The status with which a program ends that ended with `result`: 0
    /// after success, 65 after an error that was found before the program
    /// ran, 70 after any other.
    pub fn exit_code(result: &Completion) -> (code: u8)
        ensures
            code == match *result {
                Ok(_) => 0u8,
                Err(SaturdayResult::ParseError { .. }) => 65u8,
                Err(SaturdayResult::Error { .. }) => 65u8,
                Err(_) => 70u8,
            },
    {
        match result {
            Ok(_) => 0,
            Err(SaturdayResult::ParseError { .. }) => 65,
            Err(SaturdayResult::Error { .. }) => 65,
            Err(_) => 70,
        }
    }
}

/// A copy of a list of errors.
pub fn copy_errors(errors: &Vec<SaturdayResult>) -> (r: Vec<SaturdayResult>)
    ensures
        r@ == errors@,
{
    let mut out: Vec<SaturdayResult> = Vec::new();
    let mut i: usize = 0;
    while i < errors.len()
        invariant
            i <= errors.len(),
            out@ == errors@.subrange(0, i as int),
        decreases errors.len() - i,
    {
        out.push(errors[i].clone_error());
        i = i + 1;
        assert(out@ =~= errors@.subrange(0, i as int));
    }
    assert(out@ =~= errors@);
    out
}

} // verus!
