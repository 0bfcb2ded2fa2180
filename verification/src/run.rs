//! Running a whole program: its functions are registered first, then its
//! statements, `let` declarations and `system` declarations run in order.
use vstd::prelude::*;
use crate::ast::{TopLevel, STopLevel};
use crate::semantics::{SValue, EvalState, ExprOut, StmtOut, FuncTable, eval_expr, eval_stmt};
use crate::interpreter::{
    Environment, Value, FloatHost, Outcome, StmtOutcome, STEP_LIMIT, settle_expr, settle_stmt, vars_view,
    funcs_view, outs_view, state, x_expr, x_stmt, lemma_vars_insert,
};
use crate::report::{system_report, lines_of, ReportPiece, SPiece};
use crate::text::lit;

verus! {

/// What running a program reports, in order.
#[derive(Debug, Clone, PartialEq)]
pub enum RunEvent {
    /// A value that `print` emitted.
    Output(Value),
    /// A statement stopped with this run-time error.
    RuntimeError(String),
    /// A `let` declaration (its name) stopped with this run-time error.
    LetError(String, String),
    /// The report lines of a `system` declaration.
    SystemReport(Vec<Vec<ReportPiece>>),
    /// An integer division by zero, or of the least integer by -1: the program
    /// aborts.
    DivisionFault,
}

pub enum SEvent {
    Output(SValue),
    RuntimeError(Seq<char>),
    LetError(Seq<char>, Seq<char>),
    SystemReport(Seq<Seq<SPiece>>),
    DivisionFault,
}

impl RunEvent {
    pub open spec fn view(&self) -> SEvent {
        match self {
            RunEvent::Output(v) => SEvent::Output(v.view()),
            RunEvent::RuntimeError(m) => SEvent::RuntimeError(m@),
            RunEvent::LetError(n, m) => SEvent::LetError(n@, m@),
            RunEvent::SystemReport(lines) => SEvent::SystemReport(lines_of(lines@)),
            RunEvent::DivisionFault => SEvent::DivisionFault,
        }
    }
}

pub open spec fn events_view(v: Seq<RunEvent>) -> Seq<SEvent> {
    v.map_values(|e: RunEvent| e.view())
}

pub open spec fn outputs(o: Seq<SValue>) -> Seq<SEvent> {
    o.map_values(|v: SValue| SEvent::Output(v))
}

/// The functions after registering those that a program declares; a later
/// declaration of a name replaces an earlier one.
pub open spec fn register_funcs(funcs: FuncTable, ast: Seq<STopLevel>) -> FuncTable
    decreases ast.len(),
{
    if ast.len() == 0 {
        funcs
    } else {
        let prev = register_funcs(funcs, ast.drop_last());
        match ast.last() {
            STopLevel::FuncDecl(f) => prev.insert(f.name, f),
            _ => prev,
        }
    }
}

/// Running one item of a program with variables `vars` and host replies `tape`:
/// the events it reports, the variables and replies after it, and whether the
/// program aborts.
pub open spec fn run_item(f: FuncTable, item: STopLevel, vars: Map<Seq<char>, SValue>, tape: Seq<u64>) -> (
    Seq<SEvent>,
    Map<Seq<char>, SValue>,
    Seq<u64>,
    bool,
) {
    let st = EvalState { vars, out: Seq::empty(), tape };
    match item {
        STopLevel::Stmt(s) => {
            let (o, st1) = eval_stmt(STEP_LIMIT as nat, f, s, st);
            let tail = match settle_stmt(o) {
                StmtOut::Error(m) => seq![SEvent::RuntimeError(m)],
                StmtOut::Fault => seq![SEvent::DivisionFault],
                _ => Seq::empty(),
            };
            (outputs(st1.out) + tail, st1.vars, st1.tape, o is Fault)
        },
        STopLevel::LetDecl { name, value } => {
            let (o, st1) = eval_expr(STEP_LIMIT as nat, f, value, st);
            match settle_expr(o) {
                ExprOut::Val(v) => (outputs(st1.out), st1.vars.insert(name, v), st1.tape, false),
                ExprOut::Error(m) => (outputs(st1.out) + seq![SEvent::LetError(name, m)], st1.vars, st1.tape, false),
                _ => (outputs(st1.out) + seq![SEvent::DivisionFault], st1.vars, st1.tape, true),
            }
        },
        STopLevel::SystemDecl { units } => (seq![SEvent::SystemReport(system_report(units))], vars, tape, false),
        _ => (Seq::empty(), vars, tape, false),
    }
}

/// Running the items of a program in order until one aborts: the events and
/// the final variables.
pub open spec fn run_from(f: FuncTable, items: Seq<STopLevel>, vars: Map<Seq<char>, SValue>, tape: Seq<u64>) -> (
    Seq<SEvent>,
    Map<Seq<char>, SValue>,
)
    decreases items.len(),
{
    if items.len() == 0 {
        (Seq::empty(), vars)
    } else {
        let (ev, v1, t1, stop) = run_item(f, items[0], vars, tape);
        if stop {
            (ev, v1)
        } else {
            let (ev2, v2) = run_from(f, items.drop_first(), v1, t1);
            (ev + ev2, v2)
        }
    }
}

pub open spec fn program_view(p: Seq<TopLevel>) -> Seq<STopLevel> {
    p.map_values(|t: TopLevel| t.view())
}

/// Running the rest of a program from variables `v` with replies `used` and
/// then anything gives `done` followed by what the rest gives.
pub open spec fn run_continues(
    f: FuncTable,
    all: Seq<STopLevel>,
    v0: Map<Seq<char>, SValue>,
    used: Seq<u64>,
    done: Seq<SEvent>,
    rest_items: Seq<STopLevel>,
    v: Map<Seq<char>, SValue>,
) -> bool {
    forall|rest: Seq<u64>| #[trigger]
        run_from(f, all, v0, used + rest) == (done + run_from(f, rest_items, v, rest).0, run_from(
            f,
            rest_items,
            v,
            rest,
        ).1)
}

proof fn lemma_funcs_insert(m: Map<Seq<char>, crate::ast::FuncDecl>, k: Seq<char>, d: crate::ast::FuncDecl)
    ensures
        funcs_view(m.insert(k, d)) == funcs_view(m).insert(k, d.view()),
{
    assert(funcs_view(m.insert(k, d)) =~= funcs_view(m).insert(k, d.view()));
}

fn push_event(events: &mut Vec<RunEvent>, e: RunEvent)
    ensures
        events_view(final(events)@) == events_view(old(events)@).push(e.view()),
{
    let ghost before = events@;
    events.push(e);
    assert(events_view(events@) =~= events_view(before).push(e.view()));
}

fn push_outputs(events: &mut Vec<RunEvent>, out: &Vec<Value>)
    ensures
        events_view(final(events)@) == events_view(old(events)@) + outputs(outs_view(out@)),
{
    let ghost e0 = events_view(events@);
    let mut i: usize = 0;
    while i < out.len()
        invariant
            i <= out@.len(),
            events_view(events@) == e0 + outputs(outs_view(out@.take(i as int))),
        decreases out@.len() - i,
    {
        let ghost before = events@;
        push_event(events, RunEvent::Output(out[i].duplicate()));
        proof {
            assert(outputs(outs_view(out@.take(i + 1))) =~= outputs(outs_view(out@.take(i as int))).push(
                SEvent::Output(out@[i as int].view()),
            ));
            assert(events_view(events@) =~= events_view(before).push(SEvent::Output(out@[i as int].view())));
        }
        i = i + 1;
    }
    proof {
        assert(out@.take(out@.len() as int) =~= out@);
    }
}

proof fn lemma_assoc_u64(a: Seq<u64>, b: Seq<u64>, c: Seq<u64>)
    ensures
        (a + b) + c == a + (b + c),
{
    assert((a + b) + c =~= a + (b + c));
}

proof fn lemma_assoc_ev(a: Seq<SEvent>, b: Seq<SEvent>, c: Seq<SEvent>)
    ensures
        (a + b) + c == a + (b + c),
{
    assert((a + b) + c =~= a + (b + c));
}

impl Environment {
    /// Runs a program: registers every function it declares (a later
    /// declaration of a name replaces an earlier one), then runs its items in
    /// order. A statement that fails reports its error and the run goes on; a
    /// `let` binds its name to the value of its expression, or reports the
    /// error; a `system` declaration reports its configuration; `print` output
    /// is reported as it happens. A division fault is reported and ends the
    /// run.
    pub fn run_program<H: FloatHost>(&mut self, program: &[TopLevel], host: &H) -> (r: Vec<RunEvent>)
        ensures
            funcs_view(final(self).functions@) == register_funcs(funcs_view(old(self).functions@), program_view(program@)),
            final(self).output@ == old(self).output@,
            exists|tape: Seq<u64>|
                #[trigger] run_from(funcs_view(final(self).functions@), program_view(program@), vars_view(old(self).variables@), tape)
                    == (events_view(r@), vars_view(final(self).variables@)),
    {
        let ghost pv = program_view(program@);
        let ghost f0 = funcs_view(self.functions@);
        // Register the functions.
        let mut i: usize = 0;
        proof {
            assert(pv.take(0) =~= Seq::<STopLevel>::empty());
        }
        while i < program.len()
            invariant
                i <= program@.len(),
                pv == program_view(program@),
                funcs_view(self.functions@) == register_funcs(f0, pv.take(i as int)),
                f0 == funcs_view(old(self).functions@),
                self.output@ == old(self).output@,
                self.variables@ == old(self).variables@,
            decreases program@.len() - i,
        {
            proof {
                assert(pv.take(i + 1).drop_last() =~= pv.take(i as int));
                assert(pv.take(i + 1).last() == program@[i as int].view());
            }
            match &program[i] {
                TopLevel::FuncDecl(func) => {
                    let ghost before = self.functions@;
                    self.functions.insert(func.name.clone(), func.duplicate());
                    proof {
                        lemma_funcs_insert(before, func.name@, *func);
                    }
                },
                _ => {},
            }
            i = i + 1;
        }
        proof {
            assert(pv.take(program@.len() as int) =~= pv);
        }
        let ghost f = funcs_view(self.functions@);
        let ghost v0 = vars_view(self.variables@);
        let mut events: Vec<RunEvent> = Vec::new();
        let ghost mut used: Seq<u64> = Seq::empty();
        let mut k: usize = 0;
        proof {
            assert(pv.skip(0) =~= pv);
            assert forall|rest: Seq<u64>| #[trigger] run_from(f, pv, v0, used + rest) == (events_view(events@) + run_from(f, pv.skip(0), v0, rest).0, run_from(f, pv.skip(0), v0, rest).1) by {
                assert(used + rest =~= rest);
                assert(events_view(events@) + run_from(f, pv, v0, rest).0 =~= run_from(f, pv, v0, rest).0);
            }
        }
        while k < program.len()
            invariant
                k <= program@.len(),
                pv == program_view(program@),
                f == funcs_view(self.functions@),
                f == register_funcs(f0, pv),
                f0 == funcs_view(old(self).functions@),
                v0 == vars_view(old(self).variables@),
                self.output@ == old(self).output@,
                run_continues(f, pv, v0, used, events_view(events@), pv.skip(k as int), vars_view(self.variables@)),
            decreases program@.len() - k,
        {
            let ghost item = pv[k as int];
            let ghost vk = vars_view(self.variables@);
            let ghost ek = events_view(events@);
            proof {
                assert(pv.skip(k as int)[0] == item);
                assert(pv.skip(k as int).drop_first() =~= pv.skip(k + 1));
                assert(item == program@[k as int].view());
            }
            match &program[k] {
                TopLevel::Stmt(s) => {
                    let mut out: Vec<Value> = Vec::new();
                    let ghost out0 = out@;
                    let ghost w0 = self.variables@;
                    let (o, u) = x_stmt(&self.functions, &mut self.variables, &mut out, s, STEP_LIMIT, host);
                    let ghost res = o.view();
                    push_outputs(&mut events, &out);
                    let fault = match o {
                        StmtOutcome::Error(m) => {
                            push_event(&mut events, RunEvent::RuntimeError(m));
                            false
                        },
                        StmtOutcome::OutOfFuel => {
                            push_event(&mut events, RunEvent::RuntimeError(lit("Evaluation step limit reached")));
                            false
                        },
                        StmtOutcome::Fault => {
                            push_event(&mut events, RunEvent::DivisionFault);
                            true
                        },
                        _ => false,
                    };
                    proof {
                        assert(outs_view(out0) =~= Seq::<SValue>::empty());
                        assert(item == STopLevel::Stmt(s.view()));
                        let ev = run_item(f, item, vk, u@ + Seq::<u64>::empty()).0;
                        assert forall|rest: Seq<u64>| #[trigger] run_item(f, item, vk, u@ + rest) == (ev, vars_view(self.variables@), rest, fault) by {
                            assert(eval_stmt(STEP_LIMIT as nat, f, s.view(), state(w0, out0, u@ + Seq::<u64>::empty())) == (res, state(self.variables@, out@, Seq::<u64>::empty())));
                            assert(eval_stmt(STEP_LIMIT as nat, f, s.view(), state(w0, out0, u@ + rest)) == (res, state(self.variables@, out@, rest)));
                        }
                        assert(events_view(events@) =~= ek + ev) by {
                            assert(eval_stmt(STEP_LIMIT as nat, f, s.view(), state(w0, out0, u@ + Seq::<u64>::empty())) == (res, state(self.variables@, out@, Seq::<u64>::empty())));
                        }
                        lemma_step(f, pv, v0, used, ek, pv.skip(k as int), vk, u@, ev, vars_view(self.variables@), fault);
                        used = used + u@;
                    }
                    if fault {
                        proof {
                            assert(used + Seq::<u64>::empty() =~= used);
                            assert(run_from(f, pv, v0, used + Seq::<u64>::empty()) == (events_view(events@), vars_view(self.variables@)));
                            assert(run_from(funcs_view(self.functions@), program_view(program@), vars_view(old(self).variables@), used) == (events_view(events@), vars_view(self.variables@)));
                        }
                        return events;
                    }
                },
                TopLevel::LetDecl { name, value } => {
                    let mut out: Vec<Value> = Vec::new();
                    let ghost out0 = out@;
                    let ghost w0 = self.variables@;
                    let (o, u) = x_expr(&self.functions, &mut self.variables, &mut out, value, STEP_LIMIT, host);
                    let ghost res = o.view();
                    let ghost w1 = self.variables@;
                    push_outputs(&mut events, &out);
                    let fault = match o {
                        Outcome::Val(v) => {
                            proof {
                                lemma_vars_insert(w1, name@, v);
                            }
                            self.variables.insert(name.clone(), v);
                            false
                        },
                        Outcome::Error(m) => {
                            push_event(&mut events, RunEvent::LetError(name.clone(), m));
                            false
                        },
                        Outcome::OutOfFuel => {
                            push_event(&mut events, RunEvent::LetError(name.clone(), lit("Evaluation step limit reached")));
                            false
                        },
                        Outcome::Fault => {
                            push_event(&mut events, RunEvent::DivisionFault);
                            true
                        },
                    };
                    proof {
                        assert(outs_view(out0) =~= Seq::<SValue>::empty());
                        assert(item == STopLevel::LetDecl { name: name@, value: value.view() });
                        let ev = run_item(f, item, vk, u@ + Seq::<u64>::empty()).0;
                        assert forall|rest: Seq<u64>| #[trigger] run_item(f, item, vk, u@ + rest) == (ev, vars_view(self.variables@), rest, fault) by {
                            assert(eval_expr(STEP_LIMIT as nat, f, value.view(), state(w0, out0, u@ + Seq::<u64>::empty())) == (res, state(w1, out@, Seq::<u64>::empty())));
                            assert(eval_expr(STEP_LIMIT as nat, f, value.view(), state(w0, out0, u@ + rest)) == (res, state(w1, out@, rest)));
                        }
                        assert(events_view(events@) =~= ek + ev) by {
                            assert(eval_expr(STEP_LIMIT as nat, f, value.view(), state(w0, out0, u@ + Seq::<u64>::empty())) == (res, state(w1, out@, Seq::<u64>::empty())));
                        }
                        lemma_step(f, pv, v0, used, ek, pv.skip(k as int), vk, u@, ev, vars_view(self.variables@), fault);
                        used = used + u@;
                    }
                    if fault {
                        proof {
                            assert(used + Seq::<u64>::empty() =~= used);
                            assert(run_from(f, pv, v0, used + Seq::<u64>::empty()) == (events_view(events@), vars_view(self.variables@)));
                            assert(run_from(funcs_view(self.functions@), program_view(program@), vars_view(old(self).variables@), used) == (events_view(events@), vars_view(self.variables@)));
                        }
                        return events;
                    }
                },
                TopLevel::SystemDecl { units } => {
                    let lines = self.eval_system_decl(units.as_slice());
                    push_event(&mut events, RunEvent::SystemReport(lines));
                    proof {
                        let ev = run_item(f, item, vk, Seq::empty()).0;
                        assert forall|rest: Seq<u64>| #[trigger] run_item(f, item, vk, Seq::<u64>::empty() + rest) == (ev, vars_view(self.variables@), rest, false) by {
                            assert(Seq::<u64>::empty() + rest =~= rest);
                        }
                        assert(events_view(events@) =~= ek + ev);
                        lemma_step(f, pv, v0, used, ek, pv.skip(k as int), vk, Seq::empty(), ev, vars_view(self.variables@), false);
                        used = used + Seq::<u64>::empty();
                    }
                },
                _ => {
                    proof {
                        let ev = run_item(f, item, vk, Seq::empty()).0;
                        assert(ev =~= Seq::<SEvent>::empty());
                        assert forall|rest: Seq<u64>| #[trigger] run_item(f, item, vk, Seq::<u64>::empty() + rest) == (ev, vars_view(self.variables@), rest, false) by {
                            assert(Seq::<u64>::empty() + rest =~= rest);
                        }
                        assert(events_view(events@) =~= ek + ev);
                        lemma_step(f, pv, v0, used, ek, pv.skip(k as int), vk, Seq::empty(), ev, vars_view(self.variables@), false);
                        used = used + Seq::<u64>::empty();
                    }
                },
            }
            proof {
                assert(pv.skip(k as int).drop_first() =~= pv.skip(k + 1));
            }
            k = k + 1;
        }
        proof {
            assert(pv.skip(program@.len() as int) =~= Seq::<STopLevel>::empty());
            assert(run_from(f, pv, v0, used + Seq::<u64>::empty()) == (events_view(events@) + Seq::<SEvent>::empty(), vars_view(self.variables@)));
            assert(used + Seq::<u64>::empty() =~= used);
            assert(events_view(events@) + Seq::<SEvent>::empty() =~= events_view(events@));
            assert(run_from(funcs_view(self.functions@), program_view(program@), vars_view(old(self).variables@), used) == (events_view(events@), vars_view(self.variables@)));
        }
        events
    }
}

/// One item's run extends the continuation.
proof fn lemma_step(
    f: FuncTable,
    all: Seq<STopLevel>,
    v0: Map<Seq<char>, SValue>,
    used: Seq<u64>,
    done: Seq<SEvent>,
    items: Seq<STopLevel>,
    v: Map<Seq<char>, SValue>,
    u: Seq<u64>,
    ev: Seq<SEvent>,
    v1: Map<Seq<char>, SValue>,
    stop: bool,
)
    requires
        items.len() > 0,
        run_continues(f, all, v0, used, done, items, v),
        forall|rest: Seq<u64>| #[trigger] run_item(f, items[0], v, u + rest) == (ev, v1, rest, stop),
    ensures
        !stop ==> run_continues(f, all, v0, used + u, done + ev, items.drop_first(), v1),
        stop ==> forall|rest: Seq<u64>| #[trigger] run_from(f, all, v0, (used + u) + rest) == (done + ev, v1),
{
    assert forall|rest: Seq<u64>| #[trigger] run_from(f, all, v0, (used + u) + rest) == (if stop {
        (done + ev, v1)
    } else {
        ((done + ev) + run_from(f, items.drop_first(), v1, rest).0, run_from(f, items.drop_first(), v1, rest).1)
    }) by {
        lemma_assoc_u64(used, u, rest);
        assert(run_from(f, all, v0, used + (u + rest)) == (done + run_from(f, items, v, u + rest).0, run_from(f, items, v, u + rest).1));
        assert(run_item(f, items[0], v, u + rest) == (ev, v1, rest, stop));
        if !stop {
            lemma_assoc_ev(done, ev, run_from(f, items.drop_first(), v1, rest).0);
        } else {
            assert(run_from(f, items, v, u + rest) == (ev, v1));
        }
    }
}

} // verus!
