//! The control of the block interpreter: a stack of scopes walked one step
//! at a time. Each step either needs nothing from outside, or asks the caller
//! to evaluate something (a condition, an expression, a call) and to answer
//! with the result; values themselves live with the caller, which names the
//! cell of each variable by a number.
use crate::parser::tree::{Block, ExpressionFragment, Frag, VarRef};
use vstd::prelude::*;

pub mod laws;
pub mod reference;
pub mod table;

verus! {

/// What kind of statement opened a scope.
pub enum ScopeType<'a> {
    If,
    Block,
    Function,
    Loop,
    For { condition: &'a Vec<ExpressionFragment>, incrementor: &'a Block },
}

/// A block being run: its variables (name and cell), the block, and the
/// position of its next statement.
pub struct Scope<'a> {
    pub variables: Vec<(String, usize)>,
    pub structure: &'a Block,
    pub idx: usize,
    pub scopetype: ScopeType<'a>,
}

/// Where the walk stands.
#[derive(Debug, Clone, Copy, PartialEq, Eq, Structural)]
pub enum Phase {
    /// About to look at the top scope (a `for` scope checks its condition).
    Top,
    /// Running the statements of the top scope.
    Body,
    /// Waiting for the truth of a `for` condition.
    AwaitCheck,
    /// Waiting for the truth of an `if` condition.
    AwaitBranch,
    /// Waiting for the cell of a `for` variable's initial value.
    AwaitForStart,
    /// Waiting for the cell of a new variable's value.
    AwaitInit,
    /// Waiting for the end of a `for` loop's incrementing block.
    AwaitIncrement,
    /// A `return` or an invalid `break` ended the run.
    Finished,
}

/// The caller's answer to the previous step.
#[derive(Debug, Clone, Copy, PartialEq, Eq, Structural)]
pub enum Input {
    Continue,
    Bool(bool),
    Cell(usize),
}

/// What a step asks of the caller.
pub enum Action<'a> {
    /// The stack is empty: the run returns null.
    Done,
    /// Nothing to do; step again with `Continue`.
    Continue,
    /// Evaluate the `for` condition in the top scope; answer `Bool`.
    CheckFor(&'a Vec<ExpressionFragment>),
    /// Evaluate the `if` condition in the top scope; answer `Bool`.
    Branch(&'a Vec<ExpressionFragment>),
    /// Evaluate the initial value of the `for` variable `name` and store it
    /// in a new cell; answer `Cell`.
    StartFor { name: &'a String, initial: &'a Vec<ExpressionFragment> },
    /// Evaluate the call; answer `Continue`.
    Call(&'a VarRef),
    /// Store the value in the referenced place; answer `Continue`.
    Assign { variable: &'a VarRef, value: &'a Vec<ExpressionFragment> },
    /// Evaluate the value of the new variable into a new cell; answer `Cell`.
    Initialize { variable: &'a String, value: &'a Vec<ExpressionFragment> },
    /// Evaluate the expression: it is the result of the run.
    Return(&'a Vec<ExpressionFragment>),
    /// Run the incrementing block in a fresh walk with the top scope's
    /// variables; answer `Continue`.
    Increment(&'a Block),
    /// A `break` outside any loop, at this source position.
    InvalidBreak(usize),
}

/// The walk of one function body or incrementing block.
pub struct Machine<'a> {
    pub stack: Vec<Scope<'a>>,
    pub phase: Phase,
}

// The model.

pub enum KindV {
    If,
    Block,
    Function,
    Loop,
    For { condition: Vec<ExpressionFragment>, incrementor: Block },
}

pub struct ScopeV {
    pub variables: Seq<(String, usize)>,
    pub structure: Block,
    pub idx: int,
    pub kind: KindV,
}

pub struct MachineV {
    pub stack: Seq<ScopeV>,
    pub phase: Phase,
}

pub enum ActionV {
    Done,
    Continue,
    CheckFor(Vec<ExpressionFragment>),
    Branch(Vec<ExpressionFragment>),
    StartFor { name: String, initial: Vec<ExpressionFragment> },
    Call(VarRef),
    Assign { variable: VarRef, value: Vec<ExpressionFragment> },
    Initialize { variable: String, value: Vec<ExpressionFragment> },
    Return(Vec<ExpressionFragment>),
    Increment(Block),
    InvalidBreak(usize),
}

pub open spec fn kind_view(k: ScopeType) -> KindV {
    match k {
        ScopeType::If => KindV::If,
        ScopeType::Block => KindV::Block,
        ScopeType::Function => KindV::Function,
        ScopeType::Loop => KindV::Loop,
        ScopeType::For { condition, incrementor } => KindV::For {
            condition: *condition,
            incrementor: *incrementor,
        },
    }
}

pub open spec fn scope_view(s: Scope) -> ScopeV {
    ScopeV {
        variables: s.variables@,
        structure: *s.structure,
        idx: s.idx as int,
        kind: kind_view(s.scopetype),
    }
}

pub open spec fn stack_view(s: Seq<Scope>) -> Seq<ScopeV> {
    s.map_values(|x: Scope| scope_view(x))
}

pub open spec fn machine_view(m: Machine) -> MachineV {
    MachineV { stack: stack_view(m.stack@), phase: m.phase }
}

pub open spec fn action_view(a: Action) -> ActionV {
    match a {
        Action::Done => ActionV::Done,
        Action::Continue => ActionV::Continue,
        Action::CheckFor(c) => ActionV::CheckFor(*c),
        Action::Branch(c) => ActionV::Branch(*c),
        Action::StartFor { name, initial } => ActionV::StartFor { name: *name, initial: *initial },
        Action::Call(v) => ActionV::Call(*v),
        Action::Assign { variable, value } => ActionV::Assign { variable: *variable, value: *value },
        Action::Initialize { variable, value } => ActionV::Initialize {
            variable: *variable,
            value: *value,
        },
        Action::Return(e) => ActionV::Return(*e),
        Action::Increment(b) => ActionV::Increment(*b),
        Action::InvalidBreak(i) => ActionV::InvalidBreak(i),
    }
}

// Variables.

/// The cell of the first variable named `name`.
pub open spec fn get_var_spec(v: Seq<(String, usize)>, name: Seq<char>) -> Option<usize>
    decreases v.len(),
{
    if v.len() == 0 {
        None
    } else {
        match get_var_spec(v.drop_last(), name) {
            Some(c) => Some(c),
            None => if v.last().0@ == name {
                Some(v.last().1)
            } else {
                None
            },
        }
    }
}

/// The variables after giving `name` the cell `id`: the first variable of
/// that name gets it, or the variable comes last.
pub open spec fn set_var_spec(v: Seq<(String, usize)>, name: String, id: usize) -> Seq<
    (String, usize),
> {
    if exists|i: int| 0 <= i < v.len() && (#[trigger] v[i]).0@ == name@ {
        let i = choose|i: int|
            0 <= i < v.len() && (#[trigger] v[i]).0@ == name@ && forall|j: int|
                0 <= j < i ==> (#[trigger] v[j]).0@ != name@;
        v.update(i, (v[i].0, id))
    } else {
        v.push((name, id))
    }
}

proof fn lemma_get_var_prefix(v: Seq<(String, usize)>, name: Seq<char>, k: int)
    requires
        0 <= k <= v.len(),
        forall|j: int| 0 <= j < k ==> (#[trigger] v[j]).0@ != name,
    ensures
        get_var_spec(v.take(k), name) is None,
    decreases k,
{
    if k > 0 {
        assert(v.take(k).drop_last() =~= v.take(k - 1));
        lemma_get_var_prefix(v, name, k - 1);
    }
}

proof fn lemma_get_var_found(v: Seq<(String, usize)>, name: Seq<char>, i: int, k: int)
    requires
        0 <= i < k <= v.len(),
        v[i].0@ == name,
        forall|j: int| 0 <= j < i ==> (#[trigger] v[j]).0@ != name,
    ensures
        get_var_spec(v.take(k), name) == Some(v[i].1),
    decreases k,
{
    if k == i + 1 {
        assert(v.take(k).drop_last() =~= v.take(i));
        lemma_get_var_prefix(v, name, i);
    } else {
        assert(v.take(k).drop_last() =~= v.take(k - 1));
        lemma_get_var_found(v, name, i, k - 1);
    }
}

/// The cell of the variable `name`, if it has one.
pub fn get_var(v: &Vec<(String, usize)>, name: &String) -> (r: Option<usize>)
    ensures
        r == get_var_spec(v@, name@),
{
    let mut i: usize = 0;
    while i < v.len()
        invariant
            i <= v.len(),
            forall|j: int| 0 <= j < i ==> (#[trigger] v@[j]).0@ != name@,
        decreases v.len() - i,
    {
        if v[i].0 == *name {
            proof {
                lemma_get_var_found(v@, name@, i as int, v@.len() as int);
                assert(v@.take(v@.len() as int) =~= v@);
            }
            return Some(v[i].1);
        }
        i += 1;
    }
    proof {
        lemma_get_var_prefix(v@, name@, v@.len() as int);
        assert(v@.take(v@.len() as int) =~= v@);
    }
    None
}

/// Gives the variable `name` the cell `id`.
pub fn set_var(v: &mut Vec<(String, usize)>, name: &String, id: usize)
    ensures
        final(v)@ == set_var_spec(old(v)@, *name, id),
{
    let mut i: usize = 0;
    while i < v.len()
        invariant
            i <= v.len(),
            v@ == old(v)@,
            forall|j: int| 0 <= j < i ==> (#[trigger] v@[j]).0@ != name@,
        decreases v.len() - i,
    {
        if v[i].0 == *name {
            let ghost w = v@;
            let ghost k = choose|k: int|
                0 <= k < w.len() && (#[trigger] w[k]).0@ == name@ && forall|j: int|
                    0 <= j < k ==> (#[trigger] w[j]).0@ != name@;
            proof {
                assert(0 <= i < w.len() && w[i as int].0@ == name@);
                if k < i {
                    assert(w[k].0@ != name@);
                } else if k > i {
                    assert(w[i as int].0@ != name@);
                }
            }
            let first = v[i].0.clone();
            v.set(i, (first, id));
            return;
        }
        i += 1;
    }
    v.push((name.clone(), id));
}

/// A copy of a list of variables.
pub fn copy_vars(v: &Vec<(String, usize)>) -> (r: Vec<(String, usize)>)
    ensures
        r@ == v@,
{
    let mut r: Vec<(String, usize)> = Vec::new();
    let mut i: usize = 0;
    while i < v.len()
        invariant
            i <= v.len(),
            r@ == v@.take(i as int),
        decreases v.len() - i,
    {
        r.push((v[i].0.clone(), v[i].1));
        i += 1;
        assert(r@ =~= v@.take(i as int));
    }
    assert(v@.take(v.len() as int) =~= v@);
    r
}

impl Block {
    /// A scope that runs this block from its first statement.
    pub fn to_scope<'a>(&'a self, stype: ScopeType<'a>, args: Vec<(String, usize)>) -> (s: Scope<'a>)
        ensures
            scope_view(s) == (ScopeV {
                variables: args@,
                structure: *self,
                idx: 0,
                kind: kind_view(stype),
            }),
    {
        Scope { variables: args, structure: self, idx: 0, scopetype: stype }
    }
}

// The steps.

/// Each scope's position lies within its block.
pub open spec fn positions_ok(s: Seq<ScopeV>) -> bool {
    forall|i: int| 0 <= i < s.len() ==> 0 <= (#[trigger] s[i]).idx <= s[i].structure.children@.len()
}

/// The statement at the top scope's position, when there is one.
pub open spec fn current(m: MachineV) -> Frag {
    m.stack.last().structure.children@[m.stack.last().idx].frag
}

/// What each phase waits for holds of the top scope.
pub open spec fn wf(m: MachineV) -> bool {
    &&& positions_ok(m.stack)
    &&& match m.phase {
        Phase::AwaitCheck => m.stack.len() > 0 && m.stack.last().kind is For,
        Phase::AwaitIncrement => m.stack.len() > 0 && m.stack.last().kind is For,
        Phase::Body => m.stack.len() > 0,
        Phase::AwaitBranch => m.stack.len() > 0 && m.stack.last().idx < m.stack.last().structure.children@.len()
            && current(m) is If,
        Phase::AwaitForStart => m.stack.len() > 0 && m.stack.last().idx
            < m.stack.last().structure.children@.len() && current(m) is For,
        Phase::AwaitInit => m.stack.len() > 0 && m.stack.last().idx < m.stack.last().structure.children@.len()
            && current(m) is Initialize,
        _ => true,
    }
}

/// The answer that a phase takes.
pub open spec fn accepts(p: Phase, input: Input) -> bool {
    match p {
        Phase::AwaitCheck => input is Bool,
        Phase::AwaitBranch => input is Bool,
        Phase::AwaitForStart => input is Cell,
        Phase::AwaitInit => input is Cell,
        _ => input is Continue,
    }
}

/// The stack with the top scope moved to its next statement.
pub open spec fn advance(s: Seq<ScopeV>) -> Seq<ScopeV> {
    s.update(s.len() - 1, ScopeV { idx: s.last().idx + 1, ..s.last() })
}

/// A new scope for `b` on top, seeing the top scope's variables.
pub open spec fn enter(s: Seq<ScopeV>, b: Block, kind: KindV, vars: Seq<(String, usize)>) -> Seq<
    ScopeV,
> {
    s.push(ScopeV { variables: vars, structure: b, idx: 0, kind })
}

/// The position of the innermost `loop` scope.
pub open spec fn innermost_loop(s: Seq<ScopeV>) -> Option<int>
    decreases s.len(),
{
    if s.len() == 0 {
        None
    } else if s.last().kind is Loop {
        Some(s.len() - 1)
    } else {
        innermost_loop(s.drop_last())
    }
}

/// One step of the walk: the next state and what the caller must do.
pub open spec fn step_spec(m: MachineV, input: Input) -> (MachineV, ActionV) {
    let s = m.stack;
    match m.phase {
        Phase::Finished => (m, ActionV::Done),
        Phase::Top => if s.len() == 0 {
            (m, ActionV::Done)
        } else {
            match s.last().kind {
                KindV::For { condition, .. } => (
                    MachineV { stack: s, phase: Phase::AwaitCheck },
                    ActionV::CheckFor(condition),
                ),
                _ => (MachineV { stack: s, phase: Phase::Body }, ActionV::Continue),
            }
        },
        Phase::AwaitCheck => if input == Input::Bool(false) {
            (MachineV { stack: s.drop_last(), phase: Phase::Top }, ActionV::Continue)
        } else {
            (MachineV { stack: s, phase: Phase::Body }, ActionV::Continue)
        },
        Phase::AwaitIncrement => (
            MachineV {
                stack: s.update(s.len() - 1, ScopeV { idx: 0, ..s.last() }),
                phase: Phase::Top,
            },
            ActionV::Continue,
        ),
        Phase::AwaitBranch => match current(m) {
            Frag::If { trueblock, falseblock, .. } => if input == Input::Bool(true) {
                (
                    MachineV {
                        stack: enter(advance(s), trueblock, KindV::If, s.last().variables),
                        phase: Phase::Top,
                    },
                    ActionV::Continue,
                )
            } else {
                match falseblock {
                    Some(fb) => (
                        MachineV {
                            stack: enter(advance(s), fb, KindV::If, s.last().variables),
                            phase: Phase::Top,
                        },
                        ActionV::Continue,
                    ),
                    None => (MachineV { stack: advance(s), phase: Phase::Body }, ActionV::Continue),
                }
            },
            _ => (m, ActionV::Done),
        },
        Phase::AwaitForStart => match current(m) {
            Frag::For { name, condition, incrementor, block, .. } => match input {
                Input::Cell(id) => (
                    MachineV {
                        stack: enter(
                            advance(s),
                            block,
                            KindV::For { condition, incrementor },
                            set_var_spec(s.last().variables, name, id),
                        ),
                        phase: Phase::Top,
                    },
                    ActionV::Continue,
                ),
                _ => (m, ActionV::Done),
            },
            _ => (m, ActionV::Done),
        },
        Phase::AwaitInit => match current(m) {
            Frag::Initialize { variable, .. } => match input {
                Input::Cell(id) => (
                    MachineV {
                        stack: advance(s).update(
                            s.len() - 1,
                            ScopeV {
                                variables: set_var_spec(s.last().variables, variable, id),
                                ..advance(s).last()
                            },
                        ),
                        phase: Phase::Body,
                    },
                    ActionV::Continue,
                ),
                _ => (m, ActionV::Done),
            },
            _ => (m, ActionV::Done),
        },
        Phase::Body => if s.last().idx >= s.last().structure.children@.len() {
            match s.last().kind {
                KindV::Loop => (
                    MachineV {
                        stack: s.update(s.len() - 1, ScopeV { idx: 0, ..s.last() }),
                        phase: Phase::Top,
                    },
                    ActionV::Continue,
                ),
                KindV::For { incrementor, .. } => (
                    MachineV { stack: s, phase: Phase::AwaitIncrement },
                    ActionV::Increment(incrementor),
                ),
                _ => (MachineV { stack: s.drop_last(), phase: Phase::Top }, ActionV::Continue),
            }
        } else {
            body_step(m)
        },
    }
}

/// A step at a statement of the top scope.
pub open spec fn body_step(m: MachineV) -> (MachineV, ActionV) {
    let s = m.stack;
    match current(m) {
        Frag::For { name, initial, .. } => (
            MachineV { stack: s, phase: Phase::AwaitForStart },
            ActionV::StartFor { name, initial },
        ),
        Frag::If { condition, .. } => (
            MachineV { stack: s, phase: Phase::AwaitBranch },
            ActionV::Branch(condition),
        ),
        Frag::Call(v) => (MachineV { stack: advance(s), phase: Phase::Body }, ActionV::Call(v)),
        Frag::Assignment { variable, value } => (
            MachineV { stack: advance(s), phase: Phase::Body },
            ActionV::Assign { variable, value },
        ),
        Frag::Initialize { variable, value } => (
            MachineV { stack: s, phase: Phase::AwaitInit },
            ActionV::Initialize { variable, value },
        ),
        Frag::Return(e) => (MachineV { stack: s, phase: Phase::Finished }, ActionV::Return(e)),
        Frag::Break => match innermost_loop(s) {
            Some(k) => (MachineV { stack: s.take(k), phase: Phase::Top }, ActionV::Continue),
            None => (
                MachineV { stack: Seq::empty(), phase: Phase::Finished },
                ActionV::InvalidBreak(
                    s.last().structure.children@[s.last().idx].index,
                ),
            ),
        },
        Frag::Loop(b) => (
            MachineV {
                stack: enter(advance(s), b, KindV::Loop, s.last().variables),
                phase: Phase::Top,
            },
            ActionV::Continue,
        ),
        Frag::Block(b) => (
            MachineV {
                stack: enter(advance(s), b, KindV::Block, s.last().variables),
                phase: Phase::Top,
            },
            ActionV::Continue,
        ),
    }
}

pub proof fn lemma_stack_view_push(s: Seq<Scope>, x: Scope)
    ensures
        stack_view(s.push(x)) == stack_view(s).push(scope_view(x)),
{
    assert(stack_view(s.push(x)) =~= stack_view(s).push(scope_view(x)));
}

pub proof fn lemma_stack_view_take(s: Seq<Scope>, k: int)
    requires
        0 <= k <= s.len(),
    ensures
        stack_view(s.take(k)) == stack_view(s).take(k),
{
    assert(stack_view(s.take(k)) =~= stack_view(s).take(k));
}

/// Moves the top scope to its next statement.
fn advance_top(stack: &mut Vec<Scope>)
    requires
        old(stack).len() > 0,
        old(stack)@.last().idx < old(stack)@.last().structure.children@.len(),
    ensures
        stack_view(final(stack)@) == advance(stack_view(old(stack)@)),
        final(stack).len() == old(stack).len(),
{
    let ghost v = stack_view(stack@);
    let mut top = stack.pop().unwrap();
    proof {
        lemma_stack_view_take(old(stack)@, old(stack)@.len() - 1);
        assert(old(stack)@.take(old(stack)@.len() - 1) =~= stack@);
    }
    let len = top.structure.children.len();
    assert(top.idx < len);
    top.idx = top.idx + 1;
    proof {
        lemma_stack_view_push(stack@, top);
    }
    stack.push(top);
    assert(stack_view(stack@) =~= advance(v));
}

/// Moves the top scope back to its first statement.
fn reset_top(stack: &mut Vec<Scope>)
    requires
        old(stack).len() > 0,
    ensures
        stack_view(final(stack)@) == stack_view(old(stack)@).update(
            old(stack)@.len() - 1,
            ScopeV { idx: 0, ..stack_view(old(stack)@).last() },
        ),
        final(stack).len() == old(stack).len(),
{
    let ghost v = stack_view(stack@);
    let mut top = stack.pop().unwrap();
    proof {
        lemma_stack_view_take(old(stack)@, old(stack)@.len() - 1);
        assert(old(stack)@.take(old(stack)@.len() - 1) =~= stack@);
    }
    top.idx = 0;
    proof {
        lemma_stack_view_push(stack@, top);
    }
    stack.push(top);
    assert(stack_view(stack@) =~= v.update(v.len() - 1, ScopeV { idx: 0, ..v.last() }));
}

impl<'a> Machine<'a> {
    /// A walk of `structure` as a scope of kind `stype` with the variables
    /// `vars`.
    pub fn new(structure: &'a Block, stype: ScopeType<'a>, vars: Vec<(String, usize)>) -> (m:
        Machine<'a>)
        ensures
            machine_view(m) == (MachineV {
                stack: seq![
                    ScopeV { variables: vars@, structure: *structure, idx: 0, kind: kind_view(stype) },
                ],
                phase: Phase::Top,
            }),
            wf(machine_view(m)),
    {
        let mut stack: Vec<Scope<'a>> = Vec::new();
        let sc = structure.to_scope(stype, vars);
        proof {
            lemma_stack_view_push(stack@, sc);
        }
        stack.push(sc);
        assert(stack_view(stack@) =~= seq![scope_view(sc)]);
        Machine { stack, phase: Phase::Top }
    }

    /// The variables of the top scope.
    pub fn top_variables(&self) -> (v: &Vec<(String, usize)>)
        requires
            self.stack.len() > 0,
        ensures
            v@ == self.stack@.last().variables@,
    {
        &self.stack[self.stack.len() - 1].variables
    }

    /// Pushes a scope for `b` that sees the given variables.
    fn enter(&mut self, b: &'a Block, stype: ScopeType<'a>, vars: Vec<(String, usize)>)
        ensures
            stack_view(final(self).stack@) == enter(
                stack_view(old(self).stack@),
                *b,
                kind_view(stype),
                vars@,
            ),
            final(self).phase == old(self).phase,
    {
        let sc = b.to_scope(stype, vars);
        proof {
            lemma_stack_view_push(self.stack@, sc);
        }
        self.stack.push(sc);
    }

    /// One step of the walk (see `step_spec`).
    #[verifier::rlimit(60)]
    pub fn step(&mut self, input: Input) -> (a: Action<'a>)
        requires
            wf(machine_view(*old(self))),
            accepts(old(self).phase, input),
        ensures
            (machine_view(*final(self)), action_view(a)) == step_spec(
                machine_view(*old(self)),
                input,
            ),
            wf(machine_view(*final(self))),
    {
        let ghost m0 = machine_view(*self);
        match self.phase {
            Phase::Finished => Action::Done,
            Phase::Top => {
                let n = self.stack.len();
                if n == 0 {
                    return Action::Done;
                }
                assert(stack_view(self.stack@).last() == scope_view(self.stack@[n - 1]));
                match self.stack[n - 1].scopetype {
                    ScopeType::For { condition, .. } => {
                        self.phase = Phase::AwaitCheck;
                        Action::CheckFor(condition)
                    },
                    _ => {
                        self.phase = Phase::Body;
                        Action::Continue
                    },
                }
            },
            Phase::AwaitCheck => {
                if input == Input::Bool(false) {
                    let ghost before = self.stack@;
                    self.stack.pop();
                    proof {
                        lemma_stack_view_take(before, before.len() - 1);
                        assert(before.take(before.len() - 1) =~= self.stack@);
                    }
                    self.phase = Phase::Top;
                } else {
                    self.phase = Phase::Body;
                }
                Action::Continue
            },
            Phase::AwaitIncrement => {
                reset_top(&mut self.stack);
                self.phase = Phase::Top;
                Action::Continue
            },
            Phase::AwaitBranch => self.step_branch(input),
            Phase::AwaitForStart => self.step_for_start(input),
            Phase::AwaitInit => self.step_init(input),
            Phase::Body => {
                let n = self.stack.len();
                assert(stack_view(self.stack@).last() == scope_view(self.stack@[n - 1]));
                let b: &'a Block = self.stack[n - 1].structure;
                let i = self.stack[n - 1].idx;
                if i >= b.children.len() {
                    match self.stack[n - 1].scopetype {
                        ScopeType::Loop => {
                            reset_top(&mut self.stack);
                            self.phase = Phase::Top;
                            Action::Continue
                        },
                        ScopeType::For { incrementor, .. } => {
                            self.phase = Phase::AwaitIncrement;
                            Action::Increment(incrementor)
                        },
                        _ => {
                            let ghost before = self.stack@;
                            self.stack.pop();
                            proof {
                                lemma_stack_view_take(before, before.len() - 1);
                                assert(before.take(before.len() - 1) =~= self.stack@);
                            }
                            self.phase = Phase::Top;
                            Action::Continue
                        },
                    }
                } else {
                    self.step_statement(b, i)
                }
            },
        }
    }

    /// The answer to an `if` condition.
    fn step_branch(&mut self, input: Input) -> (a: Action<'a>)
        requires
            wf(machine_view(*old(self))),
            old(self).phase == Phase::AwaitBranch,
        ensures
            (machine_view(*final(self)), action_view(a)) == step_spec(
                machine_view(*old(self)),
                input,
            ),
            wf(machine_view(*final(self))),
    {
        let ghost m0 = machine_view(*self);
        let n = self.stack.len();
        assert(m0.stack.last() == scope_view(self.stack@[n - 1]));
        let b: &'a Block = self.stack[n - 1].structure;
        let i = self.stack[n - 1].idx;
        let vars = copy_vars(&self.stack[n - 1].variables);
        match &b.children[i].frag {
            Frag::If { trueblock, falseblock, .. } => {
                if input == Input::Bool(true) {
                    advance_top(&mut self.stack);
                    self.enter(trueblock, ScopeType::If, vars);
                    self.phase = Phase::Top;
                } else {
                    match falseblock {
                        Some(fb) => {
                            advance_top(&mut self.stack);
                            self.enter(fb, ScopeType::If, vars);
                            self.phase = Phase::Top;
                        },
                        None => {
                            advance_top(&mut self.stack);
                            self.phase = Phase::Body;
                        },
                    }
                }
                Action::Continue
            },
            _ => Action::Done,
        }
    }

    /// The cell of a `for` variable's initial value.
    fn step_for_start(&mut self, input: Input) -> (a: Action<'a>)
        requires
            wf(machine_view(*old(self))),
            old(self).phase == Phase::AwaitForStart,
            input is Cell,
        ensures
            (machine_view(*final(self)), action_view(a)) == step_spec(
                machine_view(*old(self)),
                input,
            ),
            wf(machine_view(*final(self))),
    {
        let ghost m0 = machine_view(*self);
        let n = self.stack.len();
        assert(m0.stack.last() == scope_view(self.stack@[n - 1]));
        let b: &'a Block = self.stack[n - 1].structure;
        let i = self.stack[n - 1].idx;
        let mut vars = copy_vars(&self.stack[n - 1].variables);
        match &b.children[i].frag {
            Frag::For { name, condition, incrementor, block, .. } => {
                let id = match input {
                    Input::Cell(id) => id,
                    _ => 0,
                };
                set_var(&mut vars, name, id);
                advance_top(&mut self.stack);
                self.enter(block, ScopeType::For { condition, incrementor }, vars);
                self.phase = Phase::Top;
                Action::Continue
            },
            _ => Action::Done,
        }
    }

    /// The cell of a new variable's value.
    fn step_init(&mut self, input: Input) -> (a: Action<'a>)
        requires
            wf(machine_view(*old(self))),
            old(self).phase == Phase::AwaitInit,
            input is Cell,
        ensures
            (machine_view(*final(self)), action_view(a)) == step_spec(
                machine_view(*old(self)),
                input,
            ),
            wf(machine_view(*final(self))),
    {
        let ghost m0 = machine_view(*self);
        let n = self.stack.len();
        assert(m0.stack.last() == scope_view(self.stack@[n - 1]));
        let b: &'a Block = self.stack[n - 1].structure;
        let i = self.stack[n - 1].idx;
        match &b.children[i].frag {
            Frag::Initialize { variable, .. } => {
                let id = match input {
                    Input::Cell(id) => id,
                    _ => 0,
                };
                let ghost before = self.stack@;
                let mut top = self.stack.pop().unwrap();
                proof {
                    lemma_stack_view_take(before, before.len() - 1);
                    assert(before.take(before.len() - 1) =~= self.stack@);
                    assert(top.idx < top.structure.children@.len());
                }
                set_var(&mut top.variables, variable, id);
                let len = top.structure.children.len();
                assert(top.idx < len);
                top.idx = top.idx + 1;
                proof {
                    lemma_stack_view_push(self.stack@, top);
                }
                self.stack.push(top);
                self.phase = Phase::Body;
                assert(stack_view(self.stack@) =~= advance(m0.stack).update(
                    m0.stack.len() - 1,
                    ScopeV {
                        variables: set_var_spec(m0.stack.last().variables, *variable, id),
                        ..advance(m0.stack).last()
                    },
                ));
                Action::Continue
            },
            _ => Action::Done,
        }
    }

    /// A step at the statement `i` of the top scope's block `b`.
    fn step_statement(&mut self, b: &'a Block, i: usize) -> (a: Action<'a>)
        requires
            wf(machine_view(*old(self))),
            old(self).phase == Phase::Body,
            old(self).stack.len() > 0,
            *b == *old(self).stack@.last().structure,
            i == old(self).stack@.last().idx,
            i < b.children.len(),
        ensures
            (machine_view(*final(self)), action_view(a)) == body_step(machine_view(*old(self))),
            wf(machine_view(*final(self))),
    {
        let ghost m0 = machine_view(*self);
        let n = self.stack.len();
        assert(m0.stack.last() == scope_view(self.stack@[n - 1]));
        let frag = &b.children[i];
        match &frag.frag {
            Frag::For { name, initial, .. } => {
                self.phase = Phase::AwaitForStart;
                Action::StartFor { name, initial }
            },
            Frag::If { condition, .. } => {
                self.phase = Phase::AwaitBranch;
                Action::Branch(condition)
            },
            Frag::Call(v) => {
                advance_top(&mut self.stack);
                Action::Call(v)
            },
            Frag::Assignment { variable, value } => {
                advance_top(&mut self.stack);
                Action::Assign { variable, value }
            },
            Frag::Initialize { variable, value } => {
                self.phase = Phase::AwaitInit;
                Action::Initialize { variable, value }
            },
            Frag::Return(e) => {
                self.phase = Phase::Finished;
                Action::Return(e)
            },
            Frag::Break => {
                let mut k = n;
                assert(m0.stack.take(n as int) =~= m0.stack);
                assert(current(m0) is Break);
                while k > 0
                    invariant
                        k <= n,
                        n == self.stack.len(),
                        m0 == machine_view(*self),
                        m0 == machine_view(*old(self)),
                        current(m0) is Break,
                        wf(m0),
                        innermost_loop(m0.stack) == innermost_loop(m0.stack.take(k as int)),
                    decreases k,
                {
                    assert(m0.stack.take(k as int).drop_last() =~= m0.stack.take(k - 1));
                    assert(m0.stack.take(k as int).last() == scope_view(self.stack@[k - 1]));
                    if matches!(self.stack[k - 1].scopetype, ScopeType::Loop) {
                        let ghost before = self.stack@;
                        assert(innermost_loop(m0.stack) == Some((k - 1) as int));
                        self.stack.truncate(k - 1);
                        proof {
                            lemma_stack_view_take(before, k - 1);
                            assert(self.stack@ =~= before.take(k - 1));
                        }
                        self.phase = Phase::Top;
                        return Action::Continue;
                    }
                    k -= 1;
                }
                assert(m0.stack.take(0) =~= Seq::<ScopeV>::empty());
                self.stack.clear();
                assert(stack_view(self.stack@) =~= Seq::<ScopeV>::empty());
                self.phase = Phase::Finished;
                Action::InvalidBreak(frag.index)
            },
            Frag::Loop(lb) => {
                let vars = copy_vars(&self.stack[n - 1].variables);
                advance_top(&mut self.stack);
                self.enter(lb, ScopeType::Loop, vars);
                self.phase = Phase::Top;
                Action::Continue
            },
            Frag::Block(bb) => {
                let vars = copy_vars(&self.stack[n - 1].variables);
                advance_top(&mut self.stack);
                self.enter(bb, ScopeType::Block, vars);
                self.phase = Phase::Top;
                Action::Continue
            },
        }
    }
}

} // verus!
