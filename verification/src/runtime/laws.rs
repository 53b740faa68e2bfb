//! Properties of the scope walk that hold for every program.
use crate::runtime::{
    accepts, body_step, current, get_var_spec, innermost_loop, set_var_spec, step_spec, wf, Input,
    KindV, MachineV, Phase, ScopeV,
};
use crate::parser::tree::Frag;
use vstd::prelude::*;

verus! {

/// Giving a variable a cell and then looking the variable up gives that
/// cell; other variables keep theirs.
pub proof fn law_set_then_get(v: Seq<(String, usize)>, name: String, id: usize, other: Seq<char>)
    ensures
        get_var_spec(set_var_spec(v, name, id), name@) == Some(id),
        other != name@ ==> get_var_spec(set_var_spec(v, name, id), other) == get_var_spec(v, other),
{
    lemma_set_get(v, name, id, other);
}

proof fn lemma_get_first(v: Seq<(String, usize)>, name: Seq<char>, i: int)
    requires
        0 <= i < v.len(),
        v[i].0@ == name,
        forall|j: int| 0 <= j < i ==> (#[trigger] v[j]).0@ != name,
    ensures
        get_var_spec(v, name) == Some(v[i].1),
    decreases v.len(),
{
    if i < v.len() - 1 {
        assert(v.drop_last()[i] == v[i]);
        lemma_get_first(v.drop_last(), name, i);
    } else {
        lemma_get_none(v.drop_last(), name);
    }
}

proof fn lemma_get_none(v: Seq<(String, usize)>, name: Seq<char>)
    requires
        forall|j: int| 0 <= j < v.len() ==> (#[trigger] v[j]).0@ != name,
    ensures
        get_var_spec(v, name) is None,
    decreases v.len(),
{
    if v.len() > 0 {
        assert forall|j: int| 0 <= j < v.drop_last().len() implies (#[trigger] v.drop_last()[j]).0@
            != name by {
            assert(v.drop_last()[j] == v[j]);
        }
        lemma_get_none(v.drop_last(), name);
    }
}

/// Looking up a name gives the cell of its first entry, whatever follows.
proof fn lemma_get_unchanged_update(v: Seq<(String, usize)>, i: int, e: (String, usize), other: Seq<char>)
    requires
        0 <= i < v.len(),
        v[i].0@ != other,
        e.0@ != other,
    ensures
        get_var_spec(v.update(i, e), other) == get_var_spec(v, other),
    decreases v.len(),
{
    if v.len() > 0 {
        if i < v.len() - 1 {
            assert(v.update(i, e).drop_last() =~= v.drop_last().update(i, e));
            lemma_get_unchanged_update(v.drop_last(), i, e, other);
        } else {
            assert(v.update(i, e).drop_last() =~= v.drop_last());
        }
    }
}

proof fn lemma_set_get(v: Seq<(String, usize)>, name: String, id: usize, other: Seq<char>)
    ensures
        get_var_spec(set_var_spec(v, name, id), name@) == Some(id),
        other != name@ ==> get_var_spec(set_var_spec(v, name, id), other) == get_var_spec(v, other),
{
    if exists|i: int| 0 <= i < v.len() && (#[trigger] v[i]).0@ == name@ {
        let i = choose|i: int|
            0 <= i < v.len() && (#[trigger] v[i]).0@ == name@ && forall|j: int|
                0 <= j < i ==> (#[trigger] v[j]).0@ != name@;
        // such a first position exists
        assert(exists|i: int|
            0 <= i < v.len() && (#[trigger] v[i]).0@ == name@ && forall|j: int|
                0 <= j < i ==> (#[trigger] v[j]).0@ != name@) by {
            let w = choose|w: int| 0 <= w < v.len() && (#[trigger] v[w]).0@ == name@;
            lemma_first_exists(v, name@, w);
        }
        let u = v.update(i, (v[i].0, id));
        assert forall|j: int| 0 <= j < i implies (#[trigger] u[j]).0@ != name@ by {
            assert(u[j] == v[j]);
        }
        lemma_get_first(u, name@, i);
        if other != name@ {
            lemma_get_unchanged_update(v, i, (v[i].0, id), other);
        }
    } else {
        let u = v.push((name, id));
        assert forall|j: int| 0 <= j < v.len() implies (#[trigger] u[j]).0@ != name@ by {
            assert(u[j] == v[j]);
        }
        lemma_get_first(u, name@, v.len() as int);
        if other != name@ {
            assert(u.drop_last() =~= v);
        }
    }
}

proof fn lemma_first_exists(v: Seq<(String, usize)>, name: Seq<char>, w: int)
    requires
        0 <= w < v.len(),
        v[w].0@ == name,
    ensures
        exists|i: int|
            0 <= i < v.len() && (#[trigger] v[i]).0@ == name && forall|j: int|
                0 <= j < i ==> (#[trigger] v[j]).0@ != name,
    decreases w,
{
    if exists|j: int| 0 <= j < w && (#[trigger] v[j]).0@ == name {
        let j = choose|j: int| 0 <= j < w && (#[trigger] v[j]).0@ == name;
        lemma_first_exists(v, name, j);
    } else {
        assert(0 <= w < v.len() && v[w].0@ == name && forall|j: int|
            0 <= j < w ==> (#[trigger] v[j]).0@ != name);
    }
}

/// A step changes at most the top scope: the scopes below it stay as they
/// are or are taken off, and at most one scope is added.
pub proof fn law_step_keeps_lower_scopes(m: MachineV, input: Input)
    requires
        wf(m),
        accepts(m.phase, input),
    ensures
        step_spec(m, input).0.stack.len() <= m.stack.len() + 1,
        forall|i: int|
            0 <= i < m.stack.len() - 1 && i < step_spec(m, input).0.stack.len() ==> (
            #[trigger] step_spec(m, input).0.stack[i]) == m.stack[i],
{
    let s2 = step_spec(m, input).0.stack;
    if m.phase == Phase::Body && m.stack.last().idx < m.stack.last().structure.children@.len() {
        if current(m) is Break {
            match innermost_loop(m.stack) {
                Some(k) => {
                    lemma_innermost_loop(m.stack);
                },
                None => {},
            }
        }
    }
}

/// The innermost loop scope is a loop, and no scope above it is one.
pub proof fn lemma_innermost_loop(s: Seq<ScopeV>)
    ensures
        match innermost_loop(s) {
            Some(k) => 0 <= k < s.len() && s[k].kind is Loop && forall|j: int|
                k < j < s.len() ==> !((#[trigger] s[j]).kind is Loop),
            None => forall|j: int| 0 <= j < s.len() ==> !((#[trigger] s[j]).kind is Loop),
        },
    decreases s.len(),
{
    if s.len() > 0 && !(s.last().kind is Loop) {
        lemma_innermost_loop(s.drop_last());
        assert forall|j: int| 0 <= j < s.len() - 1 implies #[trigger] s[j] == s.drop_last()[j] by {}
    }
}

/// A `break` leaves the scopes below the innermost loop scope, the loop
/// itself taken off too; without a loop scope it ends the run with an
/// error at the break's position.
pub proof fn law_break(m: MachineV)
    requires
        wf(m),
        m.phase == Phase::Body,
        m.stack.last().idx < m.stack.last().structure.children@.len(),
        current(m) is Break,
    ensures
        match innermost_loop(m.stack) {
            Some(k) => m.stack[k].kind is Loop && (forall|j: int|
                k < j < m.stack.len() ==> !((#[trigger] m.stack[j]).kind is Loop))
                && step_spec(m, Input::Continue).0.stack == m.stack.take(k),
            None => step_spec(m, Input::Continue).0.phase == Phase::Finished
                && step_spec(m, Input::Continue).0.stack.len() == 0,
        },
{
    lemma_innermost_loop(m.stack);
}

/// A scope that a step opens starts with the variables of the scope that
/// opened it, with the loop variable added for a `for` loop.
pub proof fn law_new_scope_variables(m: MachineV, input: Input)
    requires
        wf(m),
        accepts(m.phase, input),
        step_spec(m, input).0.stack.len() == m.stack.len() + 1,
    ensures
        step_spec(m, input).0.stack.last().idx == 0,
        match step_spec(m, input).0.stack.last().kind {
            KindV::For { .. } => match current(m) {
                Frag::For { name, .. } => match input {
                    Input::Cell(id) => step_spec(m, input).0.stack.last().variables == set_var_spec(
                        m.stack.last().variables,
                        name,
                        id,
                    ),
                    _ => false,
                },
                _ => false,
            },
            _ => step_spec(m, input).0.stack.last().variables == m.stack.last().variables,
        },
{
    lemma_innermost_loop(m.stack);
    if m.phase == Phase::Body && m.stack.last().idx < m.stack.last().structure.children@.len() {
        assert(step_spec(m, input) == body_step(m));
    }
}

/// No two variables of a scope share a name.
pub open spec fn distinct_vars(v: Seq<(String, usize)>) -> bool {
    forall|i: int, j: int| 0 <= i < j < v.len() ==> (#[trigger] v[i]).0@ != (#[trigger] v[j]).0@
}

/// Giving a variable a cell never makes a name occur twice: an existing
/// variable of that name gets the cell, a new one comes last.
pub proof fn law_set_var_distinct(v: Seq<(String, usize)>, name: String, id: usize)
    requires
        distinct_vars(v),
    ensures
        distinct_vars(set_var_spec(v, name, id)),
{
    let r = set_var_spec(v, name, id);
    if exists|i: int| 0 <= i < v.len() && (#[trigger] v[i]).0@ == name@ {
        let w = choose|i: int| 0 <= i < v.len() && (#[trigger] v[i]).0@ == name@;
        assert forall|j: int| 0 <= j < w implies (#[trigger] v[j]).0@ != name@ by {
            assert(v[j].0@ != v[w].0@);
        }
        let k = choose|i: int|
            0 <= i < v.len() && (#[trigger] v[i]).0@ == name@ && forall|j: int|
                0 <= j < i ==> (#[trigger] v[j]).0@ != name@;
        assert(r == v.update(k, (v[k].0, id)));
        assert forall|i: int, j: int| 0 <= i < j < r.len() implies (#[trigger] r[i]).0@ != (#[trigger] r[j]).0@ by {
            assert(r[i].0 == v[i].0);
            assert(r[j].0 == v[j].0);
        }
    } else {
        assert forall|i: int, j: int| 0 <= i < j < r.len() implies (#[trigger] r[i]).0@ != (#[trigger] r[j]).0@ by {
            if j == v.len() {
                assert(r[i] == v[i]);
            } else {
                assert(r[i] == v[i] && r[j] == v[j]);
            }
        }
    }
}

/// Every scope of a stack names each of its variables once.
pub open spec fn scopes_distinct(s: Seq<ScopeV>) -> bool {
    forall|i: int| 0 <= i < s.len() ==> distinct_vars(#[trigger] s[i].variables)
}

/// A step keeps every scope's variable names distinct: new scopes start
/// from the variables of the scope that opens them, and a new variable or
/// loop variable is given its cell by `set_var`.
pub proof fn law_step_keeps_variables_distinct(m: MachineV, input: Input)
    requires
        wf(m),
        accepts(m.phase, input),
        scopes_distinct(m.stack),
    ensures
        scopes_distinct(step_spec(m, input).0.stack),
{
    let s = m.stack;
    let s2 = step_spec(m, input).0.stack;
    if s.len() > 0 {
        let top = s.last();
        assert(distinct_vars(s[s.len() - 1].variables));
        match m.phase {
            Phase::AwaitForStart => {
                if let Frag::For { name, .. } = current(m) {
                    if let Input::Cell(id) = input {
                        law_set_var_distinct(top.variables, name, id);
                    }
                }
            },
            Phase::AwaitInit => {
                if let Frag::Initialize { variable, .. } = current(m) {
                    if let Input::Cell(id) = input {
                        law_set_var_distinct(top.variables, variable, id);
                    }
                }
            },
            Phase::Body => {
                if s.last().idx < s.last().structure.children@.len() {
                    lemma_innermost_loop(s);
                }
            },
            _ => {},
        }
    }
    law_step_keeps_lower_scopes(m, input);
    assert forall|i: int| 0 <= i < s2.len() implies distinct_vars(#[trigger] s2[i].variables) by {
        if i < s.len() - 1 {
            assert(s2[i] == s[i]);
        } else if i == s.len() - 1 {
            assert(distinct_vars(s[i].variables));
        } else {
            assert(distinct_vars(s[s.len() - 1].variables));
        }
    }
}

/// Law: a loop runs its body again and again. When the top scope is a
/// `loop` and its statements are used up, a step keeps every scope, sets the
/// loop's position back to its first statement with its variables kept, and
/// looks at the top scope again.
pub proof fn law_loop_restarts(m: MachineV)
    requires
        wf(m),
        m.phase == Phase::Body,
        m.stack.last().kind is Loop,
        m.stack.last().idx >= m.stack.last().structure.children@.len(),
    ensures
        step_spec(m, Input::Continue).0.phase == Phase::Top,
        step_spec(m, Input::Continue).0.stack.len() == m.stack.len(),
        step_spec(m, Input::Continue).0.stack.last().idx == 0,
        step_spec(m, Input::Continue).0.stack.last().kind is Loop,
        step_spec(m, Input::Continue).0.stack.last().structure == m.stack.last().structure,
        step_spec(m, Input::Continue).0.stack.last().variables == m.stack.last().variables,
        forall|i: int| 0 <= i < m.stack.len() - 1 ==> #[trigger] step_spec(
            m,
            Input::Continue,
        ).0.stack[i] == m.stack[i],
{
}

/// Law: only a `break` leaves a loop. When the top scope is a `loop`, a step
/// that takes scopes off the stack is a `break` statement of that scope; a
/// `return` ends the run with the stack as it was.
pub proof fn law_only_break_leaves_a_loop(m: MachineV, input: Input)
    requires
        wf(m),
        accepts(m.phase, input),
        m.stack.len() > 0,
        m.stack.last().kind is Loop,
        step_spec(m, input).0.stack.len() < m.stack.len(),
    ensures
        m.phase == Phase::Body,
        m.stack.last().idx < m.stack.last().structure.children@.len(),
        current(m) is Break,
{
}

/// Law: an `if` runs exactly one of its blocks. With a true condition a new
/// scope runs the true block; with a false one a new scope runs the `else`
/// block, and without an `else` block nothing is opened. Either way the `if`
/// statement is done: its scope moves to the next statement, and a new scope
/// sees the variables of the one that opened it.
pub proof fn law_if_runs_one_block(m: MachineV, b: bool)
    requires
        wf(m),
        m.phase == Phase::AwaitBranch,
    ensures
        ({
            let s2 = step_spec(m, Input::Bool(b)).0.stack;
            let top = m.stack.last();
            match current(m) {
                Frag::If { trueblock, falseblock, .. } => {
                    &&& s2[m.stack.len() - 1].idx == top.idx + 1
                    &&& (b ==> s2.len() == m.stack.len() + 1 && s2.last().structure == trueblock
                        && s2.last().idx == 0 && s2.last().variables == top.variables)
                    &&& (!b && falseblock is Some ==> s2.len() == m.stack.len() + 1
                        && s2.last().structure == falseblock->Some_0 && s2.last().idx == 0
                        && s2.last().variables == top.variables)
                    &&& (!b && falseblock is None ==> s2.len() == m.stack.len())
                },
                _ => false,
            }
        }),
{
}

/// Law: a `for` loop runs its block while its condition holds: a false
/// condition takes the `for` scope off and goes on after the loop, a true one
/// runs the block's statements with every scope kept.
pub proof fn law_for_condition(m: MachineV, b: bool)
    requires
        wf(m),
        m.phase == Phase::AwaitCheck,
    ensures
        !b ==> step_spec(m, Input::Bool(b)).0.stack == m.stack.drop_last() && step_spec(
            m,
            Input::Bool(b),
        ).0.phase == Phase::Top,
        b ==> step_spec(m, Input::Bool(b)).0.stack == m.stack && step_spec(
            m,
            Input::Bool(b),
        ).0.phase == Phase::Body,
{
}

/// Law: a `return` ends the run: the walk finishes and asks for the value
/// of the returned expression; every later step does nothing.
pub proof fn law_return_ends_the_run(m: MachineV)
    requires
        wf(m),
        m.phase == Phase::Body,
        m.stack.last().idx < m.stack.last().structure.children@.len(),
        current(m) is Return,
    ensures
        step_spec(m, Input::Continue).0.phase == Phase::Finished,
        step_spec(m, Input::Continue).1 == crate::runtime::ActionV::Return(current(m)->Return_0),
        step_spec(step_spec(m, Input::Continue).0, Input::Continue).1 == crate::runtime::ActionV::Done,
{
}

/// Law: statements of a scope run in order. A call or an assignment asks
/// for itself and moves the scope to its next statement; a nested block or
/// `loop` is opened as a new scope on top that starts at its first statement
/// with the variables of the scope that opened it, which moves on past it;
/// other scopes are left as they are.
pub proof fn law_statements_in_order(m: MachineV)
    requires
        wf(m),
        m.phase == Phase::Body,
        m.stack.last().idx < m.stack.last().structure.children@.len(),
    ensures
        ({
            let (m2, a) = step_spec(m, Input::Continue);
            let top = m.stack.last();
            let n = m.stack.len();
            match current(m) {
                Frag::Call(v) => m2.stack.len() == n && m2.stack[n - 1].idx == top.idx + 1
                    && a == crate::runtime::ActionV::Call(v) && m2.phase == Phase::Body,
                Frag::Assignment { variable, value } => m2.stack.len() == n && m2.stack[n - 1].idx
                    == top.idx + 1 && a == crate::runtime::ActionV::Assign { variable, value }
                    && m2.phase == Phase::Body,
                Frag::Loop(b) => m2.stack.len() == n + 1 && m2.stack[n - 1].idx == top.idx + 1
                    && m2.stack.last().structure == b && m2.stack.last().idx == 0
                    && m2.stack.last().kind is Loop && m2.stack.last().variables == top.variables,
                Frag::Block(b) => m2.stack.len() == n + 1 && m2.stack[n - 1].idx == top.idx + 1
                    && m2.stack.last().structure == b && m2.stack.last().idx == 0
                    && m2.stack.last().kind is Block && m2.stack.last().variables == top.variables,
                _ => true,
            }
        }),
{
}

/// Law: a new variable is given the cell its value was put in, in the scope
/// that introduces it, and the scope moves to its next statement; a `for`
/// loop's variable is given its first cell in the loop's new scope only.
pub proof fn law_new_variable_cells(m: MachineV, id: usize)
    requires
        wf(m),
        m.phase == Phase::AwaitInit || m.phase == Phase::AwaitForStart,
    ensures
        ({
            let m2 = step_spec(m, Input::Cell(id)).0;
            let n = m.stack.len();
            match current(m) {
                Frag::Initialize { variable, .. } => m.phase == Phase::AwaitInit ==> m2.stack.len()
                    == n && get_var_spec(m2.stack[n - 1].variables, variable@) == Some(id)
                    && m2.stack[n - 1].idx == m.stack.last().idx + 1,
                Frag::For { name, .. } => m.phase == Phase::AwaitForStart ==> m2.stack.len() == n
                    + 1 && get_var_spec(m2.stack.last().variables, name@) == Some(id)
                    && m2.stack[n - 1].variables == m.stack.last().variables,
                _ => true,
            }
        }),
{
    match current(m) {
        Frag::Initialize { variable, .. } => {
            law_set_then_get(m.stack.last().variables, variable, id, variable@);
        },
        Frag::For { name, .. } => {
            law_set_then_get(m.stack.last().variables, name, id, name@);
        },
        _ => {},
    }
}

} // verus!
