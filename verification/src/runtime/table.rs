//! Which function a name calls when a program runs: the program's own
//! functions win over the libraries' functions, which win over the
//! builtins; within one list a later entry of a name wins over an earlier
//! one, as inserting into a map does.
use vstd::prelude::*;

verus! {

/// Where the function that a name calls comes from: its position in the
/// builtins, in the library functions or in the program's functions.
#[derive(Debug, Clone, Copy, PartialEq, Eq, Structural)]
pub enum Origin {
    Builtin(usize),
    Library(usize),
    Program(usize),
}

/// The last position of `n` in `v`.
pub open spec fn last_named(v: Seq<String>, n: Seq<char>) -> Option<int>
    decreases v.len(),
{
    if v.len() == 0 {
        None
    } else if v.last()@ == n {
        Some(v.len() - 1)
    } else {
        last_named(v.drop_last(), n)
    }
}

/// The function that `n` calls: the program's, else a library's, else a
/// builtin; the last of its name in that list.
pub open spec fn winner(b: Seq<String>, l: Seq<String>, p: Seq<String>, n: Seq<char>) -> Option<Origin> {
    match last_named(p, n) {
        Some(i) => Some(Origin::Program(i as usize)),
        None => match last_named(l, n) {
            Some(i) => Some(Origin::Library(i as usize)),
            None => match last_named(b, n) {
                Some(i) => Some(Origin::Builtin(i as usize)),
                None => None,
            },
        },
    }
}

/// The origin of the first entry named `n` in a table.
pub open spec fn origin_of(t: Seq<(String, Origin)>, n: Seq<char>) -> Option<Origin>
    decreases t.len(),
{
    if t.len() == 0 {
        None
    } else {
        match origin_of(t.drop_last(), n) {
            Some(o) => Some(o),
            None => if t.last().0@ == n {
                Some(t.last().1)
            } else {
                None
            },
        }
    }
}

/// No two entries of a table share a name.
pub open spec fn table_distinct(t: Seq<(String, Origin)>) -> bool {
    forall|i: int, j: int| 0 <= i < j < t.len() ==> (#[trigger] t[i]).0@ != (#[trigger] t[j]).0@
}

proof fn lemma_origin_none(t: Seq<(String, Origin)>, n: Seq<char>)
    requires
        forall|j: int| 0 <= j < t.len() ==> (#[trigger] t[j]).0@ != n,
    ensures
        origin_of(t, n) is None,
    decreases t.len(),
{
    if t.len() > 0 {
        assert forall|j: int| 0 <= j < t.drop_last().len() implies (#[trigger] t.drop_last()[j]).0@
            != n by {
            assert(t.drop_last()[j] == t[j]);
        }
        lemma_origin_none(t.drop_last(), n);
    }
}

proof fn lemma_origin_at(t: Seq<(String, Origin)>, n: Seq<char>, i: int)
    requires
        0 <= i < t.len(),
        t[i].0@ == n,
        forall|j: int| 0 <= j < i ==> (#[trigger] t[j]).0@ != n,
    ensures
        origin_of(t, n) == Some(t[i].1),
    decreases t.len(),
{
    if i < t.len() - 1 {
        assert(t.drop_last()[i] == t[i]);
        assert forall|j: int| 0 <= j < i implies (#[trigger] t.drop_last()[j]).0@ != n by {
            assert(t.drop_last()[j] == t[j]);
        }
        lemma_origin_at(t.drop_last(), n, i);
    } else {
        assert forall|j: int| 0 <= j < t.drop_last().len() implies (#[trigger] t.drop_last()[j]).0@
            != n by {
            assert(t.drop_last()[j] == t[j]);
        }
        lemma_origin_none(t.drop_last(), n);
    }
}

/// Looking a name up in a table without duplicates: the origin of the entry
/// of that name.
proof fn lemma_origin_distinct(t: Seq<(String, Origin)>, n: Seq<char>)
    requires
        table_distinct(t),
    ensures
        (exists|i: int| 0 <= i < t.len() && (#[trigger] t[i]).0@ == n) ==> origin_of(t, n) == Some(
            t[choose|i: int| 0 <= i < t.len() && (#[trigger] t[i]).0@ == n].1,
        ),
        !(exists|i: int| 0 <= i < t.len() && (#[trigger] t[i]).0@ == n) ==> origin_of(t, n) is None,
{
    if exists|i: int| 0 <= i < t.len() && (#[trigger] t[i]).0@ == n {
        let i = choose|i: int| 0 <= i < t.len() && (#[trigger] t[i]).0@ == n;
        assert forall|j: int| 0 <= j < i implies (#[trigger] t[j]).0@ != n by {
            assert(t[j].0@ != t[i].0@);
        }
        lemma_origin_at(t, n, i);
    } else {
        lemma_origin_none(t, n);
    }
}

/// Gives `name` the origin `o`: the entry of that name is changed, or a new
/// entry comes last.
fn put(t: &mut Vec<(String, Origin)>, name: &String, o: Origin)
    requires
        table_distinct(old(t)@),
    ensures
        table_distinct(final(t)@),
        forall|n: Seq<char>| #[trigger] origin_of(final(t)@, n) == if n == name@ {
            Some(o)
        } else {
            origin_of(old(t)@, n)
        },
{
    let ghost t0 = t@;
    let mut i: usize = 0;
    while i < t.len()
        invariant
            i <= t.len(),
            t@ == t0,
            t0 == old(t)@,
            table_distinct(t0),
            forall|j: int| 0 <= j < i ==> (#[trigger] t@[j]).0@ != name@,
        decreases t.len() - i,
    {
        if t[i].0 == *name {
            let first = t[i].0.clone();
            t.set(i, (first, o));
            proof {
                let t1 = t@;
                assert forall|a: int, b: int| 0 <= a < b < t1.len() implies (#[trigger] t1[a]).0@
                    != (#[trigger] t1[b]).0@ by {
                    assert(t1[a].0 == t0[a].0 && t1[b].0 == t0[b].0);
                }
                assert forall|n: Seq<char>| #[trigger] origin_of(t1, n) == if n == name@ {
                    Some(o)
                } else {
                    origin_of(t0, n)
                } by {
                    lemma_origin_distinct(t0, n);
                    lemma_origin_distinct(t1, n);
                    if n == name@ {
                        assert(t1[i as int].0@ == n);
                        assert forall|j: int| 0 <= j < i implies (#[trigger] t1[j]).0@ != n by {
                            assert(t1[j] == t0[j]);
                        }
                        lemma_origin_at(t1, n, i as int);
                    } else {
                        if exists|k: int| 0 <= k < t0.len() && (#[trigger] t0[k]).0@ == n {
                            let k = choose|k: int| 0 <= k < t0.len() && (#[trigger] t0[k]).0@ == n;
                            assert(k != i);
                            assert(t1[k] == t0[k]);
                            assert forall|j: int| 0 <= j < k implies (#[trigger] t1[j]).0@ != n by {
                                assert(t1[j].0 == t0[j].0);
                                assert(t0[j].0@ != t0[k].0@);
                            }
                            lemma_origin_at(t1, n, k);
                        } else {
                            assert forall|j: int| 0 <= j < t1.len() implies (#[trigger] t1[j]).0@ != n by {
                                assert(t1[j].0 == t0[j].0);
                            }
                            lemma_origin_none(t1, n);
                        }
                    }
                }
            }
            return;
        }
        i += 1;
    }
    t.push((name.clone(), o));
    proof {
        let t1 = t@;
        assert forall|a: int, b: int| 0 <= a < b < t1.len() implies (#[trigger] t1[a]).0@ != (
        #[trigger] t1[b]).0@ by {
            if b == t0.len() {
                assert(t1[a] == t0[a]);
            } else {
                assert(t1[a] == t0[a] && t1[b] == t0[b]);
            }
        }
        assert forall|n: Seq<char>| #[trigger] origin_of(t1, n) == if n == name@ {
            Some(o)
        } else {
            origin_of(t0, n)
        } by {
            assert(t1.drop_last() =~= t0);
            if n == name@ {
                lemma_origin_none(t0, n);
            }
        }
    }
}

proof fn lemma_last_named_take(v: Seq<String>, n: Seq<char>, i: int)
    requires
        0 <= i < v.len(),
    ensures
        last_named(v.take(i + 1), n) == if v[i]@ == n {
            Some(i)
        } else {
            last_named(v.take(i), n)
        },
{
    assert(v.take(i + 1).drop_last() =~= v.take(i));
}

/// The table of the functions that a running program can call: for each
/// name, the function it calls, with the program's functions over the
/// libraries' over the builtins, and the last of a name within one list.
pub fn function_table(builtins: &Vec<String>, library: &Vec<String>, program: &Vec<String>) -> (t:
    Vec<(String, Origin)>)
    ensures
        table_distinct(t@),
        forall|n: Seq<char>| #[trigger] origin_of(t@, n) == winner(builtins@, library@, program@, n),
{
    let mut t: Vec<(String, Origin)> = Vec::new();
    let ghost none: Seq<String> = Seq::empty();
    let mut i: usize = 0;
    while i < builtins.len()
        invariant
            i <= builtins.len(),
            table_distinct(t@),
            none == Seq::<String>::empty(),
            forall|n: Seq<char>| #[trigger] origin_of(t@, n) == winner(
                builtins@.take(i as int),
                none,
                none,
                n,
            ),
        decreases builtins.len() - i,
    {
        let ghost t0 = t@;
        put(&mut t, &builtins[i], Origin::Builtin(i));
        proof {
            assert forall|n: Seq<char>| #[trigger] origin_of(t@, n) == winner(
                builtins@.take(i + 1),
                none,
                none,
                n,
            ) by {
                lemma_last_named_take(builtins@, n, i as int);
                assert(origin_of(t0, n) == winner(builtins@.take(i as int), none, none, n));
            }
        }
        i += 1;
    }
    assert(builtins@.take(builtins.len() as int) =~= builtins@);
    let mut i: usize = 0;
    while i < library.len()
        invariant
            i <= library.len(),
            table_distinct(t@),
            none == Seq::<String>::empty(),
            forall|n: Seq<char>| #[trigger] origin_of(t@, n) == winner(
                builtins@,
                library@.take(i as int),
                none,
                n,
            ),
        decreases library.len() - i,
    {
        let ghost t0 = t@;
        put(&mut t, &library[i], Origin::Library(i));
        proof {
            assert forall|n: Seq<char>| #[trigger] origin_of(t@, n) == winner(
                builtins@,
                library@.take(i + 1),
                none,
                n,
            ) by {
                lemma_last_named_take(library@, n, i as int);
                assert(origin_of(t0, n) == winner(builtins@, library@.take(i as int), none, n));
            }
        }
        i += 1;
    }
    assert(library@.take(library.len() as int) =~= library@);
    let mut i: usize = 0;
    assert(program@.take(0) =~= none);
    while i < program.len()
        invariant
            i <= program.len(),
            table_distinct(t@),
            none == Seq::<String>::empty(),
            forall|n: Seq<char>| #[trigger] origin_of(t@, n) == winner(
                builtins@,
                library@,
                program@.take(i as int),
                n,
            ),
        decreases program.len() - i,
    {
        let ghost t0 = t@;
        put(&mut t, &program[i], Origin::Program(i));
        proof {
            assert forall|n: Seq<char>| #[trigger] origin_of(t@, n) == winner(
                builtins@,
                library@,
                program@.take(i + 1),
                n,
            ) by {
                lemma_last_named_take(program@, n, i as int);
                assert(origin_of(t0, n) == winner(builtins@, library@, program@.take(i as int), n));
            }
        }
        i += 1;
    }
    assert(program@.take(program.len() as int) =~= program@);
    t
}

/// Law: the program's own functions win over the libraries', which win over
/// the builtins: a name that the program defines calls the program's
/// function, one that only a library and the builtins define calls the
/// library's, and a name that no list holds calls nothing. Within one list
/// the last entry of the name wins.
pub proof fn law_precedence(b: Seq<String>, l: Seq<String>, p: Seq<String>, n: Seq<char>)
    requires
        p.len() <= usize::MAX,
        l.len() <= usize::MAX,
    ensures
        (exists|i: int| 0 <= i < p.len() && (#[trigger] p[i])@ == n) ==> (winner(b, l, p, n) matches Some(
            Origin::Program(i),
        ) && p[i as int]@ == n && forall|j: int| i < j < p.len() ==> (#[trigger] p[j])@ != n),
        !(exists|i: int| 0 <= i < p.len() && (#[trigger] p[i])@ == n) && (exists|i: int|
            0 <= i < l.len() && (#[trigger] l[i])@ == n) ==> (winner(b, l, p, n) matches Some(
            Origin::Library(i),
        ) && l[i as int]@ == n),
        !(exists|i: int| 0 <= i < p.len() && (#[trigger] p[i])@ == n) && !(exists|i: int|
            0 <= i < l.len() && (#[trigger] l[i])@ == n) && !(exists|i: int|
            0 <= i < b.len() && (#[trigger] b[i])@ == n) ==> winner(b, l, p, n) is None,
{
    lemma_last_named(p, n);
    lemma_last_named(l, n);
    lemma_last_named(b, n);
}

proof fn lemma_last_named(v: Seq<String>, n: Seq<char>)
    ensures
        last_named(v, n) matches Some(i) ==> 0 <= i < v.len() && v[i]@ == n && forall|j: int|
            i < j < v.len() ==> (#[trigger] v[j])@ != n,
        last_named(v, n) is None ==> forall|j: int| 0 <= j < v.len() ==> (#[trigger] v[j])@ != n,
    decreases v.len(),
{
    if v.len() > 0 {
        lemma_last_named(v.drop_last(), n);
        let w = v.drop_last();
        assert forall|j: int| 0 <= j < v.len() - 1 implies #[trigger] v[j] == w[j] by {}
        if v.last()@ != n {
            assert forall|j: int| 0 <= j < v.len() && (#[trigger] v[j])@ == n implies j < v.len() - 1 by {}
        }
    }
}

} // verus!
