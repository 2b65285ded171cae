//! The inliner's analyses: the call graph of a program, reachability in it
//! (which tells which functions are recursive), and which functions are
//! small and simple enough to inline.
//!
//! Functions are numbered `0..n`; `graph[i]` lists the functions that
//! function `i` calls, and a `visited` vector of length `n` marks the
//! functions a search has already entered.

use vstd::prelude::*;
use crate::opt::const_args::{calls_in_expr, calls_in_exprs, calls_in_stmt, calls_in_stmts};
use crate::opt::array_opt::{copy_expr, same_tree};
use crate::span::Span;
use crate::opt::tree_view::{copy_functions, functions_view};
use crate::ast::UnaryOp;
use crate::text::{dec_digits, push_usize};
use crate::typecheck::typed_ast::{
    TypedBlock, TypedExpr, TypedFunction, TypedLiteral, TypedParam, TypedProgram, TypedStmt,
};
use crate::typecheck::types::Type;

verus! {

/// The functions that `x` calls (none for a number outside the graph).
pub open spec fn callees(g: Seq<Vec<usize>>, x: int) -> Seq<usize> {
    if 0 <= x < g.len() {
        g[x]@
    } else {
        Seq::empty()
    }
}

/// Every callee is a function of the graph.
pub open spec fn graph_wf(g: Seq<Vec<usize>>) -> bool {
    forall|i: int, j: int| 0 <= i < g.len() && 0 <= j < g[i]@.len() ==> #[trigger] g[i]@[j] < g.len()
}

/// `path` follows calls from its first function to its last, over at least
/// one call, and no function strictly inside it is marked in `avoid`.
pub open spec fn avoiding_path(g: Seq<Vec<usize>>, path: Seq<usize>, avoid: Seq<bool>) -> bool {
    &&& path.len() >= 2
    &&& forall|i: int| 0 <= i < path.len() - 1 ==> callees(g, #[trigger] path[i] as int).contains(path[i + 1])
    &&& forall|i: int| 0 < i < path.len() - 1 ==> !avoid[#[trigger] path[i] as int]
}

/// `to` can be reached from `from` through calls, without passing through a
/// function marked in `avoid`.
pub open spec fn reachable_avoiding(g: Seq<Vec<usize>>, from: usize, to: usize, avoid: Seq<bool>) -> bool {
    exists|path: Seq<usize>|
        #[trigger] avoiding_path(g, path, avoid) && path[0] == from && path.last() == to
}

/// The number of functions not yet marked.
pub open spec fn unvisited(s: Seq<bool>) -> nat
    decreases s.len(),
{
    if s.len() == 0 {
        0
    } else {
        unvisited(s.drop_last()) + if s.last() {
            0nat
        } else {
            1nat
        }
    }
}

/// Marking more functions leaves fewer unmarked.
proof fn lemma_unvisited_mono(a: Seq<bool>, b: Seq<bool>)
    requires
        a.len() == b.len(),
        forall|i: int| 0 <= i < a.len() && a[i] ==> b[i],
    ensures
        unvisited(b) <= unvisited(a),
    decreases a.len(),
{
    if a.len() > 0 {
        lemma_unvisited_mono(a.drop_last(), b.drop_last());
    }
}

/// Marking one unmarked function leaves one fewer unmarked.
proof fn lemma_unvisited_mark(s: Seq<bool>, i: int)
    requires
        0 <= i < s.len(),
        !s[i],
    ensures
        unvisited(s.update(i, true)) + 1 == unvisited(s),
    decreases s.len(),
{
    if i == s.len() - 1 {
        assert(s.update(i, true).drop_last() =~= s.drop_last());
    } else {
        assert(s.update(i, true).drop_last() =~= s.drop_last().update(i, true));
        lemma_unvisited_mark(s.drop_last(), i);
    }
}

/// `x` does not call `target`, and everything `x` calls is marked.
pub open spec fn closed_at(g: Seq<Vec<usize>>, target: usize, x: int, marked: Seq<bool>) -> bool {
    &&& !callees(g, x).contains(target)
    &&& forall|k: int| 0 <= k < callees(g, x).len() ==> marked[#[trigger] callees(g, x)[k] as int]
}

/// A search from `current` that found nothing: `current` and every function
/// it marked beyond `entry` are closed in `now`.
pub open spec fn explored(
    g: Seq<Vec<usize>>,
    target: usize,
    current: usize,
    entry: Seq<bool>,
    now: Seq<bool>,
) -> bool {
    &&& closed_at(g, target, current as int, now)
    &&& forall|x: int| 0 <= x < now.len() && now[x] && !entry[x] ==> #[trigger] closed_at(g, target, x, now)
}

/// Every function on a path that avoids `entry`, but its last, is closed.
proof fn lemma_path_stays_closed(
    g: Seq<Vec<usize>>,
    target: usize,
    current: usize,
    entry: Seq<bool>,
    now: Seq<bool>,
    path: Seq<usize>,
    i: int,
)
    requires
        graph_wf(g),
        entry.len() == g.len(),
        now.len() == g.len(),
        explored(g, target, current, entry, now),
        avoiding_path(g, path, entry),
        path[0] == current,
        0 <= i < path.len() - 1,
    ensures
        closed_at(g, target, path[i] as int, now),
    decreases i,
{
    if i > 0 {
        lemma_path_stays_closed(g, target, current, entry, now, path, i - 1);
        let prev = path[i - 1] as int;
        assert(callees(g, prev).contains(path[i]));
        let k = choose|k: int| 0 <= k < callees(g, prev).len() && callees(g, prev)[k] == path[i];
        assert(now[callees(g, prev)[k] as int]);
        assert(!entry[path[i] as int]);
        assert(0 <= prev < g.len());
        assert(path[i] < g.len());
    }
}

/// A search that found nothing rules out every path that avoids `entry`.
proof fn lemma_explored_unreachable(
    g: Seq<Vec<usize>>,
    target: usize,
    current: usize,
    entry: Seq<bool>,
    now: Seq<bool>,
)
    requires
        graph_wf(g),
        entry.len() == g.len(),
        now.len() == g.len(),
        explored(g, target, current, entry, now),
    ensures
        !reachable_avoiding(g, current, target, entry),
{
    if reachable_avoiding(g, current, target, entry) {
        let path = choose|path: Seq<usize>|
            #[trigger] avoiding_path(g, path, entry) && path[0] == current && path.last() == target;
        let i = path.len() - 2;
        lemma_path_stays_closed(g, target, current, entry, now, path, i);
        assert(callees(g, path[i] as int).contains(path[i + 1]));
        assert(path[i + 1] == path.last());
    }
}

/// Whether `target` can be reached from `current` through calls without
/// entering a function already marked in `visited`. The search marks the
/// functions it enters; it never unmarks one.
pub fn is_reachable(current: usize, target: usize, graph: &Vec<Vec<usize>>, visited: &mut Vec<bool>) -> (r: bool)
    requires
        graph_wf(graph@),
        old(visited)@.len() == graph@.len(),
    ensures
        r == reachable_avoiding(graph@, current, target, old(visited)@),
        final(visited)@.len() == old(visited)@.len(),
        forall|i: int| 0 <= i < old(visited)@.len() && old(visited)@[i] ==> final(visited)@[i],
        !r ==> explored(graph@, target, current, old(visited)@, final(visited)@),
    decreases unvisited(old(visited)@),
{
    let ghost g = graph@;
    let ghost entry = visited@;
    if current >= graph.len() {
        proof {
            assert(explored(g, target, current, entry, visited@));
            lemma_explored_unreachable(g, target, current, entry, visited@);
        }
        return false;
    }
    let neighbors = &graph[current];
    let mut j: usize = 0;
    while j < neighbors.len()
        invariant
            g == graph@,
            graph_wf(g),
            current < g.len(),
            neighbors@ == callees(g, current as int),
            entry == old(visited)@,
            entry.len() == g.len(),
            visited@.len() == g.len(),
            0 <= j <= neighbors.len(),
            forall|i: int| 0 <= i < entry.len() && entry[i] ==> visited@[i],
            unvisited(visited@) <= unvisited(entry),
            forall|k: int| 0 <= k < j ==> neighbors@[k] != target,
            forall|x: int|
                0 <= x < visited@.len() && visited@[x] && !entry[x] ==> #[trigger] closed_at(
                    g,
                    target,
                    x,
                    visited@,
                ),
        decreases neighbors.len() - j,
    {
        let n = neighbors[j];
        if n == target {
            proof {
                let path = seq![current, target];
                assert(callees(g, current as int)[j as int] == target);
                assert(avoiding_path(g, path, entry));
                assert(path[0] == current && path.last() == target);
                assert(reachable_avoiding(g, current, target, entry));
            }
            return true;
        }
        j = j + 1;
    }
    proof {
        assert(!callees(g, current as int).contains(target));
    }
    let mut j: usize = 0;
    while j < neighbors.len()
        invariant
            g == graph@,
            graph_wf(g),
            current < g.len(),
            neighbors@ == callees(g, current as int),
            !callees(g, current as int).contains(target),
            entry == old(visited)@,
            entry.len() == g.len(),
            visited@.len() == g.len(),
            0 <= j <= neighbors.len(),
            forall|i: int| 0 <= i < entry.len() && entry[i] ==> visited@[i],
            unvisited(visited@) <= unvisited(entry),
            forall|k: int| 0 <= k < j ==> visited@[#[trigger] neighbors@[k] as int],
            forall|x: int|
                0 <= x < visited@.len() && visited@[x] && !entry[x] ==> #[trigger] closed_at(
                    g,
                    target,
                    x,
                    visited@,
                ),
        decreases neighbors.len() - j,
    {
        let n = neighbors[j];
        proof {
            assert(g[current as int]@[j as int] == n);
        }
        if !visited[n] {
            let ghost before = visited@;
            proof {
                lemma_unvisited_mark(before, n as int);
            }
            visited.set(n, true);
            let ghost at_call = visited@;
            assert(at_call == before.update(n as int, true));
            assert(unvisited(at_call) < unvisited(entry));
            let found = is_reachable(n, target, graph, visited);
            if found {
                proof {
                    let sub = choose|path: Seq<usize>|
                        #[trigger] avoiding_path(g, path, at_call) && path[0] == n && path.last() == target;
                    let path = seq![current].add(sub);
                    assert(path[1] == n);
                    assert forall|i: int| 0 <= i < path.len() - 1 implies callees(
                        g,
                        #[trigger] path[i] as int,
                    ).contains(path[i + 1]) by {
                        if i == 0 {
                            assert(callees(g, current as int)[j as int] == n);
                        } else {
                            assert(path[i] == sub[i - 1]);
                            assert(path[i + 1] == sub[i]);
                        }
                    }
                    assert forall|i: int| 0 < i < path.len() - 1 implies !entry[#[trigger] path[i] as int] by {
                        if i == 1 {
                            assert(!before[n as int]);
                        } else {
                            assert(path[i] == sub[i - 1]);
                            assert(!at_call[sub[i - 1] as int]);
                            assert(sub[i - 1] < g.len());
                        }
                    }
                    assert(path.last() == sub.last());
                    assert(avoiding_path(g, path, entry));
                    assert(reachable_avoiding(g, current, target, entry));
                }
                return true;
            }
            proof {
                lemma_unvisited_mono(at_call, visited@);
                assert forall|x: int|
                    0 <= x < visited@.len() && visited@[x] && !entry[x] implies #[trigger] closed_at(
                    g,
                    target,
                    x,
                    visited@,
                ) by {
                    if before[x] {
                        assert(closed_at(g, target, x, before));
                        assert forall|k: int| 0 <= k < callees(g, x).len() implies visited@[#[trigger] callees(
                            g,
                            x,
                        )[k] as int] by {
                            assert(before[callees(g, x)[k] as int]);
                            assert(callees(g, x)[k] < g.len());
                        }
                    } else if x == n {
                    } else {
                        assert(!at_call[x]);
                    }
                }
                assert forall|k: int| 0 <= k < j + 1 implies visited@[#[trigger] neighbors@[k] as int] by {
                    if k < j {
                        assert(before[neighbors@[k] as int]);
                    } else {
                        assert(at_call[n as int]);
                    }
                }
            }
        }
        j = j + 1;
    }
    proof {
        assert(explored(g, target, current, entry, visited@));
        lemma_explored_unreachable(g, target, current, entry, visited@);
    }
    false
}


// ---------------------------------------------------------------------------
// The call graph
// ---------------------------------------------------------------------------

/// Whether `e` calls a function named `name` (in itself or in a part).
fn expr_calls(e: &TypedExpr, name: &String) -> (b: bool)
    ensures
        b == (calls_in_expr(*e, name@).len() > 0),
    decreases e,
{
    match e {
        TypedExpr::Unary { expr, .. } => expr_calls(expr, name),
        TypedExpr::Binary { left, right, .. } => {
            let l = expr_calls(left, name);
            let r = expr_calls(right, name);
            l || r
        },
        TypedExpr::Call { callee, args, .. } => {
            let mut found = false;
            let mut i: usize = 0;
            assert(args@.subrange(0, 0) =~= Seq::<TypedExpr>::empty());
            proof {
                assert forall|k: int| 0 <= k < args@.len() implies decreases_to!(*e => #[trigger] args@[k]) by {
                    assert(decreases_to!(*e => (*e)->Call_args));
                    assert(decreases_to!((*e)->Call_args => args@));
                    assert(decreases_to!(args@ => args@[k]));
                }
            }
            while i < args.len()
                invariant
                    i <= args@.len(),
                    forall|k: int| 0 <= k < args@.len() ==> decreases_to!(*e => #[trigger] args@[k]),
                    found == (calls_in_exprs(args@.subrange(0, i as int), name@).len() > 0),
                decreases args@.len() - i,
            {
                proof {
                    assert(decreases_to!(*e => args@[i as int]));
                    assert(args@.subrange(0, i + 1).subrange(0, i as int) =~= args@.subrange(0, i as int));
                }
                let c = expr_calls(&args[i], name);
                found = found || c;
                i += 1;
            }
            assert(args@.subrange(0, args@.len() as int) =~= args@);
            found || callee.eq(name)
        },
        TypedExpr::ArrayLiteral { elements, .. } => {
            let mut found = false;
            let mut i: usize = 0;
            assert(elements@.subrange(0, 0) =~= Seq::<TypedExpr>::empty());
            proof {
                assert forall|k: int| 0 <= k < elements@.len() implies decreases_to!(*e => #[trigger] elements@[k]) by {
                    assert(decreases_to!(*e => (*e)->ArrayLiteral_elements));
                    assert(decreases_to!((*e)->ArrayLiteral_elements => elements@));
                    assert(decreases_to!(elements@ => elements@[k]));
                }
            }
            while i < elements.len()
                invariant
                    i <= elements@.len(),
                    forall|k: int| 0 <= k < elements@.len() ==> decreases_to!(*e => #[trigger] elements@[k]),
                    found == (calls_in_exprs(elements@.subrange(0, i as int), name@).len() > 0),
                decreases elements@.len() - i,
            {
                proof {
                    assert(decreases_to!(*e => elements@[i as int]));
                    assert(elements@.subrange(0, i + 1).subrange(0, i as int) =~= elements@.subrange(
                        0,
                        i as int,
                    ));
                }
                let c = expr_calls(&elements[i], name);
                found = found || c;
                i += 1;
            }
            assert(elements@.subrange(0, elements@.len() as int) =~= elements@);
            found
        },
        TypedExpr::Index { target, index, .. } => {
            let t = expr_calls(target, name);
            let x = expr_calls(index, name);
            t || x
        },
        _ => false,
    }
}

/// Whether the statements of `b` call a function named `name`.
fn block_calls(b: &TypedBlock, name: &String) -> (r: bool)
    ensures
        r == (calls_in_stmts(b.stmts@, name@).len() > 0),
    decreases b, 0nat,
{
    let ss = &b.stmts;
    let mut found = false;
    let mut i: usize = 0;
    assert(ss@.subrange(0, 0) =~= Seq::<TypedStmt>::empty());
    while i < ss.len()
        invariant
            ss == &b.stmts,
            i <= ss@.len(),
            found == (calls_in_stmts(ss@.subrange(0, i as int), name@).len() > 0),
        decreases ss@.len() - i,
    {
        proof {
            assert(decreases_to!(*b => b.stmts));
            assert(decreases_to!(b.stmts => b.stmts@));
            assert(decreases_to!(b.stmts@ => b.stmts@[i as int]));
            assert(ss@.subrange(0, i + 1).subrange(0, i as int) =~= ss@.subrange(0, i as int));
        }
        let c = stmt_calls(&ss[i], name);
        found = found || c;
        i += 1;
    }
    assert(ss@.subrange(0, ss@.len() as int) =~= ss@);
    found
}

/// Whether the statement `s` calls a function named `name`.
fn stmt_calls(s: &TypedStmt, name: &String) -> (b: bool)
    ensures
        b == (calls_in_stmt(*s, name@).len() > 0),
    decreases s, 1nat,
{
    match s {
        TypedStmt::Let { value, .. } => expr_calls(value, name),
        TypedStmt::Assign { value, .. } => expr_calls(value, name),
        TypedStmt::Expr(value) => expr_calls(value, name),
        TypedStmt::IndexAssign { index, value, .. } => {
            let a = expr_calls(index, name);
            let b = expr_calls(value, name);
            a || b
        },
        TypedStmt::Return(Some(value), _) => expr_calls(value, name),
        TypedStmt::Return(None, _) => false,
        TypedStmt::Break(_) => false,
        TypedStmt::If { condition, then_branch, else_branch, .. } => {
            let c = expr_calls(condition, name);
            let t = block_calls(then_branch, name);
            let e = match else_branch {
                Some(b) => block_calls(b, name),
                None => false,
            };
            c || t || e
        },
        TypedStmt::While { condition, body, .. } => {
            let c = expr_calls(condition, name);
            let b = block_calls(body, name);
            c || b
        },
    }
}

/// Function `i` of `fs` calls function `j`: its body calls `j`'s name.
pub open spec fn calls_fn(fs: Seq<TypedFunction>, i: int, j: int) -> bool {
    calls_in_stmts(fs[i].body.stmts@, fs[j].name@).len() > 0
}

/// `g` is the call graph of `fs`: `g[i]` lists, in increasing order, the
/// functions that function `i` calls.
pub open spec fn is_call_graph(fs: Seq<TypedFunction>, g: Seq<Vec<usize>>) -> bool {
    &&& g.len() == fs.len()
    &&& forall|i: int| 0 <= i < g.len() ==> #[trigger] g[i]@ == Seq::new(fs.len() as nat, |j: int| j as usize).filter(
        |j: usize| calls_fn(fs, i, j as int),
    )
}

/// The call graph of the functions `fs`.
pub fn call_graph(fs: &Vec<TypedFunction>) -> (g: Vec<Vec<usize>>)
    ensures
        is_call_graph(fs@, g@),
        graph_wf(g@),
{
    let n = fs.len();
    let mut g: Vec<Vec<usize>> = Vec::new();
    let ghost all = Seq::new(n as nat, |j: int| j as usize);
    let mut i: usize = 0;
    while i < n
        invariant
            n == fs@.len(),
            all == Seq::new(n as nat, |j: int| j as usize),
            i <= n,
            g@.len() == i,
            forall|k: int| 0 <= k < i ==> #[trigger] g@[k]@ == all.filter(|j: usize| calls_fn(fs@, k, j as int)),
            forall|k: int, m: int| 0 <= k < i && 0 <= m < g@[k]@.len() ==> #[trigger] g@[k]@[m] < n,
        decreases n - i,
    {
        let mut row: Vec<usize> = Vec::new();
        let mut j: usize = 0;
        assert(all.subrange(0, 0).filter(|x: usize| calls_fn(fs@, i as int, x as int)) =~= Seq::<usize>::empty());
        while j < n
            invariant
                n == fs@.len(),
                all == Seq::new(n as nat, |j: int| j as usize),
                i < n,
                j <= n,
                row@ == all.subrange(0, j as int).filter(|x: usize| calls_fn(fs@, i as int, x as int)),
                forall|m: int| 0 <= m < row@.len() ==> #[trigger] row@[m] < j,
            decreases n - j,
        {
            let c = block_calls(&fs[i].body, &fs[j].name);
            proof {
                let f = |x: usize| calls_fn(fs@, i as int, x as int);
                assert(all.subrange(0, j + 1) =~= all.subrange(0, j as int).push(j));
                all.subrange(0, j as int).lemma_filter_push(j, f);
            }
            if c {
                row.push(j);
            }
            j += 1;
        }
        assert(all.subrange(0, n as int) =~= all);
        g.push(row);
        i += 1;
    }
    g
}

/// `path` is a chain of calls among the functions `fs` from function `i`
/// back to function `i`.
pub open spec fn call_cycle(fs: Seq<TypedFunction>, path: Seq<usize>, i: int) -> bool {
    &&& path.len() >= 2
    &&& path[0] == i && path.last() == i
    &&& forall|k: int|
        0 <= k < path.len() - 1 ==> path[k] < fs.len() && path[k + 1] < fs.len() && calls_fn(
            fs,
            #[trigger] path[k] as int,
            path[k + 1] as int,
        )
}

/// Function `i` of `fs` is recursive: a chain of calls leads from it back to
/// itself.
pub open spec fn recursive_fn(fs: Seq<TypedFunction>, i: int) -> bool {
    exists|path: Seq<usize>| #[trigger] call_cycle(fs, path, i)
}

/// An edge of the call graph is a call.
proof fn lemma_call_graph_edge(fs: Seq<TypedFunction>, g: Seq<Vec<usize>>, x: int, y: usize)
    requires
        is_call_graph(fs, g),
    ensures
        callees(g, x).contains(y) <==> (0 <= x < fs.len() && y < fs.len() && calls_fn(fs, x, y as int)),
{
    broadcast use vstd::seq_lib::group_filter_ensures;
    if 0 <= x < fs.len() {
        let all = Seq::new(fs.len() as nat, |j: int| j as usize);
        let p = |j: usize| calls_fn(fs, x, j as int);
        assert(g[x]@ == all.filter(p));
        if callees(g, x).contains(y) {
            all.lemma_filter_contains_rev(p, y);
            let k = choose|k: int| 0 <= k < g[x]@.len() && g[x]@[k] == y;
            all.lemma_filter_pred(p, k);
        }
        if y < fs.len() && calls_fn(fs, x, y as int) {
            assert(all[y as int] == y);
            all.lemma_filter_contains(p, y as int);
        }
    }
}

/// With nothing marked, reachability of `i` from itself in the call graph is
/// recursion.
proof fn lemma_reachable_is_recursive(fs: Seq<TypedFunction>, g: Seq<Vec<usize>>, i: usize, avoid: Seq<bool>)
    requires
        is_call_graph(fs, g),
        avoid.len() == g.len(),
        forall|k: int| 0 <= k < avoid.len() ==> !avoid[k],
    ensures
        reachable_avoiding(g, i, i, avoid) == recursive_fn(fs, i as int),
{
    if reachable_avoiding(g, i, i, avoid) {
        let path = choose|path: Seq<usize>| #[trigger] avoiding_path(g, path, avoid) && path[0] == i && path.last() == i;
        assert forall|k: int| 0 <= k < path.len() - 1 implies path[k] < fs.len() && path[k + 1] < fs.len()
            && calls_fn(fs, #[trigger] path[k] as int, path[k + 1] as int) by {
            assert(callees(g, path[k] as int).contains(path[k + 1]));
            lemma_call_graph_edge(fs, g, path[k] as int, path[k + 1]);
        }
        assert(call_cycle(fs, path, i as int));
    }
    if recursive_fn(fs, i as int) {
        let path = choose|path: Seq<usize>| #[trigger] call_cycle(fs, path, i as int);
        assert forall|k: int| 0 <= k < path.len() - 1 implies callees(g, #[trigger] path[k] as int).contains(
            path[k + 1],
        ) by {
            lemma_call_graph_edge(fs, g, path[k] as int, path[k + 1]);
        }
        assert forall|k: int| 0 < k < path.len() - 1 implies !avoid[#[trigger] path[k] as int] by {
            assert(path[k] < fs.len());
        }
        assert(avoiding_path(g, path, avoid));
    }
}

/// `n` unmarked entries.
fn unmarked(n: usize) -> (v: Vec<bool>)
    ensures
        v@.len() == n,
        forall|k: int| 0 <= k < n ==> !v@[k],
{
    let mut v: Vec<bool> = Vec::new();
    let mut k: usize = 0;
    while k < n
        invariant
            k <= n,
            v@.len() == k,
            forall|m: int| 0 <= m < k ==> !v@[m],
        decreases n - k,
    {
        v.push(false);
        k += 1;
    }
    v
}

/// For each function of the program, whether it is recursive: whether a
/// chain of calls leads from it back to itself. Functions are told apart by
/// position (a checked program gives them distinct names).
pub fn find_recursive_functions(program: &TypedProgram) -> (r: Vec<bool>)
    ensures
        r@.len() == program.functions@.len(),
        forall|i: int| 0 <= i < r@.len() ==> #[trigger] r@[i] == recursive_fn(program.functions@, i),
{
    let fs = &program.functions;
    let g = call_graph(fs);
    let n = fs.len();
    let mut r: Vec<bool> = Vec::new();
    let mut i: usize = 0;
    while i < n
        invariant
            n == fs@.len(),
            fs == &program.functions,
            is_call_graph(fs@, g@),
            graph_wf(g@),
            i <= n,
            r@.len() == i,
            forall|k: int| 0 <= k < i ==> #[trigger] r@[k] == recursive_fn(fs@, k),
        decreases n - i,
    {
        let mut visited = unmarked(n);
        let ghost entry = visited@;
        let b = is_reachable(i, i, &g, &mut visited);
        proof {
            lemma_reachable_is_recursive(fs@, g@, i, entry);
        }
        r.push(b);
        i += 1;
    }
    r
}

// ---------------------------------------------------------------------------
// Which functions are inlined
// ---------------------------------------------------------------------------

/// The number of statements in `ss`, counting those nested in branches and
/// loop bodies.
pub open spec fn block_size(ss: Seq<TypedStmt>) -> nat
    decreases ss, 1nat,
{
    ss.len() + nested_size(ss)
}

/// The statements nested inside the statements of `ss`.
pub open spec fn nested_size(ss: Seq<TypedStmt>) -> nat
    decreases ss, 0nat,
{
    if ss.len() == 0 {
        0
    } else {
        nested_size(ss.drop_last()) + stmt_nested_size(ss.last())
    }
}

/// The statements nested inside `s`.
pub open spec fn stmt_nested_size(s: TypedStmt) -> nat
    decreases s, 0nat,
{
    match s {
        TypedStmt::If { then_branch, else_branch, .. } => block_size(then_branch.stmts@) + match else_branch {
            Some(b) => block_size(b.stmts@),
            None => 0,
        },
        TypedStmt::While { body, .. } => block_size(body.stmts@),
        _ => 0,
    }
}

/// `n`, or `usize::MAX` where it is larger.
pub open spec fn saturated(n: nat) -> usize {
    if n > usize::MAX {
        usize::MAX
    } else {
        n as usize
    }
}

/// The number of statements of `b`, nested ones included (`usize::MAX` if
/// that many or more).
pub fn count_stmts_block(b: &TypedBlock) -> (c: usize)
    ensures
        c == saturated(block_size(b.stmts@)),
    decreases b, 0nat,
{
    let ss = &b.stmts;
    let mut count: usize = ss.len();
    let mut i: usize = 0;
    assert(ss@.subrange(0, 0) =~= Seq::<TypedStmt>::empty());
    while i < ss.len()
        invariant
            ss == &b.stmts,
            i <= ss@.len(),
            count == saturated(ss@.len() + nested_size(ss@.subrange(0, i as int))),
        decreases ss@.len() - i,
    {
        proof {
            assert(decreases_to!(*b => b.stmts));
            assert(decreases_to!(b.stmts => b.stmts@));
            assert(decreases_to!(b.stmts@ => b.stmts@[i as int]));
            let next = ss@.subrange(0, i + 1);
            assert(next.drop_last() =~= ss@.subrange(0, i as int));
            assert(next.last() == ss@[i as int]);
        }
        let inner = count_nested(&ss[i]);
        count = count.saturating_add(inner);
        i += 1;
    }
    assert(ss@.subrange(0, ss@.len() as int) =~= ss@);
    count
}

/// The number of statements nested inside `s` (`usize::MAX` if that many or
/// more).
fn count_nested(s: &TypedStmt) -> (c: usize)
    ensures
        c == saturated(stmt_nested_size(*s)),
    decreases s, 1nat,
{
    match s {
        TypedStmt::If { then_branch, else_branch, .. } => {
            let t = count_stmts_block(then_branch);
            match else_branch {
                Some(b) => {
                    let e = count_stmts_block(b);
                    t.saturating_add(e)
                },
                None => t,
            }
        },
        TypedStmt::While { body, .. } => count_stmts_block(body),
        _ => 0,
    }
}

/// `s` is or holds a `return`.
pub open spec fn stmt_has_return(s: TypedStmt) -> bool
    decreases s, 0nat,
{
    match s {
        TypedStmt::Return(..) => true,
        TypedStmt::If { then_branch, else_branch, .. } => stmts_have_return(then_branch.stmts@) || match else_branch {
            Some(b) => stmts_have_return(b.stmts@),
            None => false,
        },
        TypedStmt::While { body, .. } => stmts_have_return(body.stmts@),
        _ => false,
    }
}

/// One of the statements `ss` is or holds a `return`.
pub open spec fn stmts_have_return(ss: Seq<TypedStmt>) -> bool
    decreases ss, 1nat,
{
    ss.len() > 0 && (stmts_have_return(ss.drop_last()) || stmt_has_return(ss.last()))
}

/// Whether one of the statements of `b` is or holds a `return`.
fn block_contains_return(b: &TypedBlock) -> (r: bool)
    ensures
        r == stmts_have_return(b.stmts@),
    decreases b, 0nat,
{
    let ss = &b.stmts;
    let mut found = false;
    let mut i: usize = 0;
    assert(ss@.subrange(0, 0) =~= Seq::<TypedStmt>::empty());
    while i < ss.len()
        invariant
            ss == &b.stmts,
            i <= ss@.len(),
            found == stmts_have_return(ss@.subrange(0, i as int)),
        decreases ss@.len() - i,
    {
        proof {
            assert(decreases_to!(*b => b.stmts));
            assert(decreases_to!(b.stmts => b.stmts@));
            assert(decreases_to!(b.stmts@ => b.stmts@[i as int]));
            let next = ss@.subrange(0, i + 1);
            assert(next.drop_last() =~= ss@.subrange(0, i as int));
            assert(next.last() == ss@[i as int]);
        }
        let c = contains_return(&ss[i]);
        found = found || c;
        i += 1;
    }
    assert(ss@.subrange(0, ss@.len() as int) =~= ss@);
    found
}

/// Whether `s` is or holds a `return`.
fn contains_return(s: &TypedStmt) -> (r: bool)
    ensures
        r == stmt_has_return(*s),
    decreases s, 1nat,
{
    match s {
        TypedStmt::Return(..) => true,
        TypedStmt::If { then_branch, else_branch, .. } => {
            if block_contains_return(then_branch) {
                return true;
            }
            match else_branch {
                Some(b) => block_contains_return(b),
                None => false,
            }
        },
        TypedStmt::While { body, .. } => block_contains_return(body),
        _ => false,
    }
}

/// The body `ss` ends in `return` with a value, and no other statement is or
/// holds a `return`.
pub open spec fn single_return_at_end(ss: Seq<TypedStmt>) -> bool {
    &&& ss.len() > 0
    &&& ss.last() matches TypedStmt::Return(Some(_), _)
    &&& !stmts_have_return(ss.drop_last())
}

/// Whether the block ends in `return` with a value and has no other
/// `return`.
pub fn has_single_return_at_end(block: &TypedBlock) -> (b: bool)
    ensures
        b == single_return_at_end(block.stmts@),
{
    let ss = &block.stmts;
    let n = ss.len();
    if n == 0 {
        return false;
    }
    match &ss[n - 1] {
        TypedStmt::Return(Some(_), _) => {},
        _ => {
            return false;
        },
    }
    let mut i: usize = 0;
    assert(ss@.subrange(0, 0) =~= Seq::<TypedStmt>::empty());
    while i < n - 1
        invariant
            ss == &block.stmts,
            n == ss@.len(),
            n > 0,
            i <= n - 1,
            !stmts_have_return(ss@.subrange(0, i as int)),
        decreases n - 1 - i,
    {
        proof {
            let next = ss@.subrange(0, i + 1);
            assert(next.drop_last() =~= ss@.subrange(0, i as int));
            assert(next.last() == ss@[i as int]);
        }
        if contains_return(&ss[i]) {
            proof {
                lemma_prefix_return(ss@.drop_last(), i as int + 1);
                assert(ss@.drop_last().subrange(0, i + 1) =~= ss@.subrange(0, i + 1));
            }
            return false;
        }
        i += 1;
    }
    assert(ss@.subrange(0, n - 1) =~= ss@.drop_last());
    true
}

/// A `return` among the first `k` statements is one among all of them.
proof fn lemma_prefix_return(ss: Seq<TypedStmt>, k: int)
    requires
        0 <= k <= ss.len(),
        stmts_have_return(ss.subrange(0, k)),
    ensures
        stmts_have_return(ss),
    decreases ss.len() - k,
{
    if k < ss.len() {
        let next = ss.subrange(0, k + 1);
        assert(next.drop_last() =~= ss.subrange(0, k));
        lemma_prefix_return(ss, k + 1);
    } else {
        assert(ss.subrange(0, k) =~= ss);
    }
}

/// The most statements, nested ones included, that a function the inliner
/// copies into its callers may have.
pub const MAX_INLINE_STMTS: usize = 120;

/// `f` is inlined into its callers: it is not recursive, has at most
/// `MAX_INLINE_STMTS` statements, nested ones included, and ends in its only
/// `return`.
pub open spec fn inlinable(f: TypedFunction, recursive: bool) -> bool {
    &&& !recursive
    &&& block_size(f.body.stmts@) <= MAX_INLINE_STMTS
    &&& single_return_at_end(f.body.stmts@)
}

/// Whether the function `func` (recursive or not, as `recursive` says) is
/// inlined into its callers.
pub fn is_inlinable(func: &TypedFunction, recursive: bool) -> (b: bool)
    ensures
        b == inlinable(*func, recursive),
{
    if recursive {
        return false;
    }
    let count = count_stmts_block(&func.body);
    if count > MAX_INLINE_STMTS {
        return false;
    }
    has_single_return_at_end(&func.body)
}


// ---------------------------------------------------------------------------
// Copying a function's body into a caller
// ---------------------------------------------------------------------------

/// The name that `n`, bound in the function `callee`, takes in the copy of
/// its body made for the inlined call numbered `cid`.
pub open spec fn inline_name(callee: Seq<char>, cid: nat, n: Seq<char>) -> Seq<char> {
    "__inl_"@ + callee + "_"@ + dec_digits(cid) + "_"@ + n
}

/// The names that the `let` statements of `ss` bind, nested blocks included.
pub open spec fn let_names(ss: Seq<TypedStmt>) -> Set<Seq<char>>
    decreases ss, 1nat,
{
    if ss.len() == 0 {
        Set::empty()
    } else {
        let_names(ss.drop_last()) + stmt_let_names(ss.last())
    }
}

/// The names that the `let` statements in `s` bind.
pub open spec fn stmt_let_names(s: TypedStmt) -> Set<Seq<char>>
    decreases s, 0nat,
{
    match s {
        TypedStmt::Let { name, .. } => set![name@],
        TypedStmt::If { then_branch, else_branch, .. } => let_names(then_branch.stmts@) + match else_branch {
            Some(b) => let_names(b.stmts@),
            None => Set::empty(),
        },
        TypedStmt::While { body, .. } => let_names(body.stmts@),
        _ => Set::empty(),
    }
}

/// `f` binds `n`: as a parameter or by a `let` of its body.
pub open spec fn binds(f: TypedFunction, n: Seq<char>) -> bool {
    (exists|i: int| 0 <= i < f.params@.len() && (#[trigger] f.params@[i]).name@ == n) || let_names(
        f.body.stmts@,
    ).contains(n)
}

/// The renaming used in the copy of `f` for the inlined call `cid`: every
/// name that `f` binds gets its `inline_name`; other names stay.
pub open spec fn inline_renaming(f: TypedFunction, cid: nat) -> spec_fn(Seq<char>) -> Seq<char> {
    |n: Seq<char>|
        if binds(f, n) {
            inline_name(f.name@, cid, n)
        } else {
            n
        }
}

/// `r` is `e` with every name `n` it uses replaced by `m(n)`.
pub open spec fn mapped_expr(e: TypedExpr, m: spec_fn(Seq<char>) -> Seq<char>, r: TypedExpr) -> bool
    decreases e, 1nat,
{
    match e {
        TypedExpr::Ident { name, ty, span } => r matches TypedExpr::Ident { name: n2, ty: t2, span: s2 }
            && n2@ == m(name@) && t2 == ty && s2 == span,
        TypedExpr::Unary { op, expr, ty, span } => r matches TypedExpr::Unary {
            op: o2,
            expr: e2,
            ty: t2,
            span: s2,
        } && o2 == op && t2 == ty && s2 == span && mapped_expr(*expr, m, *e2),
        TypedExpr::Binary { op, left, right, ty, span } => r matches TypedExpr::Binary {
            op: o2,
            left: l2,
            right: r2,
            ty: t2,
            span: s2,
        } && o2 == op && t2 == ty && s2 == span && mapped_expr(*left, m, *l2) && mapped_expr(
            *right,
            m,
            *r2,
        ),
        TypedExpr::Call { callee, args, ty, span } => r matches TypedExpr::Call {
            callee: c2,
            args: a2,
            ty: t2,
            span: s2,
        } && c2 == callee && t2 == ty && s2 == span && mapped_exprs(args@, m, a2@),
        TypedExpr::ArrayLiteral { elements, ty, span } => r matches TypedExpr::ArrayLiteral {
            elements: e2,
            ty: t2,
            span: s2,
        } && t2 == ty && s2 == span && mapped_exprs(elements@, m, e2@),
        TypedExpr::Index { target, index, is_safe, ty, span } => r matches TypedExpr::Index {
            target: g2,
            index: i2,
            is_safe: f2,
            ty: t2,
            span: s2,
        } && f2 == is_safe && t2 == ty && s2 == span && mapped_expr(*target, m, *g2) && mapped_expr(
            *index,
            m,
            *i2,
        ),
        TypedExpr::Literal { .. } => r == e,
    }
}

/// `rs` is `es`, each with its names replaced by `m`.
pub open spec fn mapped_exprs(es: Seq<TypedExpr>, m: spec_fn(Seq<char>) -> Seq<char>, rs: Seq<TypedExpr>) -> bool
    decreases es, 0nat,
{
    &&& rs.len() == es.len()
    &&& forall|i: int|
        #![trigger es[i]]
        #![trigger rs[i]]
        0 <= i < es.len() ==> mapped_expr(es[i], m, rs[i])
}

/// `r` is `s` with every name it uses or binds replaced by `m(n)`.
pub open spec fn mapped_stmt(s: TypedStmt, m: spec_fn(Seq<char>) -> Seq<char>, r: TypedStmt) -> bool
    decreases s, 1nat,
{
    match s {
        TypedStmt::Let { name, is_mutable, ty, value, span } => r matches TypedStmt::Let {
            name: n2,
            is_mutable: m2,
            ty: t2,
            value: v2,
            span: s2,
        } && n2@ == m(name@) && m2 == is_mutable && t2 == ty && s2 == span && mapped_expr(value, m, v2),
        TypedStmt::Assign { name, value, span } => r matches TypedStmt::Assign {
            name: n2,
            value: v2,
            span: s2,
        } && n2@ == m(name@) && s2 == span && mapped_expr(value, m, v2),
        TypedStmt::IndexAssign { target, index, value, is_safe, span } => r matches TypedStmt::IndexAssign {
            target: g2,
            index: i2,
            value: v2,
            is_safe: f2,
            span: s2,
        } && g2@ == m(target@) && f2 == is_safe && s2 == span && mapped_expr(index, m, i2) && mapped_expr(
            value,
            m,
            v2,
        ),
        TypedStmt::Return(Some(v), span) => r matches TypedStmt::Return(Some(v2), s2) && s2 == span
            && mapped_expr(v, m, v2),
        TypedStmt::Expr(e) => r matches TypedStmt::Expr(e2) && mapped_expr(e, m, e2),
        TypedStmt::If { condition, then_branch, else_branch, span } => r matches TypedStmt::If {
            condition: c2,
            then_branch: t2,
            else_branch: e2,
            span: s2,
        } && s2 == span && mapped_expr(condition, m, c2) && mapped_block(then_branch, m, t2) && match else_branch {
            Some(b) => e2 matches Some(b2) && mapped_block(b, m, b2),
            None => e2 is None,
        },
        TypedStmt::While { condition, body, span } => r matches TypedStmt::While {
            condition: c2,
            body: b2,
            span: s2,
        } && s2 == span && mapped_expr(condition, m, c2) && mapped_block(body, m, b2),
        _ => r == s,
    }
}

/// `r` is the block `b` with its names replaced by `m`.
pub open spec fn mapped_block(b: TypedBlock, m: spec_fn(Seq<char>) -> Seq<char>, r: TypedBlock) -> bool
    decreases b, 0nat,
{
    &&& r.span == b.span
    &&& r.stmts@.len() == b.stmts@.len()
    &&& forall|i: int|
        #![trigger b.stmts@[i]]
        #![trigger r.stmts@[i]]
        0 <= i < b.stmts@.len() ==> mapped_stmt(b.stmts@[i], m, r.stmts@[i])
}

/// The name `inline_name(callee, cid, n)`.
fn inline_name_of(callee: &String, cid: usize, n: &String) -> (s: String)
    ensures
        s@ == inline_name(callee@, cid as nat, n@),
{
    let mut s = String::from_str("__inl_");
    s.append(callee.as_str());
    s.append("_");
    push_usize(&mut s, cid);
    s.append("_");
    s.append(n.as_str());
    proof {
        reveal_strlit("__inl_");
        reveal_strlit("_");
    }
    assert(s@ =~= inline_name(callee@, cid as nat, n@));
    s
}

/// Whether a `let` of the block `b` binds `n`, nested blocks included.
fn block_binds(b: &TypedBlock, n: &String) -> (r: bool)
    ensures
        r == let_names(b.stmts@).contains(n@),
    decreases b, 0nat,
{
    let ss = &b.stmts;
    let mut found = false;
    let mut i: usize = 0;
    assert(ss@.subrange(0, 0) =~= Seq::<TypedStmt>::empty());
    while i < ss.len()
        invariant
            ss == &b.stmts,
            i <= ss@.len(),
            found == let_names(ss@.subrange(0, i as int)).contains(n@),
        decreases ss@.len() - i,
    {
        proof {
            assert(decreases_to!(*b => b.stmts));
            assert(decreases_to!(b.stmts => b.stmts@));
            assert(decreases_to!(b.stmts@ => b.stmts@[i as int]));
            let next = ss@.subrange(0, i + 1);
            assert(next.drop_last() =~= ss@.subrange(0, i as int));
            assert(next.last() == ss@[i as int]);
        }
        let c = stmt_binds(&ss[i], n);
        found = found || c;
        i += 1;
    }
    assert(ss@.subrange(0, ss@.len() as int) =~= ss@);
    found
}

/// Whether a `let` in `s` binds `n`.
fn stmt_binds(s: &TypedStmt, n: &String) -> (r: bool)
    ensures
        r == stmt_let_names(*s).contains(n@),
    decreases s, 1nat,
{
    match s {
        TypedStmt::Let { name, .. } => name.eq(n),
        TypedStmt::If { then_branch, else_branch, .. } => {
            let t = block_binds(then_branch, n);
            let e = match else_branch {
                Some(b) => block_binds(b, n),
                None => false,
            };
            t || e
        },
        TypedStmt::While { body, .. } => block_binds(body, n),
        _ => false,
    }
}

/// Whether `f` binds `n`.
fn function_binds(f: &TypedFunction, n: &String) -> (r: bool)
    ensures
        r == binds(*f, n@),
{
    let mut i: usize = 0;
    while i < f.params.len()
        invariant
            i <= f.params@.len(),
            forall|k: int| 0 <= k < i ==> (#[trigger] f.params@[k]).name@ != n@,
        decreases f.params@.len() - i,
    {
        if f.params[i].name.eq(n) {
            return true;
        }
        i += 1;
    }
    block_binds(&f.body, n)
}

/// `n` as the copy of `f` for the inlined call `cid` names it.
fn renamed(n: &String, f: &TypedFunction, cid: usize) -> (r: String)
    ensures
        r@ == inline_renaming(*f, cid as nat)(n@),
{
    if function_binds(f, n) {
        inline_name_of(&f.name, cid, n)
    } else {
        n.clone()
    }
}

/// `e` with its names renamed for the copy of `f` made for call `cid`.
fn rename_expr(e: &TypedExpr, f: &TypedFunction, cid: usize) -> (r: TypedExpr)
    ensures
        mapped_expr(*e, inline_renaming(*f, cid as nat), r),
    decreases e,
{
    let ghost m = inline_renaming(*f, cid as nat);
    match e {
        TypedExpr::Ident { name, ty, span } => TypedExpr::Ident {
            name: renamed(name, f, cid),
            ty: ty.duplicate(),
            span: *span,
        },
        TypedExpr::Unary { op, expr, ty, span } => TypedExpr::Unary {
            op: *op,
            expr: Box::new(rename_expr(expr, f, cid)),
            ty: ty.duplicate(),
            span: *span,
        },
        TypedExpr::Binary { op, left, right, ty, span } => TypedExpr::Binary {
            op: *op,
            left: Box::new(rename_expr(left, f, cid)),
            right: Box::new(rename_expr(right, f, cid)),
            ty: ty.duplicate(),
            span: *span,
        },
        TypedExpr::Call { callee, args, ty, span } => {
            proof {
                assert forall|k: int| 0 <= k < args@.len() implies decreases_to!(*e => #[trigger] args@[k]) by {
                    assert(decreases_to!(*e => (*e)->Call_args));
                    assert(decreases_to!((*e)->Call_args => args@));
                    assert(decreases_to!(args@ => args@[k]));
                }
            }
            let mut out: Vec<TypedExpr> = Vec::new();
            let mut i: usize = 0;
            while i < args.len()
                invariant
                    i <= args@.len(),
                    out@.len() == i,
                    m == inline_renaming(*f, cid as nat),
                    forall|k: int| 0 <= k < args@.len() ==> decreases_to!(*e => #[trigger] args@[k]),
                    forall|k: int| 0 <= k < i ==> mapped_expr(#[trigger] args@[k], m, out@[k]),
                decreases args@.len() - i,
            {
                proof {
                    assert(decreases_to!(*e => args@[i as int]));
                }
                out.push(rename_expr(&args[i], f, cid));
                i += 1;
            }
            let r = TypedExpr::Call { callee: callee.clone(), args: out, ty: ty.duplicate(), span: *span };
            assert(mapped_exprs(args@, m, out@));
            r
        },
        TypedExpr::ArrayLiteral { elements, ty, span } => {
            proof {
                assert forall|k: int| 0 <= k < elements@.len() implies decreases_to!(*e => #[trigger] elements@[k]) by {
                    assert(decreases_to!(*e => (*e)->ArrayLiteral_elements));
                    assert(decreases_to!((*e)->ArrayLiteral_elements => elements@));
                    assert(decreases_to!(elements@ => elements@[k]));
                }
            }
            let mut out: Vec<TypedExpr> = Vec::new();
            let mut i: usize = 0;
            while i < elements.len()
                invariant
                    i <= elements@.len(),
                    out@.len() == i,
                    m == inline_renaming(*f, cid as nat),
                    forall|k: int| 0 <= k < elements@.len() ==> decreases_to!(*e => #[trigger] elements@[k]),
                    forall|k: int| 0 <= k < i ==> mapped_expr(#[trigger] elements@[k], m, out@[k]),
                decreases elements@.len() - i,
            {
                proof {
                    assert(decreases_to!(*e => elements@[i as int]));
                }
                out.push(rename_expr(&elements[i], f, cid));
                i += 1;
            }
            let r = TypedExpr::ArrayLiteral { elements: out, ty: ty.duplicate(), span: *span };
            assert(mapped_exprs(elements@, m, out@));
            r
        },
        TypedExpr::Index { target, index, is_safe, ty, span } => TypedExpr::Index {
            target: Box::new(rename_expr(target, f, cid)),
            index: Box::new(rename_expr(index, f, cid)),
            is_safe: *is_safe,
            ty: ty.duplicate(),
            span: *span,
        },
        TypedExpr::Literal { lit, ty, span } => TypedExpr::Literal { lit: lit.duplicate(), ty: ty.duplicate(), span: *span },
    }
}

/// The block `b` with its names renamed for the copy of `f` made for call `cid`.
fn rename_block(b: &TypedBlock, f: &TypedFunction, cid: usize) -> (r: TypedBlock)
    ensures
        mapped_block(*b, inline_renaming(*f, cid as nat), r),
    decreases b, 0nat,
{
    let ghost m = inline_renaming(*f, cid as nat);
    let ss = &b.stmts;
    let mut out: Vec<TypedStmt> = Vec::new();
    let mut i: usize = 0;
    while i < ss.len()
        invariant
            ss == &b.stmts,
            i <= ss@.len(),
            out@.len() == i,
            m == inline_renaming(*f, cid as nat),
            forall|k: int| 0 <= k < i ==> mapped_stmt(#[trigger] ss@[k], m, out@[k]),
        decreases ss@.len() - i,
    {
        proof {
            assert(decreases_to!(*b => b.stmts));
            assert(decreases_to!(b.stmts => b.stmts@));
            assert(decreases_to!(b.stmts@ => b.stmts@[i as int]));
        }
        out.push(rename_stmt(&ss[i], f, cid));
        i += 1;
    }
    TypedBlock { stmts: out, span: b.span }
}

/// The statement `s` with its names renamed for the copy of `f` made for
/// call `cid`.
fn rename_stmt(s: &TypedStmt, f: &TypedFunction, cid: usize) -> (r: TypedStmt)
    ensures
        mapped_stmt(*s, inline_renaming(*f, cid as nat), r),
    decreases s, 1nat,
{
    match s {
        TypedStmt::Let { name, is_mutable, ty, value, span } => TypedStmt::Let {
            name: renamed(name, f, cid),
            is_mutable: *is_mutable,
            ty: ty.duplicate(),
            value: rename_expr(value, f, cid),
            span: *span,
        },
        TypedStmt::Assign { name, value, span } => TypedStmt::Assign {
            name: renamed(name, f, cid),
            value: rename_expr(value, f, cid),
            span: *span,
        },
        TypedStmt::IndexAssign { target, index, value, is_safe, span } => TypedStmt::IndexAssign {
            target: renamed(target, f, cid),
            index: rename_expr(index, f, cid),
            value: rename_expr(value, f, cid),
            is_safe: *is_safe,
            span: *span,
        },
        TypedStmt::Return(Some(v), span) => TypedStmt::Return(Some(rename_expr(v, f, cid)), *span),
        TypedStmt::Return(None, span) => TypedStmt::Return(None, *span),
        TypedStmt::Break(span) => TypedStmt::Break(*span),
        TypedStmt::Expr(e) => TypedStmt::Expr(rename_expr(e, f, cid)),
        TypedStmt::If { condition, then_branch, else_branch, span } => {
            let c = rename_expr(condition, f, cid);
            let t = rename_block(then_branch, f, cid);
            let e = match else_branch {
                Some(b) => Some(rename_block(b, f, cid)),
                None => None,
            };
            TypedStmt::If { condition: c, then_branch: t, else_branch: e, span: *span }
        },
        TypedStmt::While { condition, body, span } => {
            let c = rename_expr(condition, f, cid);
            let b = rename_block(body, f, cid);
            TypedStmt::While { condition: c, body: b, span: *span }
        },
    }
}

/// Where the value of an inlined call goes.
pub enum TargetVar {
    /// A new variable, bound by `let`.
    Let { name: String, is_mutable: bool, ty: Type, span: Span },
    /// An existing variable.
    Assign { name: String, span: Span },
    /// The caller's own return value.
    Return { span: Span },
}

/// `r` hands the value `ret`, renamed by `m`, to the target `t`.
pub open spec fn received(t: TargetVar, ret: TypedExpr, m: spec_fn(Seq<char>) -> Seq<char>, r: TypedStmt) -> bool {
    match t {
        TargetVar::Let { name, is_mutable, ty, span } => r matches TypedStmt::Let {
            name: n2,
            is_mutable: m2,
            ty: t2,
            value: v2,
            span: s2,
        } && n2 == name && m2 == is_mutable && t2 == ty && s2 == span && mapped_expr(ret, m, v2),
        TargetVar::Assign { name, span } => r matches TypedStmt::Assign { name: n2, value: v2, span: s2 }
            && n2 == name && s2 == span && mapped_expr(ret, m, v2),
        TargetVar::Return { span } => r matches TypedStmt::Return(Some(v2), s2) && s2 == span
            && mapped_expr(ret, m, v2),
    }
}

/// `r` binds the `i`-th parameter of `f`, under its inlined name, to the
/// `i`-th argument (to the parameter itself where the call has no `i`-th
/// argument).
pub open spec fn param_binding(f: TypedFunction, cid: nat, args: Seq<TypedExpr>, i: int, r: TypedStmt) -> bool {
    let p = f.params@[i];
    r matches TypedStmt::Let { name, is_mutable, ty, value, span } && name@ == inline_name(
        f.name@,
        cid,
        p.name@,
    ) && is_mutable && ty == p.ty && span == p.span && if i < args.len() {
        same_tree(args[i], value)
    } else {
        value == (TypedExpr::Ident { name: p.name, ty: p.ty, span: p.span })
    }
}

/// `r` is the copy of the `k`-th statement of `f`'s body: the final
/// `return` hands its value to `t`; any other statement is renamed.
pub open spec fn body_copy(f: TypedFunction, cid: nat, t: TargetVar, k: int, r: TypedStmt) -> bool {
    let ss = f.body.stmts@;
    if k == ss.len() - 1 && ss[k] matches TypedStmt::Return(Some(v), _) {
        received(t, ss[k]->Return_0->0, inline_renaming(f, cid), r)
    } else {
        mapped_stmt(ss[k], inline_renaming(f, cid), r)
    }
}

/// `out` is the expansion of a call of `f` with the arguments `args`, as the
/// inlined call `cid` whose value goes to `t`: one binding per parameter, then
/// the renamed body.
pub open spec fn expanded(f: TypedFunction, args: Seq<TypedExpr>, t: TargetVar, cid: nat, out: Seq<TypedStmt>) -> bool {
    let np = f.params@.len() as int;
    &&& out.len() == np + f.body.stmts@.len()
    &&& forall|i: int| 0 <= i < np ==> param_binding(f, cid, args, i, #[trigger] out[i])
    &&& forall|k: int| 0 <= k < f.body.stmts@.len() ==> body_copy(f, cid, t, k, #[trigger] out[np + k])
}

/// Appends to `out` the expansion of a call of `callee` with the arguments
/// `args`, as the inlined call numbered `call_id`, whose value goes to
/// `target`.
pub fn expand_inlined_call(
    callee: &TypedFunction,
    args: &Vec<TypedExpr>,
    target: TargetVar,
    call_id: usize,
    out: &mut Vec<TypedStmt>,
)
    ensures
        final(out)@.len() >= old(out)@.len(),
        final(out)@.subrange(0, old(out)@.len() as int) == old(out)@,
        expanded(
            *callee,
            args@,
            target,
            call_id as nat,
            final(out)@.subrange(old(out)@.len() as int, final(out)@.len() as int),
        ),
{
    let ghost start = out@.len() as int;
    let ghost t0 = target;
    let np = callee.params.len();
    let mut i: usize = 0;
    while i < np
        invariant
            np == callee.params@.len(),
            i <= np,
            out@.len() == start + i,
            out@.subrange(0, start) == old(out)@,
            start == old(out)@.len(),
            forall|k: int| 0 <= k < i ==> param_binding(*callee, call_id as nat, args@, k, #[trigger] out@[start + k]),
        decreases np - i,
    {
        let p = &callee.params[i];
        let value = if i < args.len() {
            copy_expr(&args[i])
        } else {
            TypedExpr::Ident { name: p.name.clone(), ty: p.ty.duplicate(), span: p.span }
        };
        let stmt = TypedStmt::Let {
            name: inline_name_of(&callee.name, call_id, &p.name),
            is_mutable: true,
            ty: p.ty.duplicate(),
            value,
            span: p.span,
        };
        let ghost before = out@;
        out.push(stmt);
        proof {
            assert(out@.subrange(0, start) =~= before.subrange(0, start));
            assert forall|k: int| 0 <= k < i + 1 implies param_binding(*callee, call_id as nat, args@, k, #[trigger] out@[start + k]) by {
                if k < i {
                    assert(out@[start + k] == before[start + k]);
                }
            }
        }
        i += 1;
    }
    let ss = &callee.body.stmts;
    let n = ss.len();
    let mut k: usize = 0;
    let mut target = Some(target);
    while k < n
        invariant
            ss == &callee.body.stmts,
            n == ss@.len(),
            np == callee.params@.len(),
            k <= n,
            out@.len() == start + np + k,
            out@.subrange(0, start) == old(out)@,
            start == old(out)@.len(),
            k < n ==> target == Some(t0),
            forall|j: int| 0 <= j < np ==> param_binding(*callee, call_id as nat, args@, j, #[trigger] out@[start + j]),
            forall|j: int| 0 <= j < k ==> body_copy(*callee, call_id as nat, t0, j, #[trigger] out@[start + np + j]),
        decreases n - k,
    {
        let ghost before = out@;
        let is_final = k == n - 1;
        let mut done = false;
        if is_final {
            if let TypedStmt::Return(Some(ret_val), _) = &ss[k] {
                let v = rename_expr(ret_val, callee, call_id);
                let t = target.take().unwrap();
                let stmt = match t {
                    TargetVar::Let { name, is_mutable, ty, span } => TypedStmt::Let { name, is_mutable, ty, value: v, span },
                    TargetVar::Assign { name, span } => TypedStmt::Assign { name, value: v, span },
                    TargetVar::Return { span } => TypedStmt::Return(Some(v), span),
                };
                out.push(stmt);
                done = true;
            }
        }
        if !done {
            out.push(rename_stmt(&ss[k], callee, call_id));
        }
        proof {
            assert(out@.subrange(0, start) =~= before.subrange(0, start));
            assert forall|j: int| 0 <= j < np implies param_binding(*callee, call_id as nat, args@, j, #[trigger] out@[start + j]) by {
                assert(out@[start + j] == before[start + j]);
            }
            assert forall|j: int| 0 <= j < k + 1 implies body_copy(*callee, call_id as nat, t0, j, #[trigger] out@[start + np + j]) by {
                if j < k {
                    assert(out@[start + np + j] == before[start + np + j]);
                }
            }
        }
        k += 1;
    }
    proof {
        let tail = out@.subrange(start, out@.len() as int);
        assert forall|j: int| 0 <= j < np implies param_binding(*callee, call_id as nat, args@, j, #[trigger] tail[j]) by {
            assert(tail[j] == out@[start + j]);
        }
        assert forall|j: int| 0 <= j < n implies body_copy(*callee, call_id as nat, t0, j, #[trigger] tail[np + j]) by {
            assert(tail[np + j] == out@[start + np + j]);
        }
    }
}


// ---------------------------------------------------------------------------
// Inlining calls at statement level
// ---------------------------------------------------------------------------

/// The position of the last function of `fs` named `name`.
pub open spec fn def_named(fs: Seq<TypedFunction>, name: Seq<char>) -> Option<int>
    decreases fs.len(),
{
    if fs.len() == 0 {
        None
    } else if fs.last().name@ == name {
        Some(fs.len() - 1)
    } else {
        def_named(fs.drop_last(), name)
    }
}

/// A call of `name` is inlined: the (last) function of that name among
/// `defs` is inlinable, `rec` telling which of them are recursive.
pub open spec fn call_inlined(defs: Seq<TypedFunction>, rec: Seq<bool>, name: Seq<char>) -> bool {
    match def_named(defs, name) {
        Some(j) => inlinable(defs[j], rec[j]),
        None => false,
    }
}

/// The call that the statement `s` makes at its root, when it is inlined:
/// the callee's name, the arguments and where the value goes.
pub open spec fn inline_site(s: TypedStmt, defs: Seq<TypedFunction>, rec: Seq<bool>) -> Option<
    (Seq<char>, Seq<TypedExpr>, TargetVar),
> {
    match s {
        TypedStmt::Let { name, is_mutable, ty, value: TypedExpr::Call { callee, args, .. }, span } => if call_inlined(
            defs,
            rec,
            callee@,
        ) {
            Some((callee@, args@, TargetVar::Let { name, is_mutable, ty, span }))
        } else {
            None
        },
        TypedStmt::Assign { name, value: TypedExpr::Call { callee, args, .. }, span } => if call_inlined(
            defs,
            rec,
            callee@,
        ) {
            Some((callee@, args@, TargetVar::Assign { name, span }))
        } else {
            None
        },
        TypedStmt::Return(Some(TypedExpr::Call { callee, args, .. }), span) => if call_inlined(
            defs,
            rec,
            callee@,
        ) {
            Some((callee@, args@, TargetVar::Return { span }))
        } else {
            None
        },
        _ => None,
    }
}

/// The number of calls inlined in the statements `ss`, nested blocks included.
pub open spec fn stmts_sites(ss: Seq<TypedStmt>, defs: Seq<TypedFunction>, rec: Seq<bool>) -> nat
    decreases ss, 1nat,
{
    if ss.len() == 0 {
        0
    } else {
        stmts_sites(ss.drop_last(), defs, rec) + stmt_sites(ss.last(), defs, rec)
    }
}

/// The number of calls inlined in `s`.
pub open spec fn stmt_sites(s: TypedStmt, defs: Seq<TypedFunction>, rec: Seq<bool>) -> nat
    decreases s, 0nat,
{
    if inline_site(s, defs, rec) is Some {
        1
    } else {
        match s {
            TypedStmt::If { then_branch, else_branch, .. } => stmts_sites(then_branch.stmts@, defs, rec)
                + match else_branch {
                Some(b) => stmts_sites(b.stmts@, defs, rec),
                None => 0,
            },
            TypedStmt::While { body, .. } => stmts_sites(body.stmts@, defs, rec),
            _ => 0,
        }
    }
}

/// The number of statements that `s` becomes.
pub open spec fn stmt_out_len(s: TypedStmt, defs: Seq<TypedFunction>, rec: Seq<bool>) -> nat {
    match inline_site(s, defs, rec) {
        Some((callee, _, _)) => {
            let f = defs[def_named(defs, callee)->0];
            f.params@.len() + f.body.stmts@.len()
        },
        None => 1,
    }
}

/// `out` is what the statement `s` becomes when the calls numbered from
/// `c + 1` on are inlined: the expansion of its own call, or `s` with the
/// calls in its nested blocks inlined.
pub open spec fn inlined_stmt(
    s: TypedStmt,
    defs: Seq<TypedFunction>,
    rec: Seq<bool>,
    c: nat,
    out: Seq<TypedStmt>,
) -> bool
    decreases s, 0nat,
{
    match inline_site(s, defs, rec) {
        Some((callee, args, t)) => expanded(defs[def_named(defs, callee)->0], args, t, c + 1, out),
        None => match s {
            TypedStmt::If { condition, then_branch, else_branch, span } => out.len() == 1 && (out[0] matches TypedStmt::If {
                condition: c2,
                then_branch: t2,
                else_branch: e2,
                span: s2,
            } && c2 == condition && s2 == span && inlined_block(then_branch, defs, rec, c, t2)
                && match else_branch {
                Some(b) => e2 matches Some(b2) && inlined_block(
                    b,
                    defs,
                    rec,
                    c + stmts_sites(then_branch.stmts@, defs, rec),
                    b2,
                ),
                None => e2 is None,
            }),
            TypedStmt::While { condition, body, span } => out.len() == 1 && (out[0] matches TypedStmt::While {
                condition: c2,
                body: b2,
                span: s2,
            } && c2 == condition && s2 == span && inlined_block(body, defs, rec, c, b2)),
            _ => out == seq![s],
        },
    }
}

/// `rs` is what the statements `ss` become, each after those before it.
pub open spec fn inlined_stmts(
    ss: Seq<TypedStmt>,
    defs: Seq<TypedFunction>,
    rec: Seq<bool>,
    c: nat,
    rs: Seq<TypedStmt>,
) -> bool
    decreases ss, 1nat,
{
    if ss.len() == 0 {
        rs.len() == 0
    } else {
        let k = rs.len() - stmt_out_len(ss.last(), defs, rec);
        &&& k >= 0
        &&& inlined_stmts(ss.drop_last(), defs, rec, c, rs.subrange(0, k))
        &&& inlined_stmt(
            ss.last(),
            defs,
            rec,
            c + stmts_sites(ss.drop_last(), defs, rec),
            rs.subrange(k, rs.len() as int),
        )
    }
}

/// `r` is the block `b` with its calls inlined, numbered from `c + 1` on.
pub open spec fn inlined_block(b: TypedBlock, defs: Seq<TypedFunction>, rec: Seq<bool>, c: nat, r: TypedBlock) -> bool
    decreases b, 2nat,
{
    r.span == b.span && inlined_stmts(b.stmts@, defs, rec, c, r.stmts@)
}

/// The position of the last function of `defs` named `name`.
fn def_index(defs: &Vec<TypedFunction>, name: &String) -> (r: Option<usize>)
    ensures
        match r {
            Some(j) => def_named(defs@, name@) == Some(j as int),
            None => def_named(defs@, name@) is None,
        },
{
    let mut k = defs.len();
    assert(defs@.subrange(0, k as int) =~= defs@);
    while k > 0
        invariant
            k <= defs@.len(),
            def_named(defs@, name@) == def_named(defs@.subrange(0, k as int), name@),
        decreases k,
    {
        let ghost pre = defs@.subrange(0, k as int);
        assert(pre.drop_last() =~= defs@.subrange(0, k - 1));
        if defs[k - 1].name.eq(name) {
            return Some(k - 1);
        }
        k -= 1;
    }
    None
}

/// Whether the (last) function named `name` among `defs` is inlinable.
fn call_is_inlined(defs: &Vec<TypedFunction>, recursive: &Vec<bool>, name: &String) -> (r: Option<usize>)
    requires
        recursive@.len() == defs@.len(),
    ensures
        r is Some <==> call_inlined(defs@, recursive@, name@),
        r matches Some(j) ==> def_named(defs@, name@) == Some(j as int),
{
    proof {
        lemma_def_named_in_range(defs@, name@);
    }
    let found = def_index(defs, name);
    match found {
        Some(j) => {
            assert(def_named(defs@, name@) == Some(j as int));
            if is_inlinable(&defs[j], recursive[j]) {
                Some(j)
            } else {
                None
            }
        },
        None => None,
    }
}

/// The function that `def_named` finds is one of `fs`.
proof fn lemma_def_named_in_range(fs: Seq<TypedFunction>, name: Seq<char>)
    ensures
        def_named(fs, name) matches Some(j) ==> 0 <= j < fs.len(),
    decreases fs.len(),
{
    if fs.len() > 0 {
        lemma_def_named_in_range(fs.drop_last(), name);
    }
}

/// Appends to `out` what the statement `s` becomes when its calls are
/// inlined, numbering the inlined calls on from `*counter`.
fn inline_stmt(
    s: TypedStmt,
    defs: &Vec<TypedFunction>,
    recursive: &Vec<bool>,
    counter: &mut usize,
    out: &mut Vec<TypedStmt>,
)
    requires
        recursive@.len() == defs@.len(),
        *old(counter) + stmt_sites(s, defs@, recursive@) <= usize::MAX,
    ensures
        final(out)@.len() >= old(out)@.len(),
        final(out)@.subrange(0, old(out)@.len() as int) == old(out)@,
        inlined_stmt(
            s,
            defs@,
            recursive@,
            *old(counter) as nat,
            final(out)@.subrange(old(out)@.len() as int, final(out)@.len() as int),
        ),
        *final(counter) == *old(counter) + stmt_sites(s, defs@, recursive@),
    decreases s, 1nat,
{
    let ghost s0 = s;
    let ghost start = out@.len() as int;
    proof {
        lemma_def_named_in_range(defs@, Seq::empty());
    }
    match s {
        TypedStmt::If { condition, then_branch, else_branch, span } => {
            let ghost tb = then_branch;
            let t = inline_in_block(then_branch, defs, recursive, counter);
            let e = match else_branch {
                Some(b) => Some(inline_in_block(b, defs, recursive, counter)),
                None => None,
            };
            out.push(TypedStmt::If { condition, then_branch: t, else_branch: e, span });
            proof {
                let piece = out@.subrange(start, out@.len() as int);
                assert(piece =~= seq![out@.last()]);
                assert(out@.subrange(0, start) =~= old(out)@);
            }
        },
        TypedStmt::While { condition, body, span } => {
            let b = inline_in_block(body, defs, recursive, counter);
            out.push(TypedStmt::While { condition, body: b, span });
            proof {
                let piece = out@.subrange(start, out@.len() as int);
                assert(piece =~= seq![out@.last()]);
                assert(out@.subrange(0, start) =~= old(out)@);
            }
        },
        TypedStmt::Let { name, is_mutable, ty, value, span } => {
            match value {
                TypedExpr::Call { callee, args, ty: call_ty, span: call_span } => {
                    match call_is_inlined(defs, recursive, &callee) {
                        Some(j) => {
                            proof {
                                lemma_def_named_in_range(defs@, callee@);
                            }
                            *counter = *counter + 1;
                            expand_inlined_call(&defs[j], &args, TargetVar::Let { name, is_mutable, ty, span }, *counter, out);
                        },
                        None => {
                            out.push(
                                TypedStmt::Let {
                                    name,
                                    is_mutable,
                                    ty,
                                    value: TypedExpr::Call { callee, args, ty: call_ty, span: call_span },
                                    span,
                                },
                            );
                            proof {
                                assert(out@.subrange(start, out@.len() as int) =~= seq![s0]);
                                assert(out@.subrange(0, start) =~= old(out)@);
                            }
                        },
                    }
                },
                other => {
                    out.push(TypedStmt::Let { name, is_mutable, ty, value: other, span });
                    proof {
                        assert(out@.subrange(start, out@.len() as int) =~= seq![s0]);
                        assert(out@.subrange(0, start) =~= old(out)@);
                    }
                },
            }
        },
        TypedStmt::Assign { name, value, span } => {
            match value {
                TypedExpr::Call { callee, args, ty: call_ty, span: call_span } => {
                    match call_is_inlined(defs, recursive, &callee) {
                        Some(j) => {
                            proof {
                                lemma_def_named_in_range(defs@, callee@);
                            }
                            *counter = *counter + 1;
                            expand_inlined_call(&defs[j], &args, TargetVar::Assign { name, span }, *counter, out);
                        },
                        None => {
                            out.push(
                                TypedStmt::Assign {
                                    name,
                                    value: TypedExpr::Call { callee, args, ty: call_ty, span: call_span },
                                    span,
                                },
                            );
                            proof {
                                assert(out@.subrange(start, out@.len() as int) =~= seq![s0]);
                                assert(out@.subrange(0, start) =~= old(out)@);
                            }
                        },
                    }
                },
                other => {
                    out.push(TypedStmt::Assign { name, value: other, span });
                    proof {
                        assert(out@.subrange(start, out@.len() as int) =~= seq![s0]);
                        assert(out@.subrange(0, start) =~= old(out)@);
                    }
                },
            }
        },
        TypedStmt::Return(Some(TypedExpr::Call { callee, args, ty: call_ty, span: call_span }), span) => {
            match call_is_inlined(defs, recursive, &callee) {
                Some(j) => {
                    proof {
                        lemma_def_named_in_range(defs@, callee@);
                    }
                    *counter = *counter + 1;
                    expand_inlined_call(&defs[j], &args, TargetVar::Return { span }, *counter, out);
                },
                None => {
                    out.push(
                        TypedStmt::Return(
                            Some(TypedExpr::Call { callee, args, ty: call_ty, span: call_span }),
                            span,
                        ),
                    );
                    proof {
                        assert(out@.subrange(start, out@.len() as int) =~= seq![s0]);
                        assert(out@.subrange(0, start) =~= old(out)@);
                    }
                },
            }
        },
        other => {
            out.push(other);
            proof {
                assert(out@.subrange(start, out@.len() as int) =~= seq![s0]);
                assert(out@.subrange(0, start) =~= old(out)@);
            }
        },
    }
}

/// The block `block` with its calls inlined, numbered on from `*counter`.
fn inline_in_block(
    block: TypedBlock,
    defs: &Vec<TypedFunction>,
    recursive: &Vec<bool>,
    counter: &mut usize,
) -> (r: TypedBlock)
    requires
        recursive@.len() == defs@.len(),
        *old(counter) + stmts_sites(block.stmts@, defs@, recursive@) <= usize::MAX,
    ensures
        inlined_block(block, defs@, recursive@, *old(counter) as nat, r),
        *final(counter) == *old(counter) + stmts_sites(block.stmts@, defs@, recursive@),
    decreases block, 0nat,
{
    let ghost b0 = block;
    let ghost ss = block.stmts@;
    let ghost c0 = *counter as nat;
    let span = block.span;
    let mut rest = block.stmts;
    let mut out: Vec<TypedStmt> = Vec::new();
    let mut i: usize = 0;
    let n = rest.len();
    assert(ss.subrange(0, 0) =~= Seq::<TypedStmt>::empty());
    while i < n
        invariant
            b0 == block,
            ss == b0.stmts@,
            n == ss.len(),
            i <= n,
            rest@ == ss.subrange(i as int, n as int),
            recursive@.len() == defs@.len(),
            c0 + stmts_sites(ss, defs@, recursive@) <= usize::MAX,
            *counter == c0 + stmts_sites(ss.subrange(0, i as int), defs@, recursive@),
            inlined_stmts(ss.subrange(0, i as int), defs@, recursive@, c0, out@),
        decreases n - i,
    {
        proof {
            assert(decreases_to!(b0 => b0.stmts));
            assert(decreases_to!(b0.stmts => b0.stmts@));
            assert(decreases_to!(b0.stmts@ => b0.stmts@[i as int]));
            let next = ss.subrange(0, i + 1);
            assert(next.drop_last() =~= ss.subrange(0, i as int));
            assert(next.last() == ss[i as int]);
            lemma_sites_prefix(ss, defs@, recursive@, i as int + 1);
        }
        let stmt = rest.remove(0);
        proof {
            assert(stmt == b0.stmts@[i as int]);
            assert(decreases_to!(b0 => stmt));
        }
        let ghost before = out@;
        inline_stmt(stmt, defs, recursive, counter, &mut out);
        proof {
            let next = ss.subrange(0, i + 1);
            let k = out@.len() - stmt_out_len(ss[i as int], defs@, recursive@);
            lemma_inlined_stmt_len(ss[i as int], defs@, recursive@, c0 + stmts_sites(ss.subrange(0, i as int), defs@, recursive@), out@.subrange(before.len() as int, out@.len() as int));
            assert(k == before.len());
            assert(out@.subrange(0, k) =~= before);
            assert(rest@ =~= ss.subrange(i + 1, n as int));
        }
        i += 1;
    }
    assert(ss.subrange(0, n as int) =~= ss);
    TypedBlock { stmts: out, span }
}

/// The sites in a prefix of `ss` are at most those in all of `ss`.
proof fn lemma_sites_prefix(ss: Seq<TypedStmt>, defs: Seq<TypedFunction>, rec: Seq<bool>, k: int)
    requires
        0 <= k <= ss.len(),
    ensures
        stmts_sites(ss.subrange(0, k), defs, rec) <= stmts_sites(ss, defs, rec),
    decreases ss.len() - k,
{
    if k < ss.len() {
        let next = ss.subrange(0, k + 1);
        assert(next.drop_last() =~= ss.subrange(0, k));
        lemma_sites_prefix(ss, defs, rec, k + 1);
    } else {
        assert(ss.subrange(0, k) =~= ss);
    }
}

/// What a statement becomes has the length `stmt_out_len` gives.
proof fn lemma_inlined_stmt_len(s: TypedStmt, defs: Seq<TypedFunction>, rec: Seq<bool>, c: nat, out: Seq<TypedStmt>)
    requires
        inlined_stmt(s, defs, rec, c, out),
    ensures
        out.len() == stmt_out_len(s, defs, rec),
{
}

/// Inlines, in the block, every call that a `let`, an assignment or a
/// `return` makes at its root of an inlinable function, numbering the calls
/// on from `*call_counter`; says whether it inlined any.
pub fn inline_block(
    block: &mut TypedBlock,
    defs: &Vec<TypedFunction>,
    recursive: &Vec<bool>,
    call_counter: &mut usize,
) -> (changed: bool)
    requires
        recursive@.len() == defs@.len(),
        *old(call_counter) + stmts_sites(old(block).stmts@, defs@, recursive@) <= usize::MAX,
    ensures
        inlined_block(*old(block), defs@, recursive@, *old(call_counter) as nat, *final(block)),
        *final(call_counter) == *old(call_counter) + stmts_sites(old(block).stmts@, defs@, recursive@),
        changed == (stmts_sites(old(block).stmts@, defs@, recursive@) > 0),
{
    let before = *call_counter;
    let mut taken = TypedBlock { stmts: Vec::new(), span: block.span };
    core::mem::swap(&mut taken, block);
    let r = inline_in_block(taken, defs, recursive, call_counter);
    *block = r;
    *call_counter != before
}


// ---------------------------------------------------------------------------
// Lifting calls out of expressions
// ---------------------------------------------------------------------------

/// The name of the variable that holds the value of the lifted call
/// numbered `cid`, of the function `callee`.
pub open spec fn lift_name(callee: Seq<char>, cid: nat) -> Seq<char> {
    "__inl_lifted_"@ + callee + "_"@ + dec_digits(cid)
}

/// The number of calls of inlined functions in `e`, nested ones included.
pub open spec fn expr_lifts(e: TypedExpr, defs: Seq<TypedFunction>, rec: Seq<bool>) -> nat
    decreases e, 1nat,
{
    match e {
        TypedExpr::Call { callee, args, .. } => exprs_lifts(args@, defs, rec) + if call_inlined(
            defs,
            rec,
            callee@,
        ) {
            1nat
        } else {
            0nat
        },
        TypedExpr::Unary { expr, .. } => expr_lifts(*expr, defs, rec),
        TypedExpr::Binary { left, right, .. } => expr_lifts(*left, defs, rec) + expr_lifts(*right, defs, rec),
        TypedExpr::ArrayLiteral { elements, .. } => exprs_lifts(elements@, defs, rec),
        TypedExpr::Index { target, index, .. } => expr_lifts(*target, defs, rec) + expr_lifts(*index, defs, rec),
        _ => 0,
    }
}

/// The number of calls of inlined functions in `es`.
pub open spec fn exprs_lifts(es: Seq<TypedExpr>, defs: Seq<TypedFunction>, rec: Seq<bool>) -> nat
    decreases es, 0nat,
{
    if es.len() == 0 {
        0
    } else {
        exprs_lifts(es.drop_last(), defs, rec) + expr_lifts(es.last(), defs, rec)
    }
}

/// The expressions `es`, lifted in order with the calls numbered from
/// `c + 1` on, are `rs`, and the `let`s lifted out of them are `pres`.
pub open spec fn lifted_all(
    es: Seq<TypedExpr>,
    defs: Seq<TypedFunction>,
    rec: Seq<bool>,
    c: nat,
    rs: Seq<TypedExpr>,
    pres: Seq<TypedStmt>,
) -> bool
    decreases es, 0nat,
{
    &&& rs.len() == es.len()
    &&& pres.len() == exprs_lifts(es, defs, rec)
    &&& es.len() > 0 ==> {
        let k = exprs_lifts(es.drop_last(), defs, rec) as int;
        &&& lifted_all(es.drop_last(), defs, rec, c, rs.drop_last(), pres.subrange(0, k))
        &&& lifted_expr(es.last(), defs, rec, (c + k) as nat, rs.last(), pres.subrange(k, pres.len() as int))
    }
}

/// `r` is `e` with every call of an inlined function, innermost first and
/// numbered from `c + 1` on, replaced by a variable that the `let` in `pres`
/// binds to it.
pub open spec fn lifted_expr(
    e: TypedExpr,
    defs: Seq<TypedFunction>,
    rec: Seq<bool>,
    c: nat,
    r: TypedExpr,
    pres: Seq<TypedStmt>,
) -> bool
    decreases e, 1nat,
{
    match e {
        TypedExpr::Call { callee, args, ty, span } => {
            let k = exprs_lifts(args@, defs, rec);
            if call_inlined(defs, rec, callee@) {
                &&& pres.len() == k + 1
                &&& pres[k as int] matches TypedStmt::Let {
                    name,
                    is_mutable,
                    ty: t2,
                    value: TypedExpr::Call { callee: c2, args: a2, ty: t3, span: s3 },
                    span: s2,
                } && name@ == lift_name(callee@, c + k + 1) && !is_mutable && t2 == ty && c2 == callee
                    && t3 == ty && s3 == span && s2 == span && lifted_all(
                    args@,
                    defs,
                    rec,
                    c,
                    a2@,
                    pres.subrange(0, k as int),
                ) && r == (TypedExpr::Ident { name, ty, span })
            } else {
                r matches TypedExpr::Call { callee: c2, args: a2, ty: t2, span: s2 } && c2 == callee && t2
                    == ty && s2 == span && lifted_all(args@, defs, rec, c, a2@, pres)
            }
        },
        TypedExpr::Unary { op, expr, ty, span } => r matches TypedExpr::Unary {
            op: o2,
            expr: e2,
            ty: t2,
            span: s2,
        } && o2 == op && t2 == ty && s2 == span && lifted_expr(*expr, defs, rec, c, *e2, pres),
        TypedExpr::Binary { op, left, right, ty, span } => {
            let kl = expr_lifts(*left, defs, rec);
            r matches TypedExpr::Binary { op: o2, left: l2, right: r2, ty: t2, span: s2 } && o2 == op
                && t2 == ty && s2 == span && pres.len() == kl + expr_lifts(*right, defs, rec)
                && lifted_expr(*left, defs, rec, c, *l2, pres.subrange(0, kl as int)) && lifted_expr(
                *right,
                defs,
                rec,
                c + kl,
                *r2,
                pres.subrange(kl as int, pres.len() as int),
            )
        },
        TypedExpr::ArrayLiteral { elements, ty, span } => r matches TypedExpr::ArrayLiteral {
            elements: e2,
            ty: t2,
            span: s2,
        } && t2 == ty && s2 == span && lifted_all(elements@, defs, rec, c, e2@, pres),
        TypedExpr::Index { target, index, is_safe, ty, span } => {
            let kt = expr_lifts(*target, defs, rec);
            r matches TypedExpr::Index { target: g2, index: i2, is_safe: f2, ty: t2, span: s2 } && f2
                == is_safe && t2 == ty && s2 == span && pres.len() == kt + expr_lifts(*index, defs, rec)
                && lifted_expr(*target, defs, rec, c, *g2, pres.subrange(0, kt as int)) && lifted_expr(
                *index,
                defs,
                rec,
                c + kt,
                *i2,
                pres.subrange(kt as int, pres.len() as int),
            )
        },
        _ => r == e && pres.len() == 0,
    }
}

/// The name `lift_name(callee, cid)`.
fn lift_name_of(callee: &String, cid: usize) -> (s: String)
    ensures
        s@ == lift_name(callee@, cid as nat),
{
    let mut s = String::from_str("__inl_lifted_");
    s.append(callee.as_str());
    s.append("_");
    push_usize(&mut s, cid);
    proof {
        reveal_strlit("__inl_lifted_");
        reveal_strlit("_");
    }
    assert(s@ =~= lift_name(callee@, cid as nat));
    s
}

/// The lifted calls of a lifted expression are as many as `expr_lifts` says.
proof fn lemma_lifted_len(
    e: TypedExpr,
    defs: Seq<TypedFunction>,
    rec: Seq<bool>,
    c: nat,
    r: TypedExpr,
    pres: Seq<TypedStmt>,
)
    requires
        lifted_expr(e, defs, rec, c, r, pres),
    ensures
        pres.len() == expr_lifts(e, defs, rec),
    decreases e,
{
    match e {
        TypedExpr::Unary { expr, .. } => {
            lemma_lifted_len(*expr, defs, rec, c, *r->Unary_expr, pres);
        },
        TypedExpr::Call { callee, args, .. } => {
            let k = exprs_lifts(args@, defs, rec);
            if call_inlined(defs, rec, callee@) {
                assert(pres.len() == k + 1);
            } else {
                let a2 = r->Call_args;
                assert(lifted_all(args@, defs, rec, c, a2@, pres));
            }
        },
        TypedExpr::ArrayLiteral { elements, .. } => {
            let e2 = r->ArrayLiteral_elements;
            assert(lifted_all(elements@, defs, rec, c, e2@, pres));
        },
        _ => {},
    }
}

/// Lifts, in order, the calls of inlined functions out of the expressions
/// `es`, appending their `let`s to `pre`.
fn lift_all(
    es: Vec<TypedExpr>,
    pre: &mut Vec<TypedStmt>,
    defs: &Vec<TypedFunction>,
    recursive: &Vec<bool>,
    counter: &mut usize,
    Ghost(whole): Ghost<TypedExpr>,
) -> (rs: Vec<TypedExpr>)
    requires
        recursive@.len() == defs@.len(),
        forall|i: int| 0 <= i < es@.len() ==> decreases_to!(whole => #[trigger] es@[i]),
        *old(counter) + exprs_lifts(es@, defs@, recursive@) <= usize::MAX,
    ensures
        final(pre)@.len() >= old(pre)@.len(),
        final(pre)@.subrange(0, old(pre)@.len() as int) == old(pre)@,
        lifted_all(
            es@,
            defs@,
            recursive@,
            *old(counter) as nat,
            rs@,
            final(pre)@.subrange(old(pre)@.len() as int, final(pre)@.len() as int),
        ),
        *final(counter) == *old(counter) + exprs_lifts(es@, defs@, recursive@),
    decreases whole, 0nat,
{
    let ghost orig = es@;
    let ghost start = pre@.len() as int;
    let ghost c0 = *counter as nat;
    let n = es.len();
    let mut es = es;
    let mut rs: Vec<TypedExpr> = Vec::new();
    let mut i: usize = 0;
    assert(orig.subrange(0, 0) =~= Seq::<TypedExpr>::empty());
    assert(pre@.subrange(start, pre@.len() as int) =~= Seq::<TypedStmt>::empty());
    while i < n
        invariant
            n == orig.len(),
            i <= n,
            es@ == orig.subrange(i as int, n as int),
            recursive@.len() == defs@.len(),
            forall|k: int| 0 <= k < orig.len() ==> decreases_to!(whole => #[trigger] orig[k]),
            c0 + exprs_lifts(orig, defs@, recursive@) <= usize::MAX,
            start == old(pre)@.len(),
            pre@.len() >= start,
            pre@.subrange(0, start) == old(pre)@,
            *counter == c0 + exprs_lifts(orig.subrange(0, i as int), defs@, recursive@),
            lifted_all(orig.subrange(0, i as int), defs@, recursive@, c0, rs@, pre@.subrange(start, pre@.len() as int)),
        decreases n - i,
    {
        let e = es.remove(0);
        proof {
            assert(e == orig[i as int]);
            assert(decreases_to!(whole => e));
            let next = orig.subrange(0, i + 1);
            assert(next.drop_last() =~= orig.subrange(0, i as int));
            assert(next.last() == orig[i as int]);
            lemma_exprs_lifts_prefix(orig, defs@, recursive@, i as int + 1);
        }
        let ghost before = pre@;
        let ghost rs0 = rs@;
        let r = lift_calls_expr(e, pre, defs, recursive, counter);
        proof {
            let piece = pre@.subrange(before.len() as int, pre@.len() as int);
            lemma_lifted_len(orig[i as int], defs@, recursive@, c0 + exprs_lifts(orig.subrange(0, i as int), defs@, recursive@), r, piece);
            assert(pre@.subrange(0, start) =~= before.subrange(0, start));
            let old_all = before.subrange(start, before.len() as int);
            let all = pre@.subrange(start, pre@.len() as int);
            assert(all =~= old_all + piece);
            let next = orig.subrange(0, i + 1);
            assert(rs0.push(r).drop_last() =~= rs0);
            assert(all.subrange(0, old_all.len() as int) =~= old_all);
            assert(all.subrange(old_all.len() as int, all.len() as int) =~= piece);
            assert(lifted_all(next, defs@, recursive@, c0, rs0.push(r), all));
            assert(es@ =~= orig.subrange(i + 1, n as int));
        }
        rs.push(r);
        i += 1;
    }
    assert(orig.subrange(0, n as int) =~= orig);
    rs
}

/// The calls in a prefix of `es` are at most those in all of `es`.
proof fn lemma_exprs_lifts_prefix(es: Seq<TypedExpr>, defs: Seq<TypedFunction>, rec: Seq<bool>, k: int)
    requires
        0 <= k <= es.len(),
    ensures
        exprs_lifts(es.subrange(0, k), defs, rec) <= exprs_lifts(es, defs, rec),
    decreases es.len() - k,
{
    if k < es.len() {
        let next = es.subrange(0, k + 1);
        assert(next.drop_last() =~= es.subrange(0, k));
        lemma_exprs_lifts_prefix(es, defs, rec, k + 1);
    } else {
        assert(es.subrange(0, k) =~= es);
    }
}

/// Replaces in `e` every call of an inlined function, innermost first, by a
/// variable bound to it by a `let` appended to `pre`; the calls are numbered
/// on from `*counter`.
fn lift_calls_expr(
    e: TypedExpr,
    pre: &mut Vec<TypedStmt>,
    defs: &Vec<TypedFunction>,
    recursive: &Vec<bool>,
    counter: &mut usize,
) -> (r: TypedExpr)
    requires
        recursive@.len() == defs@.len(),
        *old(counter) + expr_lifts(e, defs@, recursive@) <= usize::MAX,
    ensures
        final(pre)@.len() >= old(pre)@.len(),
        final(pre)@.subrange(0, old(pre)@.len() as int) == old(pre)@,
        lifted_expr(
            e,
            defs@,
            recursive@,
            *old(counter) as nat,
            r,
            final(pre)@.subrange(old(pre)@.len() as int, final(pre)@.len() as int),
        ),
        *final(counter) == *old(counter) + expr_lifts(e, defs@, recursive@),
    decreases e, 1nat,
{
    let ghost e0 = e;
    let ghost start = pre@.len() as int;
    let ghost c0 = *counter as nat;
    match e {
        TypedExpr::Call { callee, args, ty, span } => {
            proof {
                assert forall|k: int| 0 <= k < args@.len() implies decreases_to!(e0 => #[trigger] args@[k]) by {
                    assert(decreases_to!(e0 => e0->Call_args));
                    assert(decreases_to!(e0->Call_args => args@));
                    assert(decreases_to!(args@ => args@[k]));
                }
            }
            let ghost a0 = args@;
            let a2 = lift_all(args, pre, defs, recursive, counter, Ghost(e0));
            let ghost mid = pre@;
            let ghost k = exprs_lifts(a0, defs@, recursive@);
            assert(*counter == c0 + k);
            match call_is_inlined(defs, recursive, &callee) {
                Some(_) => {
                    *counter = *counter + 1;
                    let tmp = lift_name_of(&callee, *counter);
                    let ghost before = pre@;
                    pre.push(
                        TypedStmt::Let {
                            name: tmp.clone(),
                            is_mutable: false,
                            ty: ty.duplicate(),
                            value: TypedExpr::Call { callee, args: a2, ty: ty.duplicate(), span },
                            span,
                        },
                    );
                    proof {
                        let piece = pre@.subrange(start, pre@.len() as int);
                        assert(piece.subrange(0, k as int) =~= before.subrange(start, before.len() as int));
                        assert(piece[k as int] == pre@.last());
                        assert(pre@.subrange(0, start) =~= before.subrange(0, start));
                    }
                    TypedExpr::Ident { name: tmp, ty, span }
                },
                None => {
                    proof {
                        assert(pre@ == mid);
                    }
                    TypedExpr::Call { callee, args: a2, ty, span }
                },
            }
        },
        TypedExpr::Unary { op, expr, ty, span } => {
            let inner = lift_calls_expr(*expr, pre, defs, recursive, counter);
            TypedExpr::Unary { op, expr: Box::new(inner), ty, span }
        },
        TypedExpr::Binary { op, left, right, ty, span } => {
            let ghost lt = *left;
            let l2 = lift_calls_expr(*left, pre, defs, recursive, counter);
            let ghost mid = pre@;
            let r2 = lift_calls_expr(*right, pre, defs, recursive, counter);
            proof {
                lemma_lifted_len(lt, defs@, recursive@, c0, l2, mid.subrange(start, mid.len() as int));
                let all = pre@.subrange(start, pre@.len() as int);
                let kl = expr_lifts(lt, defs@, recursive@);
                assert(all.subrange(0, kl as int) =~= mid.subrange(start, mid.len() as int));
                assert(all.subrange(kl as int, all.len() as int) =~= pre@.subrange(mid.len() as int, pre@.len() as int));
                assert(pre@.subrange(0, start) =~= mid.subrange(0, start));
                lemma_lifted_len(*e0->Binary_right, defs@, recursive@, c0 + kl, r2, pre@.subrange(mid.len() as int, pre@.len() as int));
            }
            TypedExpr::Binary { op, left: Box::new(l2), right: Box::new(r2), ty, span }
        },
        TypedExpr::ArrayLiteral { elements, ty, span } => {
            proof {
                assert forall|k: int| 0 <= k < elements@.len() implies decreases_to!(e0 => #[trigger] elements@[k]) by {
                    assert(decreases_to!(e0 => e0->ArrayLiteral_elements));
                    assert(decreases_to!(e0->ArrayLiteral_elements => elements@));
                    assert(decreases_to!(elements@ => elements@[k]));
                }
            }
            let e2 = lift_all(elements, pre, defs, recursive, counter, Ghost(e0));
            TypedExpr::ArrayLiteral { elements: e2, ty, span }
        },
        TypedExpr::Index { target, index, is_safe, ty, span } => {
            let ghost tt = *target;
            let t2 = lift_calls_expr(*target, pre, defs, recursive, counter);
            let ghost mid = pre@;
            let i2 = lift_calls_expr(*index, pre, defs, recursive, counter);
            proof {
                lemma_lifted_len(tt, defs@, recursive@, c0, t2, mid.subrange(start, mid.len() as int));
                let all = pre@.subrange(start, pre@.len() as int);
                let kt = expr_lifts(tt, defs@, recursive@);
                assert(all.subrange(0, kt as int) =~= mid.subrange(start, mid.len() as int));
                assert(all.subrange(kt as int, all.len() as int) =~= pre@.subrange(mid.len() as int, pre@.len() as int));
                assert(pre@.subrange(0, start) =~= mid.subrange(0, start));
                lemma_lifted_len(*e0->Index_index, defs@, recursive@, c0 + kt, i2, pre@.subrange(mid.len() as int, pre@.len() as int));
            }
            TypedExpr::Index { target: Box::new(t2), index: Box::new(i2), is_safe, ty, span }
        },
        other => {
            proof {
                assert(pre@.subrange(start, pre@.len() as int) =~= Seq::<TypedStmt>::empty());
            }
            other
        },
    }
}


/// `e` is itself a call of an inlined function.
pub open spec fn bare_inlined_call(e: TypedExpr, defs: Seq<TypedFunction>, rec: Seq<bool>) -> bool {
    e matches TypedExpr::Call { callee, .. } && call_inlined(defs, rec, callee@)
}

/// The number of calls lifted out of `s`, nested blocks included: a `let`,
/// assignment or `return` whose value is itself an inlined call keeps it; a
/// loop condition keeps its calls.
pub open spec fn stmt_lifts(s: TypedStmt, defs: Seq<TypedFunction>, rec: Seq<bool>) -> nat
    decreases s, 0nat,
{
    match s {
        TypedStmt::If { condition, then_branch, else_branch, .. } => expr_lifts(condition, defs, rec)
            + stmts_lifts(then_branch.stmts@, defs, rec) + match else_branch {
            Some(b) => stmts_lifts(b.stmts@, defs, rec),
            None => 0,
        },
        TypedStmt::While { body, .. } => stmts_lifts(body.stmts@, defs, rec),
        TypedStmt::Let { value, .. } => if bare_inlined_call(value, defs, rec) {
            0
        } else {
            expr_lifts(value, defs, rec)
        },
        TypedStmt::Assign { value, .. } => if bare_inlined_call(value, defs, rec) {
            0
        } else {
            expr_lifts(value, defs, rec)
        },
        TypedStmt::Return(Some(v), _) => if bare_inlined_call(v, defs, rec) {
            0
        } else {
            expr_lifts(v, defs, rec)
        },
        TypedStmt::Expr(e) => expr_lifts(e, defs, rec),
        TypedStmt::IndexAssign { index, value, .. } => expr_lifts(index, defs, rec) + expr_lifts(value, defs, rec),
        _ => 0,
    }
}

/// The number of calls lifted out of the statements `ss`.
pub open spec fn stmts_lifts(ss: Seq<TypedStmt>, defs: Seq<TypedFunction>, rec: Seq<bool>) -> nat
    decreases ss, 1nat,
{
    if ss.len() == 0 {
        0
    } else {
        stmts_lifts(ss.drop_last(), defs, rec) + stmt_lifts(ss.last(), defs, rec)
    }
}

/// The number of statements that `s` becomes: the `let`s of the calls lifted
/// at its own level, then itself.
pub open spec fn stmt_lift_len(s: TypedStmt, defs: Seq<TypedFunction>, rec: Seq<bool>) -> nat {
    match s {
        TypedStmt::If { condition, .. } => expr_lifts(condition, defs, rec) + 1,
        TypedStmt::While { .. } => 1,
        TypedStmt::IndexAssign { index, value, .. } => expr_lifts(index, defs, rec) + expr_lifts(value, defs, rec) + 1,
        _ => stmt_lifts(s, defs, rec) + 1,
    }
}

/// `out` is what the statement `s` becomes when the calls of inlined
/// functions, numbered from `c + 1` on, are lifted out of it: their `let`s,
/// then `s` with each replaced by its variable (calls in nested blocks are
/// lifted inside those blocks).
pub open spec fn lifted_stmt(s: TypedStmt, defs: Seq<TypedFunction>, rec: Seq<bool>, c: nat, out: Seq<TypedStmt>) -> bool
    decreases s, 0nat,
{
    let n = out.len() as int;
    match s {
        TypedStmt::If { condition, then_branch, else_branch, span } => {
            let k = expr_lifts(condition, defs, rec);
            &&& n == k + 1
            &&& out[n - 1] matches TypedStmt::If { condition: c2, then_branch: t2, else_branch: e2, span: s2 }
                && s2 == span && lifted_expr(condition, defs, rec, c, c2, out.subrange(0, n - 1))
                && lifted_block(then_branch, defs, rec, c + k, t2) && match else_branch {
                Some(b) => e2 matches Some(b2) && lifted_block(
                    b,
                    defs,
                    rec,
                    c + k + stmts_lifts(then_branch.stmts@, defs, rec),
                    b2,
                ),
                None => e2 is None,
            }
        },
        TypedStmt::While { condition, body, span } => n == 1 && (out[0] matches TypedStmt::While {
            condition: c2,
            body: b2,
            span: s2,
        } && c2 == condition && s2 == span && lifted_block(body, defs, rec, c, b2)),
        TypedStmt::Let { name, is_mutable, ty, value, span } => if bare_inlined_call(value, defs, rec) {
            out == seq![s]
        } else {
            &&& n == expr_lifts(value, defs, rec) + 1
            &&& out[n - 1] matches TypedStmt::Let { name: n2, is_mutable: m2, ty: t2, value: v2, span: s2 }
                && n2 == name && m2 == is_mutable && t2 == ty && s2 == span && lifted_expr(
                value,
                defs,
                rec,
                c,
                v2,
                out.subrange(0, n - 1),
            )
        },
        TypedStmt::Assign { name, value, span } => if bare_inlined_call(value, defs, rec) {
            out == seq![s]
        } else {
            &&& n == expr_lifts(value, defs, rec) + 1
            &&& out[n - 1] matches TypedStmt::Assign { name: n2, value: v2, span: s2 } && n2 == name && s2
                == span && lifted_expr(value, defs, rec, c, v2, out.subrange(0, n - 1))
        },
        TypedStmt::Return(Some(v), span) => if bare_inlined_call(v, defs, rec) {
            out == seq![s]
        } else {
            &&& n == expr_lifts(v, defs, rec) + 1
            &&& out[n - 1] matches TypedStmt::Return(Some(v2), s2) && s2 == span && lifted_expr(
                v,
                defs,
                rec,
                c,
                v2,
                out.subrange(0, n - 1),
            )
        },
        TypedStmt::Expr(e) => {
            &&& n == expr_lifts(e, defs, rec) + 1
            &&& out[n - 1] matches TypedStmt::Expr(e2) && lifted_expr(e, defs, rec, c, e2, out.subrange(0, n - 1))
        },
        TypedStmt::IndexAssign { target, index, value, is_safe, span } => {
            let ki = expr_lifts(index, defs, rec);
            &&& n == ki + expr_lifts(value, defs, rec) + 1
            &&& out[n - 1] matches TypedStmt::IndexAssign {
                target: g2,
                index: i2,
                value: v2,
                is_safe: f2,
                span: s2,
            } && g2 == target && f2 == is_safe && s2 == span && lifted_expr(
                index,
                defs,
                rec,
                c,
                i2,
                out.subrange(0, ki as int),
            ) && lifted_expr(value, defs, rec, c + ki, v2, out.subrange(ki as int, n - 1))
        },
        _ => out == seq![s],
    }
}

/// `rs` is what the statements `ss` become, each after those before it.
pub open spec fn lifted_stmts(ss: Seq<TypedStmt>, defs: Seq<TypedFunction>, rec: Seq<bool>, c: nat, rs: Seq<TypedStmt>) -> bool
    decreases ss, 1nat,
{
    if ss.len() == 0 {
        rs.len() == 0
    } else {
        let k = rs.len() - stmt_lift_len(ss.last(), defs, rec);
        &&& k >= 0
        &&& lifted_stmts(ss.drop_last(), defs, rec, c, rs.subrange(0, k))
        &&& lifted_stmt(
            ss.last(),
            defs,
            rec,
            c + stmts_lifts(ss.drop_last(), defs, rec),
            rs.subrange(k, rs.len() as int),
        )
    }
}

/// `r` is the block `b` with the calls of inlined functions lifted out,
/// numbered from `c + 1` on.
pub open spec fn lifted_block(b: TypedBlock, defs: Seq<TypedFunction>, rec: Seq<bool>, c: nat, r: TypedBlock) -> bool
    decreases b, 2nat,
{
    r.span == b.span && lifted_stmts(b.stmts@, defs, rec, c, r.stmts@)
}

/// Whether `e` is itself a call of an inlined function.
fn is_bare_inlined_call(e: &TypedExpr, defs: &Vec<TypedFunction>, recursive: &Vec<bool>) -> (b: bool)
    requires
        recursive@.len() == defs@.len(),
    ensures
        b == bare_inlined_call(*e, defs@, recursive@),
{
    match e {
        TypedExpr::Call { callee, .. } => call_is_inlined(defs, recursive, callee).is_some(),
        _ => false,
    }
}

/// Appends to `out` what the statement `s` becomes when the calls of inlined
/// functions are lifted out of it, numbered on from `*counter`.
fn lift_stmt(
    s: TypedStmt,
    defs: &Vec<TypedFunction>,
    recursive: &Vec<bool>,
    counter: &mut usize,
    out: &mut Vec<TypedStmt>,
)
    requires
        recursive@.len() == defs@.len(),
        *old(counter) + stmt_lifts(s, defs@, recursive@) <= usize::MAX,
    ensures
        final(out)@.len() >= old(out)@.len(),
        final(out)@.subrange(0, old(out)@.len() as int) == old(out)@,
        lifted_stmt(
            s,
            defs@,
            recursive@,
            *old(counter) as nat,
            final(out)@.subrange(old(out)@.len() as int, final(out)@.len() as int),
        ),
        *final(counter) == *old(counter) + stmt_lifts(s, defs@, recursive@),
    decreases s, 1nat,
{
    let ghost s0 = s;
    let ghost start = out@.len() as int;
    let ghost c0 = *counter as nat;
    match s {
        TypedStmt::If { condition, then_branch, else_branch, span } => {
            let ghost cond0 = condition;
            let c2 = lift_calls_expr(condition, out, defs, recursive, counter);
            let ghost mid = out@;
            proof {
                lemma_lifted_len(cond0, defs@, recursive@, c0, c2, mid.subrange(start, mid.len() as int));
            }
            let t = lift_in_block(then_branch, defs, recursive, counter);
            let e = match else_branch {
                Some(b) => Some(lift_in_block(b, defs, recursive, counter)),
                None => None,
            };
            out.push(TypedStmt::If { condition: c2, then_branch: t, else_branch: e, span });
            proof {
                let piece = out@.subrange(start, out@.len() as int);
                assert(piece.subrange(0, piece.len() - 1) =~= mid.subrange(start, mid.len() as int));
                assert(out@.subrange(0, start) =~= mid.subrange(0, start));
            }
        },
        TypedStmt::While { condition, body, span } => {
            let b = lift_in_block(body, defs, recursive, counter);
            out.push(TypedStmt::While { condition, body: b, span });
            proof {
                assert(out@.subrange(0, start) =~= old(out)@);
            }
        },
        TypedStmt::Let { name, is_mutable, ty, value, span } => {
            if is_bare_inlined_call(&value, defs, recursive) {
                out.push(TypedStmt::Let { name, is_mutable, ty, value, span });
                proof {
                    assert(out@.subrange(start, out@.len() as int) =~= seq![s0]);
                    assert(out@.subrange(0, start) =~= old(out)@);
                }
            } else {
                let ghost v0 = value;
                let v2 = lift_calls_expr(value, out, defs, recursive, counter);
                let ghost mid = out@;
                proof {
                    lemma_lifted_len(v0, defs@, recursive@, c0, v2, mid.subrange(start, mid.len() as int));
                }
                out.push(TypedStmt::Let { name, is_mutable, ty, value: v2, span });
                proof {
                    let piece = out@.subrange(start, out@.len() as int);
                    assert(piece.subrange(0, piece.len() - 1) =~= mid.subrange(start, mid.len() as int));
                    assert(out@.subrange(0, start) =~= mid.subrange(0, start));
                }
            }
        },
        TypedStmt::Assign { name, value, span } => {
            if is_bare_inlined_call(&value, defs, recursive) {
                out.push(TypedStmt::Assign { name, value, span });
                proof {
                    assert(out@.subrange(start, out@.len() as int) =~= seq![s0]);
                    assert(out@.subrange(0, start) =~= old(out)@);
                }
            } else {
                let ghost v0 = value;
                let v2 = lift_calls_expr(value, out, defs, recursive, counter);
                let ghost mid = out@;
                proof {
                    lemma_lifted_len(v0, defs@, recursive@, c0, v2, mid.subrange(start, mid.len() as int));
                }
                out.push(TypedStmt::Assign { name, value: v2, span });
                proof {
                    let piece = out@.subrange(start, out@.len() as int);
                    assert(piece.subrange(0, piece.len() - 1) =~= mid.subrange(start, mid.len() as int));
                    assert(out@.subrange(0, start) =~= mid.subrange(0, start));
                }
            }
        },
        TypedStmt::Return(Some(v), span) => {
            if is_bare_inlined_call(&v, defs, recursive) {
                out.push(TypedStmt::Return(Some(v), span));
                proof {
                    assert(out@.subrange(start, out@.len() as int) =~= seq![s0]);
                    assert(out@.subrange(0, start) =~= old(out)@);
                }
            } else {
                let ghost v0 = v;
                let v2 = lift_calls_expr(v, out, defs, recursive, counter);
                let ghost mid = out@;
                proof {
                    lemma_lifted_len(v0, defs@, recursive@, c0, v2, mid.subrange(start, mid.len() as int));
                }
                out.push(TypedStmt::Return(Some(v2), span));
                proof {
                    let piece = out@.subrange(start, out@.len() as int);
                    assert(piece.subrange(0, piece.len() - 1) =~= mid.subrange(start, mid.len() as int));
                    assert(out@.subrange(0, start) =~= mid.subrange(0, start));
                }
            }
        },
        TypedStmt::Expr(e) => {
            let ghost e0 = e;
            let e2 = lift_calls_expr(e, out, defs, recursive, counter);
            let ghost mid = out@;
            proof {
                lemma_lifted_len(e0, defs@, recursive@, c0, e2, mid.subrange(start, mid.len() as int));
            }
            out.push(TypedStmt::Expr(e2));
            proof {
                let piece = out@.subrange(start, out@.len() as int);
                assert(piece.subrange(0, piece.len() - 1) =~= mid.subrange(start, mid.len() as int));
                assert(out@.subrange(0, start) =~= mid.subrange(0, start));
            }
        },
        TypedStmt::IndexAssign { target, index, value, is_safe, span } => {
            let ghost i0 = index;
            let ghost v0 = value;
            let i2 = lift_calls_expr(index, out, defs, recursive, counter);
            let ghost mid1 = out@;
            let v2 = lift_calls_expr(value, out, defs, recursive, counter);
            let ghost mid2 = out@;
            proof {
                lemma_lifted_len(i0, defs@, recursive@, c0, i2, mid1.subrange(start, mid1.len() as int));
                lemma_lifted_len(v0, defs@, recursive@, c0 + expr_lifts(i0, defs@, recursive@), v2, mid2.subrange(mid1.len() as int, mid2.len() as int));
            }
            out.push(TypedStmt::IndexAssign { target, index: i2, value: v2, is_safe, span });
            proof {
                let piece = out@.subrange(start, out@.len() as int);
                let ki = expr_lifts(i0, defs@, recursive@) as int;
                assert(piece.subrange(0, ki) =~= mid1.subrange(start, mid1.len() as int));
                assert(piece.subrange(ki, piece.len() - 1) =~= mid2.subrange(mid1.len() as int, mid2.len() as int));
                assert(out@.subrange(0, start) =~= mid1.subrange(0, start));
            }
        },
        other => {
            out.push(other);
            proof {
                assert(out@.subrange(start, out@.len() as int) =~= seq![s0]);
                assert(out@.subrange(0, start) =~= old(out)@);
            }
        },
    }
}

/// What a statement becomes has the length `stmt_lift_len` gives.
proof fn lemma_lifted_stmt_len(s: TypedStmt, defs: Seq<TypedFunction>, rec: Seq<bool>, c: nat, out: Seq<TypedStmt>)
    requires
        lifted_stmt(s, defs, rec, c, out),
    ensures
        out.len() == stmt_lift_len(s, defs, rec),
{
}

/// The lifts in a prefix of `ss` are at most those in all of `ss`.
proof fn lemma_lifts_prefix(ss: Seq<TypedStmt>, defs: Seq<TypedFunction>, rec: Seq<bool>, k: int)
    requires
        0 <= k <= ss.len(),
    ensures
        stmts_lifts(ss.subrange(0, k), defs, rec) <= stmts_lifts(ss, defs, rec),
    decreases ss.len() - k,
{
    if k < ss.len() {
        let next = ss.subrange(0, k + 1);
        assert(next.drop_last() =~= ss.subrange(0, k));
        lemma_lifts_prefix(ss, defs, rec, k + 1);
    } else {
        assert(ss.subrange(0, k) =~= ss);
    }
}

/// The block with the calls of inlined functions lifted out, numbered on
/// from `*counter`.
fn lift_in_block(
    block: TypedBlock,
    defs: &Vec<TypedFunction>,
    recursive: &Vec<bool>,
    counter: &mut usize,
) -> (r: TypedBlock)
    requires
        recursive@.len() == defs@.len(),
        *old(counter) + stmts_lifts(block.stmts@, defs@, recursive@) <= usize::MAX,
    ensures
        lifted_block(block, defs@, recursive@, *old(counter) as nat, r),
        *final(counter) == *old(counter) + stmts_lifts(block.stmts@, defs@, recursive@),
    decreases block, 0nat,
{
    let ghost b0 = block;
    let ghost ss = block.stmts@;
    let ghost c0 = *counter as nat;
    let span = block.span;
    let mut rest = block.stmts;
    let mut out: Vec<TypedStmt> = Vec::new();
    let mut i: usize = 0;
    let n = rest.len();
    assert(ss.subrange(0, 0) =~= Seq::<TypedStmt>::empty());
    while i < n
        invariant
            b0 == block,
            ss == b0.stmts@,
            n == ss.len(),
            i <= n,
            rest@ == ss.subrange(i as int, n as int),
            recursive@.len() == defs@.len(),
            c0 + stmts_lifts(ss, defs@, recursive@) <= usize::MAX,
            *counter == c0 + stmts_lifts(ss.subrange(0, i as int), defs@, recursive@),
            lifted_stmts(ss.subrange(0, i as int), defs@, recursive@, c0, out@),
        decreases n - i,
    {
        proof {
            assert(decreases_to!(b0 => b0.stmts));
            assert(decreases_to!(b0.stmts => b0.stmts@));
            assert(decreases_to!(b0.stmts@ => b0.stmts@[i as int]));
            let next = ss.subrange(0, i + 1);
            assert(next.drop_last() =~= ss.subrange(0, i as int));
            assert(next.last() == ss[i as int]);
            lemma_lifts_prefix(ss, defs@, recursive@, i as int + 1);
        }
        let stmt = rest.remove(0);
        proof {
            assert(stmt == b0.stmts@[i as int]);
            assert(decreases_to!(b0 => stmt));
        }
        let ghost before = out@;
        lift_stmt(stmt, defs, recursive, counter, &mut out);
        proof {
            lemma_lifted_stmt_len(ss[i as int], defs@, recursive@, c0 + stmts_lifts(ss.subrange(0, i as int), defs@, recursive@), out@.subrange(before.len() as int, out@.len() as int));
            let k = out@.len() - stmt_lift_len(ss[i as int], defs@, recursive@);
            assert(k == before.len());
            assert(out@.subrange(0, k) =~= before);
            assert(rest@ =~= ss.subrange(i + 1, n as int));
        }
        i += 1;
    }
    assert(ss.subrange(0, n as int) =~= ss);
    TypedBlock { stmts: out, span }
}

/// Lifts out of the block every call of an inlinable function that does not
/// stand at the root of a `let`, an assignment or a `return` (loop conditions
/// excepted) into a `let` of its own just before the statement, numbering the
/// calls on from `*counter`.
pub fn lift_calls_in_block(
    block: &mut TypedBlock,
    defs: &Vec<TypedFunction>,
    recursive: &Vec<bool>,
    counter: &mut usize,
)
    requires
        recursive@.len() == defs@.len(),
        *old(counter) + stmts_lifts(old(block).stmts@, defs@, recursive@) <= usize::MAX,
    ensures
        lifted_block(*old(block), defs@, recursive@, *old(counter) as nat, *final(block)),
        *final(counter) == *old(counter) + stmts_lifts(old(block).stmts@, defs@, recursive@),
{
    let mut taken = TypedBlock { stmts: Vec::new(), span: block.span };
    core::mem::swap(&mut taken, block);
    let r = lift_in_block(taken, defs, recursive, counter);
    *block = r;
}


// ---------------------------------------------------------------------------
// Returns inside a function's body
// ---------------------------------------------------------------------------

/// The number of `return` statements in `ss`, nested blocks included.
pub open spec fn returns_in(ss: Seq<TypedStmt>) -> nat
    decreases ss, 1nat,
{
    if ss.len() == 0 {
        0
    } else {
        returns_in(ss.drop_last()) + returns_in_stmt(ss.last())
    }
}

/// The number of `return` statements in `s`.
pub open spec fn returns_in_stmt(s: TypedStmt) -> nat
    decreases s, 0nat,
{
    match s {
        TypedStmt::Return(..) => 1,
        TypedStmt::If { then_branch, else_branch, .. } => returns_in(then_branch.stmts@) + match else_branch {
            Some(b) => returns_in(b.stmts@),
            None => 0,
        },
        TypedStmt::While { body, .. } => returns_in(body.stmts@),
        _ => 0,
    }
}

/// The number of `return` statements in the block (`usize::MAX` if that
/// many or more).
pub fn count_returns_block(block: &TypedBlock) -> (n: usize)
    ensures
        n == saturated(returns_in(block.stmts@)),
    decreases block, 0nat,
{
    let ss = &block.stmts;
    let mut count: usize = 0;
    let mut i: usize = 0;
    assert(ss@.subrange(0, 0) =~= Seq::<TypedStmt>::empty());
    while i < ss.len()
        invariant
            ss == &block.stmts,
            i <= ss@.len(),
            count == saturated(returns_in(ss@.subrange(0, i as int))),
        decreases ss@.len() - i,
    {
        proof {
            assert(decreases_to!(*block => block.stmts));
            assert(decreases_to!(block.stmts => block.stmts@));
            assert(decreases_to!(block.stmts@ => block.stmts@[i as int]));
            let next = ss@.subrange(0, i + 1);
            assert(next.drop_last() =~= ss@.subrange(0, i as int));
            assert(next.last() == ss@[i as int]);
        }
        let c = count_returns_stmt(&ss[i]);
        count = count.saturating_add(c);
        i += 1;
    }
    assert(ss@.subrange(0, ss@.len() as int) =~= ss@);
    count
}

/// The number of `return` statements in `s` (`usize::MAX` if that many or
/// more).
fn count_returns_stmt(s: &TypedStmt) -> (n: usize)
    ensures
        n == saturated(returns_in_stmt(*s)),
    decreases s, 1nat,
{
    match s {
        TypedStmt::Return(..) => 1,
        TypedStmt::If { then_branch, else_branch, .. } => {
            let t = count_returns_block(then_branch);
            match else_branch {
                Some(b) => t.saturating_add(count_returns_block(b)),
                None => t,
            }
        },
        TypedStmt::While { body, .. } => count_returns_block(body),
        _ => 0,
    }
}

/// The statements `ss` end in a `return` on every path: the last is a
/// `return`, or an `if` with an `else` whose branches both end so.
pub open spec fn ends_in_return(ss: Seq<TypedStmt>) -> bool
    decreases ss,
{
    ss.len() > 0 && match ss.last() {
        TypedStmt::Return(..) => true,
        TypedStmt::If { then_branch, else_branch: Some(eb), .. } => ends_in_return(then_branch.stmts@)
            && ends_in_return(eb.stmts@),
        _ => false,
    }
}

/// Whether the block ends in a `return` on every path.
pub fn block_terminates_with_return(block: &TypedBlock) -> (b: bool)
    ensures
        b == ends_in_return(block.stmts@),
    decreases block,
{
    let n = block.stmts.len();
    if n == 0 {
        return false;
    }
    proof {
        assert(decreases_to!(*block => block.stmts));
        assert(decreases_to!(block.stmts => block.stmts@));
        assert(decreases_to!(block.stmts@ => block.stmts@[n - 1]));
    }
    match &block.stmts[n - 1] {
        TypedStmt::Return(..) => true,
        TypedStmt::If { then_branch, else_branch: Some(eb), .. } => {
            block_terminates_with_return(then_branch) && block_terminates_with_return(eb)
        },
        _ => false,
    }
}

/// `e` is the value a variable of type `ty` starts with before a function's
/// result is stored in it: zero, `0.0` (spelt so) or `false`, and zero of
/// `i64` for types without a literal of their own.
pub open spec fn is_default_expr(ty: Type, span: Span, e: TypedExpr) -> bool {
    match ty {
        Type::I32 => e == (TypedExpr::Literal { lit: TypedLiteral::Int(0, Type::I32), ty: Type::I32, span }),
        Type::F64 | Type::F32 => e matches TypedExpr::Literal { lit: TypedLiteral::Float(text, t2), ty: t3, span: s2 }
            && text@ == "0.0"@ && t2 == ty && t3 == ty && s2 == span,
        Type::Bool => e == (TypedExpr::Literal { lit: TypedLiteral::Bool(false), ty: Type::Bool, span }),
        _ => e == (TypedExpr::Literal { lit: TypedLiteral::Int(0, Type::I64), ty: Type::I64, span }),
    }
}

/// The default value of type `ty`, at `span`.
pub fn default_expr_for_type(ty: &Type, span: Span) -> (e: TypedExpr)
    ensures
        is_default_expr(*ty, span, e),
{
    match ty {
        Type::I32 => TypedExpr::Literal { lit: TypedLiteral::Int(0, Type::I32), ty: Type::I32, span },
        Type::F64 => TypedExpr::Literal { lit: TypedLiteral::Float(String::from_str("0.0"), Type::F64), ty: Type::F64, span },
        Type::F32 => TypedExpr::Literal { lit: TypedLiteral::Float(String::from_str("0.0"), Type::F32), ty: Type::F32, span },
        Type::Bool => TypedExpr::Literal { lit: TypedLiteral::Bool(false), ty: Type::Bool, span },
        _ => TypedExpr::Literal { lit: TypedLiteral::Int(0, Type::I64), ty: Type::I64, span },
    }
}

/// `r` is `s` with each `return value;` in it (nested `if`s included, loops
/// not) replaced by an assignment of the value to `rv`, for one statement.
pub open spec fn replaced_stmt(s: TypedStmt, rv: Seq<char>, r: TypedStmt) -> bool
    decreases s,
{
    match s {
        TypedStmt::Return(Some(v), span) => r matches TypedStmt::Assign { name, value, span: s2 } && name@ == rv
            && s2 == span && same_tree(v, value),
        TypedStmt::If { condition, then_branch, else_branch, span } => r matches TypedStmt::If {
            condition: c2,
            then_branch: t2,
            else_branch: e2,
            span: s2,
        } && c2 == condition && s2 == span && replaced_block(then_branch, rv, t2) && match else_branch {
            Some(b) => e2 matches Some(b2) && replaced_block(b, rv, b2),
            None => e2 is None,
        },
        TypedStmt::While { condition, body, span } => r matches TypedStmt::While {
            condition: c2,
            body: b2,
            span: s2,
        } && c2 == condition && s2 == span && replaced_block(body, rv, b2),
        _ => r == s,
    }
}

/// `r` is the block `b` with each `return value;` in it replaced by an
/// assignment of the value to `rv`.
pub open spec fn replaced_block(b: TypedBlock, rv: Seq<char>, r: TypedBlock) -> bool
    decreases b,
{
    &&& r.span == b.span
    &&& r.stmts@.len() == b.stmts@.len()
    &&& forall|i: int|
        #![trigger b.stmts@[i]]
        #![trigger r.stmts@[i]]
        0 <= i < b.stmts@.len() ==> replaced_stmt(b.stmts@[i], rv, r.stmts@[i])
}

/// The block with each `return value;` in it (nested blocks included)
/// replaced by an assignment of the value to `ret_var`.
fn replace_returns_in(b: TypedBlock, ret_var: &String) -> (r: TypedBlock)
    ensures
        replaced_block(b, ret_var@, r),
    decreases b,
{
    let ghost b0 = b;
    let ghost ss = b.stmts@;
    let span = b.span;
    let mut rest = b.stmts;
    let mut out: Vec<TypedStmt> = Vec::new();
    let n = rest.len();
    let mut i: usize = 0;
    while i < n
        invariant
            b0 == b,
            ss == b0.stmts@,
            n == ss.len(),
            i <= n,
            out@.len() == i,
            rest@ == ss.subrange(i as int, n as int),
            forall|k: int| 0 <= k < i ==> replaced_stmt(#[trigger] ss[k], ret_var@, out@[k]),
        decreases n - i,
    {
        let stmt = rest.remove(0);
        proof {
            assert(stmt == ss[i as int]);
            assert(decreases_to!(b0 => b0.stmts));
            assert(decreases_to!(b0.stmts => b0.stmts@));
            assert(decreases_to!(b0.stmts@ => b0.stmts@[i as int]));
            assert(rest@ =~= ss.subrange(i + 1, n as int));
        }
        let r = match stmt {
            TypedStmt::Return(Some(v), span) => TypedStmt::Assign { name: ret_var.clone(), value: copy_expr(&v), span },
            TypedStmt::If { condition, then_branch, else_branch, span } => {
                let t = replace_returns_in(then_branch, ret_var);
                let e = match else_branch {
                    Some(eb) => Some(replace_returns_in(eb, ret_var)),
                    None => None,
                };
                TypedStmt::If { condition, then_branch: t, else_branch: e, span }
            },
            TypedStmt::While { condition, body, span } => {
                let bb = replace_returns_in(body, ret_var);
                TypedStmt::While { condition, body: bb, span }
            },
            other => other,
        };
        out.push(r);
        i += 1;
    }
    TypedBlock { stmts: out, span }
}

/// Replaces each `return value;` in the block (nested blocks included) by an
/// assignment of the value to `ret_var`.
pub fn replace_returns_with_assign(block: &mut TypedBlock, ret_var: &String)
    ensures
        replaced_block(*old(block), ret_var@, *final(block)),
{
    let mut taken = TypedBlock { stmts: Vec::new(), span: block.span };
    core::mem::swap(&mut taken, block);
    *block = replace_returns_in(taken, ret_var);
}

/// `out` is what `s` becomes when the returns of a loop body are rewritten:
/// `return value;` becomes the assignments of the value to `rv` and of
/// `true` to `hv`, then `break;` (inside nested `if`s too, not nested loops).
pub open spec fn loop_rewritten_stmt(s: TypedStmt, rv: Seq<char>, hv: Seq<char>, out: Seq<TypedStmt>) -> bool
    decreases s,
{
    match s {
        TypedStmt::Return(Some(v), span) => {
            &&& out.len() == 3
            &&& out[0] matches TypedStmt::Assign { name, value, span: s2 } && name@ == rv && value == v
                && s2 == span
            &&& out[1] matches TypedStmt::Assign { name, value, span: s2 } && name@ == hv && value == (
            TypedExpr::Literal { lit: TypedLiteral::Bool(true), ty: Type::Bool, span }) && s2 == span
            &&& out[2] == TypedStmt::Break(span)
        },
        TypedStmt::If { condition, then_branch, else_branch, span } => out.len() == 1 && (out[0] matches TypedStmt::If {
            condition: c2,
            then_branch: t2,
            else_branch: e2,
            span: s2,
        } && c2 == condition && s2 == span && loop_rewritten_block(then_branch, rv, hv, t2) && match else_branch {
            Some(b) => e2 matches Some(b2) && loop_rewritten_block(b, rv, hv, b2),
            None => e2 is None,
        }),
        _ => out == seq![s],
    }
}

/// The number of statements `s` becomes in a rewritten loop body.
pub open spec fn loop_rewritten_len(s: TypedStmt) -> nat {
    if s matches TypedStmt::Return(Some(_), _) {
        3
    } else {
        1
    }
}

/// `rs` is what the statements `ss` become, each after those before it.
pub open spec fn loop_rewritten_stmts(ss: Seq<TypedStmt>, rv: Seq<char>, hv: Seq<char>, rs: Seq<TypedStmt>) -> bool
    decreases ss,
{
    if ss.len() == 0 {
        rs.len() == 0
    } else {
        let k = rs.len() - loop_rewritten_len(ss.last());
        &&& k >= 0
        &&& loop_rewritten_stmts(ss.drop_last(), rv, hv, rs.subrange(0, k))
        &&& loop_rewritten_stmt(ss.last(), rv, hv, rs.subrange(k, rs.len() as int))
    }
}

/// `r` is the loop body `b` with its returns rewritten.
pub open spec fn loop_rewritten_block(b: TypedBlock, rv: Seq<char>, hv: Seq<char>, r: TypedBlock) -> bool
    decreases b,
{
    r.span == b.span && loop_rewritten_stmts(b.stmts@, rv, hv, r.stmts@)
}

/// The loop body with its returns rewritten to store the value in
/// `ret_var`, set `has_ret_var` and leave the loop.
fn rewrite_returns_in(b: TypedBlock, ret_var: &String, has_ret_var: &String) -> (r: TypedBlock)
    ensures
        loop_rewritten_block(b, ret_var@, has_ret_var@, r),
    decreases b,
{
    let ghost b0 = b;
    let ghost ss = b.stmts@;
    let span = b.span;
    let mut rest = b.stmts;
    let mut out: Vec<TypedStmt> = Vec::new();
    let n = rest.len();
    let mut i: usize = 0;
    assert(ss.subrange(0, 0) =~= Seq::<TypedStmt>::empty());
    while i < n
        invariant
            b0 == b,
            ss == b0.stmts@,
            n == ss.len(),
            i <= n,
            rest@ == ss.subrange(i as int, n as int),
            loop_rewritten_stmts(ss.subrange(0, i as int), ret_var@, has_ret_var@, out@),
        decreases n - i,
    {
        let stmt = rest.remove(0);
        proof {
            assert(stmt == ss[i as int]);
            assert(decreases_to!(b0 => b0.stmts));
            assert(decreases_to!(b0.stmts => b0.stmts@));
            assert(decreases_to!(b0.stmts@ => b0.stmts@[i as int]));
            assert(rest@ =~= ss.subrange(i + 1, n as int));
            let next = ss.subrange(0, i + 1);
            assert(next.drop_last() =~= ss.subrange(0, i as int));
            assert(next.last() == ss[i as int]);
        }
        let ghost before = out@;
        match stmt {
            TypedStmt::Return(Some(v), span) => {
                out.push(TypedStmt::Assign { name: ret_var.clone(), value: v, span });
                out.push(
                    TypedStmt::Assign {
                        name: has_ret_var.clone(),
                        value: TypedExpr::Literal { lit: TypedLiteral::Bool(true), ty: Type::Bool, span },
                        span,
                    },
                );
                out.push(TypedStmt::Break(span));
            },
            TypedStmt::If { condition, then_branch, else_branch, span } => {
                let t = rewrite_returns_in(then_branch, ret_var, has_ret_var);
                let e = match else_branch {
                    Some(eb) => Some(rewrite_returns_in(eb, ret_var, has_ret_var)),
                    None => None,
                };
                out.push(TypedStmt::If { condition, then_branch: t, else_branch: e, span });
            },
            other => {
                out.push(other);
            },
        }
        proof {
            let k = out@.len() - loop_rewritten_len(ss[i as int]);
            assert(k == before.len());
            assert(out@.subrange(0, k) =~= before);
            let piece = out@.subrange(k, out@.len() as int);
            assert(loop_rewritten_stmt(ss[i as int], ret_var@, has_ret_var@, piece)) by {
                if loop_rewritten_len(ss[i as int]) == 1 {
                    assert(piece =~= seq![out@.last()]);
                } else {
                    assert(piece[0] == out@[k]);
                }
            }
        }
        i += 1;
    }
    assert(ss.subrange(0, n as int) =~= ss);
    TypedBlock { stmts: out, span }
}

/// Rewrites the returns of a loop body: `return value;` becomes the
/// assignments of the value to `ret_var` and of `true` to `has_ret_var`,
/// then `break;` (inside nested `if`s too, not nested loops).
pub fn rewrite_loop_returns(block: &mut TypedBlock, ret_var: &String, has_ret_var: &String)
    ensures
        loop_rewritten_block(*old(block), ret_var@, has_ret_var@, *final(block)),
{
    let mut taken = TypedBlock { stmts: Vec::new(), span: block.span };
    core::mem::swap(&mut taken, block);
    *block = rewrite_returns_in(taken, ret_var, has_ret_var);
}


// ---------------------------------------------------------------------------
// Flattening early returns
// ---------------------------------------------------------------------------

/// The name of the flag that records that the loop flattened as number `c`
/// returned.
pub open spec fn has_ret_name(c: nat) -> Seq<char> {
    "__has_ret_"@ + dec_digits(c)
}

/// The number of loop flags that flattening `ss` creates.
pub open spec fn flat_count(ss: Seq<TypedStmt>) -> nat
    decreases ss, 0nat,
{
    if ss.len() == 0 {
        0
    } else {
        let s = ss[0];
        let tail = ss.drop_first();
        match s {
            TypedStmt::If { then_branch, else_branch: None, .. } => if ends_in_return(then_branch.stmts@)
                && tail.len() > 0 {
                // what follows becomes the `else`, and is flattened there
                flat_count(then_branch.stmts@) + flat_count(tail)
            } else {
                flat_count(then_branch.stmts@) + flat_count(tail)
            },
            TypedStmt::If { then_branch, else_branch: Some(eb), .. } => if ends_in_return(then_branch.stmts@)
                && ends_in_return(eb.stmts@) && tail.len() > 0 {
                flat_count(then_branch.stmts@) + flat_count(eb.stmts@)
            } else {
                flat_count(then_branch.stmts@) + flat_count(eb.stmts@) + flat_count(tail)
            },
            TypedStmt::While { body, .. } => if returns_in(body.stmts@) > 0 {
                1 + flat_count(tail)
            } else {
                flat_count(body.stmts@) + flat_count(tail)
            },
            _ => flat_count(tail),
        }
    }
}

/// `out` is the statements `ss` with their early returns flattened (in a
/// function whose result goes to `rv`), the loop flags numbered from `c + 1`
/// on:
/// - an `if` without `else` that ends in a `return`, with statements after
///   it, takes them as its `else`;
/// - an `if` whose branches both end in a `return` drops what follows it;
/// - a loop with a `return` in it gets a flag, set before it to `false`,
///   its returns rewritten to set it and leave the loop, and what follows it
///   runs only when the flag is not set;
/// - any other `if` or loop has its blocks flattened in turn.
pub open spec fn flat_list(ss: Seq<TypedStmt>, rv: Seq<char>, c: nat, out: Seq<TypedStmt>) -> bool
    decreases ss, 1nat,
{
    if ss.len() == 0 {
        out.len() == 0
    } else {
        let s = ss[0];
        let tail = ss.drop_first();
        match s {
            TypedStmt::If { condition, then_branch, else_branch: None, span } => if ends_in_return(
                then_branch.stmts@,
            ) && tail.len() > 0 {
                out.len() == 1 && (out[0] matches TypedStmt::If {
                    condition: c2,
                    then_branch: t2,
                    else_branch: Some(e2),
                    span: s2,
                } && c2 == condition && s2 == span && flat_block(then_branch, rv, c, t2) && e2.span == span
                    && flat_list(tail, rv, c + flat_count(then_branch.stmts@), e2.stmts@))
            } else {
                out.len() >= 1 && (out[0] matches TypedStmt::If {
                    condition: c2,
                    then_branch: t2,
                    else_branch: None,
                    span: s2,
                } && c2 == condition && s2 == span && flat_block(then_branch, rv, c, t2)) && flat_list(
                    tail,
                    rv,
                    c + flat_count(then_branch.stmts@),
                    out.drop_first(),
                )
            },
            TypedStmt::If { condition, then_branch, else_branch: Some(eb), span } => {
                let ct = c + flat_count(then_branch.stmts@);
                if ends_in_return(then_branch.stmts@) && ends_in_return(eb.stmts@) && tail.len() > 0 {
                    out.len() == 1 && (out[0] matches TypedStmt::If {
                        condition: c2,
                        then_branch: t2,
                        else_branch: Some(e2),
                        span: s2,
                    } && c2 == condition && s2 == span && flat_block(then_branch, rv, c, t2) && flat_block(
                        eb,
                        rv,
                        ct,
                        e2,
                    ))
                } else {
                    out.len() >= 1 && (out[0] matches TypedStmt::If {
                        condition: c2,
                        then_branch: t2,
                        else_branch: Some(e2),
                        span: s2,
                    } && c2 == condition && s2 == span && flat_block(then_branch, rv, c, t2) && flat_block(
                        eb,
                        rv,
                        ct,
                        e2,
                    )) && flat_list(tail, rv, ct + flat_count(eb.stmts@), out.drop_first())
                }
            },
            TypedStmt::While { condition, body, span } => if returns_in(body.stmts@) > 0 {
                let hv = has_ret_name(c + 1);
                &&& out.len() == if tail.len() > 0 {
                    3int
                } else {
                    2int
                }
                &&& out[0] matches TypedStmt::Let { name, is_mutable, ty, value, span: s0 } && name@ == hv
                    && is_mutable && ty == Type::Bool && value == (TypedExpr::Literal {
                    lit: TypedLiteral::Bool(false),
                    ty: Type::Bool,
                    span,
                }) && s0 == span
                &&& out[1] matches TypedStmt::While { condition: c2, body: b2, span: s2 } && c2 == condition
                    && s2 == span && loop_rewritten_block(body, rv, hv, b2)
                &&& tail.len() > 0 ==> (out[2] matches TypedStmt::If {
                    condition: TypedExpr::Unary {
                        op: UnaryOp::Not,
                        expr: flag,
                        ty: Type::Bool,
                        span: s3,
                    },
                    then_branch: tb,
                    else_branch: None,
                    span: s4,
                } && (*flag matches TypedExpr::Ident { name: fname, ty: Type::Bool, span: s5 } && fname@ == hv
                    && s5 == span) && s3 == span && s4 == span && tb.span == span && flat_list(
                    tail,
                    rv,
                    c + 1,
                    tb.stmts@,
                ))
            } else {
                out.len() >= 1 && (out[0] matches TypedStmt::While { condition: c2, body: b2, span: s2 }
                    && c2 == condition && s2 == span && flat_block(body, rv, c, b2)) && flat_list(
                    tail,
                    rv,
                    c + flat_count(body.stmts@),
                    out.drop_first(),
                )
            },
            _ => out.len() >= 1 && out[0] == s && flat_list(tail, rv, c, out.drop_first()),
        }
    }
}

/// `r` is the block `b` with its early returns flattened.
pub open spec fn flat_block(b: TypedBlock, rv: Seq<char>, c: nat, r: TypedBlock) -> bool
    decreases b, 2nat,
{
    r.span == b.span && flat_list(b.stmts@, rv, c, r.stmts@)
}

/// The name `has_ret_name(c)`.
fn has_ret_name_of(c: usize) -> (s: String)
    ensures
        s@ == has_ret_name(c as nat),
{
    let mut s = String::from_str("__has_ret_");
    push_usize(&mut s, c);
    proof {
        reveal_strlit("__has_ret_");
    }
    s
}

/// The statements `ss` with their early returns flattened, the loop flags
/// numbered on from `*counter`.
#[verifier::spinoff_prover]
#[verifier::rlimit(40)]
fn flatten_list(ss: Vec<TypedStmt>, ret_var: &String, counter: &mut usize) -> (out: Vec<TypedStmt>)
    requires
        *old(counter) + flat_count(ss@) <= usize::MAX,
    ensures
        flat_list(ss@, ret_var@, *old(counter) as nat, out@),
        *final(counter) == *old(counter) + flat_count(ss@),
    decreases ss@, 1nat,
{
    let ghost s0 = ss@;
    if ss.len() == 0 {
        return Vec::new();
    }
    let mut ss = ss;
    let s = ss.remove(0);
    let tail = ss;
    proof {
        assert(s == s0[0]);
        assert(tail@ =~= s0.drop_first());
        assert(decreases_to!(s0 => s0[0]));
    }
    match s {
        TypedStmt::If { condition, then_branch, else_branch, span } => {
            let ghost tb = then_branch;
            let ghost tl = tail@;
            let ends_then = block_terminates_with_return(&then_branch);
            match else_branch {
                None => {
                    assert(flat_count(s0) == flat_count(tb.stmts@) + flat_count(tl));
                    let t2 = flatten_in_block(then_branch, ret_var, counter);
                    if ends_then && tail.len() > 0 {
                        let rest = flatten_list(tail, ret_var, counter);
                        let mut out: Vec<TypedStmt> = Vec::new();
                        out.push(
                            TypedStmt::If {
                                condition,
                                then_branch: t2,
                                else_branch: Some(TypedBlock { stmts: rest, span }),
                                span,
                            },
                        );
                        out
                    } else {
                        let mut rest = flatten_list(tail, ret_var, counter);
                        let ghost rv = rest@;
                        let mut out: Vec<TypedStmt> = Vec::new();
                        out.push(TypedStmt::If { condition, then_branch: t2, else_branch: None, span });
                        out.append(&mut rest);
                        assert(out@.drop_first() =~= rv);
                        out
                    }
                },
                Some(eb) => {
                    let ghost ebg = eb;
                    let ends_else = block_terminates_with_return(&eb);
                    assert(flat_count(s0) == if ends_in_return(tb.stmts@) && ends_in_return(ebg.stmts@) && tl.len() > 0 {
                        flat_count(tb.stmts@) + flat_count(ebg.stmts@)
                    } else {
                        flat_count(tb.stmts@) + flat_count(ebg.stmts@) + flat_count(tl)
                    });
                    let t2 = flatten_in_block(then_branch, ret_var, counter);
                    let e2 = flatten_in_block(eb, ret_var, counter);
                    let mut out: Vec<TypedStmt> = Vec::new();
                    out.push(TypedStmt::If { condition, then_branch: t2, else_branch: Some(e2), span });
                    if !(ends_then && ends_else && tail.len() > 0) {
                        let mut rest = flatten_list(tail, ret_var, counter);
                        let ghost rv = rest@;
                        out.append(&mut rest);
                        assert(out@.drop_first() =~= rv);
                    }
                    out
                },
            }
        },
        TypedStmt::While { condition, body, span } => {
            if count_returns_block(&body) > 0 {
                *counter = *counter + 1;
                let hv = has_ret_name_of(*counter);
                let b2 = rewrite_returns_in(body, ret_var, &hv);
                let mut out: Vec<TypedStmt> = Vec::new();
                out.push(
                    TypedStmt::Let {
                        name: hv.clone(),
                        is_mutable: true,
                        ty: Type::Bool,
                        value: TypedExpr::Literal { lit: TypedLiteral::Bool(false), ty: Type::Bool, span },
                        span,
                    },
                );
                out.push(TypedStmt::While { condition, body: b2, span });
                if tail.len() > 0 {
                    let rest = flatten_list(tail, ret_var, counter);
                    out.push(
                        TypedStmt::If {
                            condition: TypedExpr::Unary {
                                op: UnaryOp::Not,
                                expr: Box::new(TypedExpr::Ident { name: hv, ty: Type::Bool, span }),
                                ty: Type::Bool,
                                span,
                            },
                            then_branch: TypedBlock { stmts: rest, span },
                            else_branch: None,
                            span,
                        },
                    );
                }
                out
            } else {
                let b2 = flatten_in_block(body, ret_var, counter);
                let mut out: Vec<TypedStmt> = Vec::new();
                out.push(TypedStmt::While { condition, body: b2, span });
                let mut rest = flatten_list(tail, ret_var, counter);
                let ghost rv = rest@;
                let ghost rv = rest@;
            out.append(&mut rest);
            assert(out@.drop_first() =~= rv);
                assert(out@.drop_first() =~= rv);
                out
            }
        },
        other => {
            let mut out: Vec<TypedStmt> = Vec::new();
            out.push(other);
            let mut rest = flatten_list(tail, ret_var, counter);
            let ghost rv = rest@;
            out.append(&mut rest);
            assert(out@.drop_first() =~= rv);
            out
        },
    }
}

/// The block with its early returns flattened.
fn flatten_in_block(b: TypedBlock, ret_var: &String, counter: &mut usize) -> (r: TypedBlock)
    requires
        *old(counter) + flat_count(b.stmts@) <= usize::MAX,
    ensures
        flat_block(b, ret_var@, *old(counter) as nat, r),
        *final(counter) == *old(counter) + flat_count(b.stmts@),
    decreases b, 2nat,
{
    proof {
        assert(decreases_to!(b => b.stmts));
        assert(decreases_to!(b.stmts => b.stmts@));
    }
    let span = b.span;
    let stmts = flatten_list(b.stmts, ret_var, counter);
    TypedBlock { stmts, span }
}

/// Flattens the early returns of the block: an `if` that ends in a `return`
/// takes what follows it as its `else` (or drops it, when its `else` ends in
/// a `return` too), and a loop with a `return` in it records the return in a
/// flag, numbered on from `*counter`, that guards what follows it.
pub fn flatten_block_early_returns(block: &mut TypedBlock, ret_var: &String, counter: &mut usize)
    requires
        *old(counter) + flat_count(old(block).stmts@) <= usize::MAX,
    ensures
        flat_block(*old(block), ret_var@, *old(counter) as nat, *final(block)),
        *final(counter) == *old(counter) + flat_count(old(block).stmts@),
{
    let mut taken = TypedBlock { stmts: Vec::new(), span: block.span };
    core::mem::swap(&mut taken, block);
    *block = flatten_in_block(taken, ret_var, counter);
}


// ---------------------------------------------------------------------------
// Normalizing a function to one return at its end
// ---------------------------------------------------------------------------

/// The name of the variable that holds the result of the function `fname`,
/// normalized as number `c`.
pub open spec fn ret_var_name(fname: Seq<char>, c: nat) -> Seq<char> {
    "__ret_val_"@ + fname + "_"@ + dec_digits(c)
}

/// `f` is normalized: it returns a value, has a `return` and does not
/// already end in its only one.
pub open spec fn needs_normalizing(f: TypedFunction) -> bool {
    &&& f.return_ty != Type::Void
    &&& !single_return_at_end(f.body.stmts@)
    &&& returns_in(f.body.stmts@) > 0
}

/// `g` is `f` normalized as number `c + 1` (where it needs it): its result
/// variable is declared first with the default value of its type, its body
/// follows with early returns flattened and every `return` turned into an
/// assignment of the result variable, and one `return` of that variable
/// ends it.
pub open spec fn normalized(f: TypedFunction, c: nat, g: TypedFunction) -> bool {
    if !needs_normalizing(f) {
        g == f
    } else {
        let rv = ret_var_name(f.name@, c + 1);
        let n = g.body.stmts@.len() as int;
        &&& g.name == f.name && g.params == f.params && g.return_ty == f.return_ty && g.span == f.span
        &&& g.body.span == f.body.span
        &&& n >= 2
        &&& g.body.stmts@[0] matches TypedStmt::Let { name, is_mutable, ty, value, span } && name@ == rv
            && is_mutable && ty == f.return_ty && is_default_expr(f.return_ty, f.span, value) && span
            == f.span
        &&& g.body.stmts@[n - 1] matches TypedStmt::Return(Some(TypedExpr::Ident { name, ty, span }), s2)
            && name@ == rv && ty == f.return_ty && span == f.span && s2 == f.span
        &&& exists|flat: TypedBlock, rep: TypedBlock|
            #[trigger] flat_block(f.body, rv, c + 1, flat) && #[trigger] replaced_block(flat, rv, rep)
                && rep.stmts@ == g.body.stmts@.subrange(1, n - 1)
    }
}

/// The name `ret_var_name(fname, c)`.
fn ret_var_name_of(fname: &String, c: usize) -> (s: String)
    ensures
        s@ == ret_var_name(fname@, c as nat),
{
    let mut s = String::from_str("__ret_val_");
    s.append(fname.as_str());
    s.append("_");
    push_usize(&mut s, c);
    proof {
        reveal_strlit("__ret_val_");
        reveal_strlit("_");
    }
    assert(s@ =~= ret_var_name(fname@, c as nat));
    s
}

/// Gives a function with early returns a single `return` at its end: its
/// result goes to a variable declared first, its early returns are flattened
/// and turned into assignments of that variable, which the final `return`
/// hands back. The result variable and the loop flags are numbered on from
/// `*counter`.
pub fn normalize_function_returns(func: &mut TypedFunction, counter: &mut usize)
    requires
        *old(counter) + 1 + flat_count(old(func).body.stmts@) <= usize::MAX,
    ensures
        normalized(*old(func), *old(counter) as nat, *final(func)),
        *final(counter) == if needs_normalizing(*old(func)) {
            *old(counter) + 1 + flat_count(old(func).body.stmts@)
        } else {
            *old(counter) as int
        },
{
    if func.return_ty.same(&Type::Void) {
        return;
    }
    if has_single_return_at_end(&func.body) {
        return;
    }
    if count_returns_block(&func.body) == 0 {
        return;
    }
    let ghost f0 = *func;
    *counter = *counter + 1;
    let rv = ret_var_name_of(&func.name, *counter);
    let mut body = TypedBlock { stmts: Vec::new(), span: func.body.span };
    core::mem::swap(&mut body, &mut func.body);
    let ghost c1 = *counter as nat;
    let flat = flatten_in_block(body, &rv, counter);
    let ghost flat0 = flat;
    let rep = replace_returns_in(flat, &rv);
    let ghost rep0 = rep;
    let mut stmts: Vec<TypedStmt> = Vec::new();
    stmts.push(
        TypedStmt::Let {
            name: rv.clone(),
            is_mutable: true,
            ty: func.return_ty.duplicate(),
            value: default_expr_for_type(&func.return_ty, func.span),
            span: func.span,
        },
    );
    let mut middle = rep.stmts;
    stmts.append(&mut middle);
    stmts.push(
        TypedStmt::Return(
            Some(TypedExpr::Ident { name: rv, ty: func.return_ty.duplicate(), span: func.span }),
            func.span,
        ),
    );
    func.body = TypedBlock { stmts, span: rep.span };
    proof {
        let g = *func;
        let n = g.body.stmts@.len() as int;
        assert(g.body.stmts@.subrange(1, n - 1) =~= rep0.stmts@);
        assert(flat_block(f0.body, ret_var_name(f0.name@, c1), c1, flat0));
    }
}

// ---------------------------------------------------------------------------
// How far the counters of the rewrites advance
// ---------------------------------------------------------------------------

/// The loop flags that flattening creates inside `s` itself.
pub open spec fn flag_head(s: TypedStmt) -> nat {
    match s {
        TypedStmt::If { then_branch, else_branch: None, .. } => flat_count(then_branch.stmts@),
        TypedStmt::If { then_branch, else_branch: Some(eb), .. } => flat_count(then_branch.stmts@)
            + flat_count(eb.stmts@),
        TypedStmt::While { body, .. } => if returns_in(body.stmts@) > 0 {
            1
        } else {
            flat_count(body.stmts@)
        },
        _ => 0,
    }
}

/// Flattening drops what follows `s`: both its branches end in a `return`.
pub open spec fn flag_drops(s: TypedStmt) -> bool {
    match s {
        TypedStmt::If { then_branch, else_branch: Some(eb), .. } => ends_in_return(then_branch.stmts@)
            && ends_in_return(eb.stmts@),
        _ => false,
    }
}

/// The number of loop flags that flattening the block creates
/// (`usize::MAX` if that many or more).
fn count_flags_block(b: &TypedBlock) -> (c: usize)
    ensures
        c == saturated(flat_count(b.stmts@)),
    decreases b, 1nat,
{
    let ss = &b.stmts;
    let n = ss.len();
    let mut acc: usize = 0;
    let mut i: usize = n;
    assert(ss@.subrange(n as int, n as int) =~= Seq::<TypedStmt>::empty());
    while i > 0
        invariant
            ss == &b.stmts,
            n == ss@.len(),
            i <= n,
            acc == saturated(flat_count(ss@.subrange(i as int, n as int))),
        decreases i,
    {
        proof {
            assert(decreases_to!(*b => b.stmts));
            assert(decreases_to!(b.stmts => b.stmts@));
            assert(decreases_to!(b.stmts@ => b.stmts@[i - 1]));
            let whole = ss@.subrange(i - 1, n as int);
            assert(whole[0] == ss@[i - 1]);
            assert(whole.drop_first() =~= ss@.subrange(i as int, n as int));
        }
        let (own, drops) = flags_of_stmt(&ss[i - 1]);
        if drops {
            acc = own;
        } else {
            acc = own.saturating_add(acc);
        }
        i -= 1;
    }
    assert(ss@.subrange(0, n as int) =~= ss@);
    acc
}

/// The flags flattening creates inside `s`, and whether it drops what
/// follows `s`.
fn flags_of_stmt(s: &TypedStmt) -> (r: (usize, bool))
    ensures
        r.0 == saturated(flag_head(*s)),
        r.1 == flag_drops(*s),
    decreases s, 0nat,
{
    match s {
        TypedStmt::If { then_branch, else_branch, .. } => {
            let t = count_flags_block(then_branch);
            match else_branch {
                Some(eb) => {
                    let e = count_flags_block(eb);
                    let drops = block_terminates_with_return(then_branch) && block_terminates_with_return(eb);
                    (t.saturating_add(e), drops)
                },
                None => (t, false),
            }
        },
        TypedStmt::While { body, .. } => {
            if count_returns_block(body) > 0 {
                (1, false)
            } else {
                (count_flags_block(body), false)
            }
        },
        _ => (0, false),
    }
}

/// The number of calls of inlined functions in `e` (`usize::MAX` if that
/// many or more).
fn count_lifts_expr(e: &TypedExpr, defs: &Vec<TypedFunction>, recursive: &Vec<bool>) -> (c: usize)
    requires
        recursive@.len() == defs@.len(),
    ensures
        c == saturated(expr_lifts(*e, defs@, recursive@)),
    decreases *e, 1nat,
{
    match e {
        TypedExpr::Call { callee, args, .. } => {
            let ghost whole = *e;
            proof {
                assert(decreases_to!(whole => whole->Call_args));
            }
            let a = count_lifts_exprs(args, defs, recursive, Ghost(whole));
            if call_is_inlined(defs, recursive, callee).is_some() {
                a.saturating_add(1)
            } else {
                a
            }
        },
        TypedExpr::Unary { expr, .. } => count_lifts_expr(expr, defs, recursive),
        TypedExpr::Binary { left, right, .. } => count_lifts_expr(left, defs, recursive).saturating_add(
            count_lifts_expr(right, defs, recursive),
        ),
        TypedExpr::ArrayLiteral { elements, .. } => {
            let ghost whole = *e;
            proof {
                assert(decreases_to!(whole => whole->ArrayLiteral_elements));
            }
            count_lifts_exprs(elements, defs, recursive, Ghost(whole))
        },
        TypedExpr::Index { target, index, .. } => count_lifts_expr(target, defs, recursive).saturating_add(
            count_lifts_expr(index, defs, recursive),
        ),
        _ => 0,
    }
}

fn count_lifts_exprs(
    es: &Vec<TypedExpr>,
    defs: &Vec<TypedFunction>,
    recursive: &Vec<bool>,
    Ghost(whole): Ghost<TypedExpr>,
) -> (c: usize)
    requires
        recursive@.len() == defs@.len(),
        decreases_to!(whole => *es),
    ensures
        c == saturated(exprs_lifts(es@, defs@, recursive@)),
    decreases whole, 0nat,
{
    let mut acc: usize = 0;
    let mut i: usize = 0;
    assert(es@.subrange(0, 0) =~= Seq::<TypedExpr>::empty());
    while i < es.len()
        invariant
            recursive@.len() == defs@.len(),
            decreases_to!(whole => *es),
            i <= es@.len(),
            acc == saturated(exprs_lifts(es@.subrange(0, i as int), defs@, recursive@)),
        decreases es@.len() - i,
    {
        proof {
            assert(decreases_to!(*es => es@));
            assert(decreases_to!(es@ => es@[i as int]));
            let next = es@.subrange(0, i + 1);
            assert(next.drop_last() =~= es@.subrange(0, i as int));
            assert(next.last() == es@[i as int]);
        }
        acc = acc.saturating_add(count_lifts_expr(&es[i], defs, recursive));
        i += 1;
    }
    assert(es@.subrange(0, es@.len() as int) =~= es@);
    acc
}

/// The number of calls lifted out of the block (`usize::MAX` if that many
/// or more).
fn count_lifts_block(b: &TypedBlock, defs: &Vec<TypedFunction>, recursive: &Vec<bool>) -> (c: usize)
    requires
        recursive@.len() == defs@.len(),
    ensures
        c == saturated(stmts_lifts(b.stmts@, defs@, recursive@)),
    decreases b, 1nat,
{
    let ss = &b.stmts;
    let mut acc: usize = 0;
    let mut i: usize = 0;
    assert(ss@.subrange(0, 0) =~= Seq::<TypedStmt>::empty());
    while i < ss.len()
        invariant
            ss == &b.stmts,
            recursive@.len() == defs@.len(),
            i <= ss@.len(),
            acc == saturated(stmts_lifts(ss@.subrange(0, i as int), defs@, recursive@)),
        decreases ss@.len() - i,
    {
        proof {
            assert(decreases_to!(*b => b.stmts));
            assert(decreases_to!(b.stmts => b.stmts@));
            assert(decreases_to!(b.stmts@ => b.stmts@[i as int]));
            let next = ss@.subrange(0, i + 1);
            assert(next.drop_last() =~= ss@.subrange(0, i as int));
            assert(next.last() == ss@[i as int]);
        }
        acc = acc.saturating_add(count_lifts_stmt(&ss[i], defs, recursive));
        i += 1;
    }
    assert(ss@.subrange(0, ss@.len() as int) =~= ss@);
    acc
}

fn lifts_unless_bare(e: &TypedExpr, defs: &Vec<TypedFunction>, recursive: &Vec<bool>) -> (c: usize)
    requires
        recursive@.len() == defs@.len(),
    ensures
        c == saturated(
            if bare_inlined_call(*e, defs@, recursive@) {
                0
            } else {
                expr_lifts(*e, defs@, recursive@)
            },
        ),
{
    if is_bare_inlined_call(e, defs, recursive) {
        0
    } else {
        count_lifts_expr(e, defs, recursive)
    }
}

fn count_lifts_stmt(s: &TypedStmt, defs: &Vec<TypedFunction>, recursive: &Vec<bool>) -> (c: usize)
    requires
        recursive@.len() == defs@.len(),
    ensures
        c == saturated(stmt_lifts(*s, defs@, recursive@)),
    decreases s, 0nat,
{
    match s {
        TypedStmt::If { condition, then_branch, else_branch, .. } => {
            let a = count_lifts_expr(condition, defs, recursive).saturating_add(
                count_lifts_block(then_branch, defs, recursive),
            );
            match else_branch {
                Some(eb) => a.saturating_add(count_lifts_block(eb, defs, recursive)),
                None => a,
            }
        },
        TypedStmt::While { body, .. } => count_lifts_block(body, defs, recursive),
        TypedStmt::Let { value, .. } => lifts_unless_bare(value, defs, recursive),
        TypedStmt::Assign { value, .. } => lifts_unless_bare(value, defs, recursive),
        TypedStmt::Return(Some(v), _) => lifts_unless_bare(v, defs, recursive),
        TypedStmt::Expr(e) => count_lifts_expr(e, defs, recursive),
        TypedStmt::IndexAssign { index, value, .. } => count_lifts_expr(index, defs, recursive).saturating_add(
            count_lifts_expr(value, defs, recursive),
        ),
        _ => 0,
    }
}

/// The number of calls inlined in the block (`usize::MAX` if that many or
/// more).
fn count_sites_block(b: &TypedBlock, defs: &Vec<TypedFunction>, recursive: &Vec<bool>) -> (c: usize)
    requires
        recursive@.len() == defs@.len(),
    ensures
        c == saturated(stmts_sites(b.stmts@, defs@, recursive@)),
    decreases b, 1nat,
{
    let ss = &b.stmts;
    let mut acc: usize = 0;
    let mut i: usize = 0;
    assert(ss@.subrange(0, 0) =~= Seq::<TypedStmt>::empty());
    while i < ss.len()
        invariant
            ss == &b.stmts,
            recursive@.len() == defs@.len(),
            i <= ss@.len(),
            acc == saturated(stmts_sites(ss@.subrange(0, i as int), defs@, recursive@)),
        decreases ss@.len() - i,
    {
        proof {
            assert(decreases_to!(*b => b.stmts));
            assert(decreases_to!(b.stmts => b.stmts@));
            assert(decreases_to!(b.stmts@ => b.stmts@[i as int]));
            let next = ss@.subrange(0, i + 1);
            assert(next.drop_last() =~= ss@.subrange(0, i as int));
            assert(next.last() == ss@[i as int]);
        }
        acc = acc.saturating_add(count_sites_stmt(&ss[i], defs, recursive));
        i += 1;
    }
    assert(ss@.subrange(0, ss@.len() as int) =~= ss@);
    acc
}

fn root_call_inlined(e: &TypedExpr, defs: &Vec<TypedFunction>, recursive: &Vec<bool>) -> (b: bool)
    requires
        recursive@.len() == defs@.len(),
    ensures
        b == (e matches TypedExpr::Call { callee, .. } && call_inlined(defs@, recursive@, callee@)),
{
    match e {
        TypedExpr::Call { callee, .. } => call_is_inlined(defs, recursive, callee).is_some(),
        _ => false,
    }
}

fn count_sites_stmt(s: &TypedStmt, defs: &Vec<TypedFunction>, recursive: &Vec<bool>) -> (c: usize)
    requires
        recursive@.len() == defs@.len(),
    ensures
        c == saturated(stmt_sites(*s, defs@, recursive@)),
    decreases s, 0nat,
{
    match s {
        TypedStmt::Let { value, .. } => if root_call_inlined(value, defs, recursive) {
            1
        } else {
            0
        },
        TypedStmt::Assign { value, .. } => if root_call_inlined(value, defs, recursive) {
            1
        } else {
            0
        },
        TypedStmt::Return(Some(v), _) => if root_call_inlined(v, defs, recursive) {
            1
        } else {
            0
        },
        TypedStmt::If { then_branch, else_branch, .. } => {
            let a = count_sites_block(then_branch, defs, recursive);
            match else_branch {
                Some(eb) => a.saturating_add(count_sites_block(eb, defs, recursive)),
                None => a,
            }
        },
        TypedStmt::While { body, .. } => count_sites_block(body, defs, recursive),
        _ => 0,
    }
}

// ---------------------------------------------------------------------------
// The inlining pass over a program
// ---------------------------------------------------------------------------

/// For each function of the program, whether it is recursive.
pub open spec fn recursive_fns(fs: Seq<TypedFunction>) -> Seq<bool> {
    Seq::new(fs.len(), |i: int| recursive_fn(fs, i))
}

/// Normalizing the returns of `f` (recursive when `rec`) with the counter
/// at `c` gives `g` and leaves the counter at `c2`: recursive functions,
/// `main`, and functions whose result and loop flags would take the counter
/// to `usize::MAX` are left as they are.
pub open spec fn normalize_step(f: TypedFunction, rec: bool, c: nat, g: TypedFunction, c2: nat) -> bool {
    if rec || f.name@ == "main"@ || c + 1 + flat_count(f.body.stmts@) >= usize::MAX {
        g == f && c2 == c
    } else {
        &&& normalized(f, c, g)
        &&& c2 == if needs_normalizing(f) {
            c + 1 + flat_count(f.body.stmts@)
        } else {
            c
        }
    }
}

/// The functions `fs`, normalized in order with the counter starting at
/// `c`, are `gs`, the counter ending at `c2`: the counter stands at `cs[i]`
/// before function `i` and at `cs[i + 1]` after it.
pub open spec fn normalized_all(fs: Seq<TypedFunction>, rec: Seq<bool>, c: nat, gs: Seq<TypedFunction>, c2: nat) -> bool {
    exists|cs: Seq<nat>| #[trigger] normalized_with(fs, rec, cs, gs) && cs[0] == c && cs.last() == c2
}

pub open spec fn normalized_with(fs: Seq<TypedFunction>, rec: Seq<bool>, cs: Seq<nat>, gs: Seq<TypedFunction>) -> bool {
    &&& gs.len() == fs.len()
    &&& cs.len() == fs.len() + 1
    &&& forall|i: int| 0 <= i < fs.len() ==> normalize_step(#[trigger] fs[i], rec[i], cs[i], gs[i], cs[i + 1])
}

/// `g` is `f` with the header kept and the body `b`.
pub open spec fn with_body(f: TypedFunction, g: TypedFunction, b: TypedBlock) -> bool {
    g.name == f.name && g.params == f.params && g.return_ty == f.return_ty && g.span == f.span && g.body == b
}

/// Inlining in `f` with the call counter at `c` gives `g`, leaves the
/// counter at `c2` and inlines a call (`changed`) or not: the calls are
/// lifted out of expressions, then those at the root of a statement are
/// inlined; a step that would take the counter to `usize::MAX` is left out.
pub open spec fn inline_step(
    f: TypedFunction,
    defs: Seq<TypedFunction>,
    rec: Seq<bool>,
    c: nat,
    g: TypedFunction,
    c2: nat,
    changed: bool,
) -> bool {
    let l = stmts_lifts(f.body.stmts@, defs, rec);
    if c + l >= usize::MAX {
        g == f && c2 == c && !changed
    } else {
        exists|mid: TypedBlock|
            #[trigger] lifted_block(f.body, defs, rec, c, mid) && {
                let s = stmts_sites(mid.stmts@, defs, rec);
                if c + l + s >= usize::MAX {
                    with_body(f, g, mid) && c2 == c + l && !changed
                } else {
                    &&& inlined_block(mid, defs, rec, c + l, g.body)
                    &&& with_body(f, g, g.body)
                    &&& c2 == c + l + s
                    &&& changed == (s > 0)
                }
            }
    }
}

/// One round of inlining over the functions `fs`, in order, with the
/// counter starting at `c`, gives `gs`, leaves the counter at `c2` and
/// inlines some call (`changed`) or none.
pub open spec fn inline_round(
    fs: Seq<TypedFunction>,
    defs: Seq<TypedFunction>,
    rec: Seq<bool>,
    c: nat,
    gs: Seq<TypedFunction>,
    c2: nat,
    changed: bool,
) -> bool {
    exists|cs: Seq<nat>, chs: Seq<bool>|
        #[trigger] inlined_with(fs, defs, rec, cs, chs, gs) && cs[0] == c && cs.last() == c2 && changed == (
        exists|i: int| 0 <= i < chs.len() && #[trigger] chs[i])
}

/// Inlining in the functions `fs` in order gives `gs`, the counter standing
/// at `cs[i]` before function `i` and at `cs[i + 1]` after it, and
/// function `i` having a call inlined when `chs[i]`.
pub open spec fn inlined_with(
    fs: Seq<TypedFunction>,
    defs: Seq<TypedFunction>,
    rec: Seq<bool>,
    cs: Seq<nat>,
    chs: Seq<bool>,
    gs: Seq<TypedFunction>,
) -> bool {
    &&& gs.len() == fs.len()
    &&& cs.len() == fs.len() + 1
    &&& chs.len() == fs.len()
    &&& forall|i: int| 0 <= i < fs.len() ==> inline_step(#[trigger] fs[i], defs, rec, cs[i], gs[i], cs[i + 1], chs[i])
}

/// At most `k` rounds of inlining, the first with the counter at `c`, each
/// after a round that inlined something, take `fs` to `gs`.
pub open spec fn inline_rounds(
    fs: Seq<TypedFunction>,
    defs: Seq<TypedFunction>,
    rec: Seq<bool>,
    c: nat,
    k: nat,
    gs: Seq<TypedFunction>,
) -> bool
    decreases k,
{
    if k == 0 {
        gs == fs
    } else {
        exists|hs: Seq<TypedFunction>, c2: nat, changed: bool|
            #[trigger] inline_round(fs, defs, rec, c, hs, c2, changed) && if changed {
                inline_rounds(hs, defs, rec, c2, (k - 1) as nat, gs)
            } else {
                gs == hs
            }
    }
}

/// One inlining step on `f`, as `inline_step` says.
fn inline_function_step(
    f: &mut TypedFunction,
    defs: &Vec<TypedFunction>,
    recursive: &Vec<bool>,
    counter: &mut usize,
) -> (changed: bool)
    requires
        recursive@.len() == defs@.len(),
    ensures
        inline_step(*old(f), defs@, recursive@, *old(counter) as nat, *final(f), *final(counter) as nat, changed),
{
    let ghost f0 = *f;
    let ghost c0 = *counter as nat;
    let lifts = count_lifts_block(&f.body, defs, recursive);
    if lifts == usize::MAX || *counter >= usize::MAX - lifts {
        return false;
    }
    lift_calls_in_block(&mut f.body, defs, recursive, counter);
    let ghost mid = f.body;
    assert(lifted_block(f0.body, defs@, recursive@, c0, mid));
    let sites = count_sites_block(&f.body, defs, recursive);
    if sites == usize::MAX || *counter >= usize::MAX - sites {
        assert(with_body(f0, *f, mid));
        return false;
    }
    let changed = inline_block(&mut f.body, defs, recursive, counter);
    assert(with_body(f0, *f, f.body));
    changed
}

/// One normalizing step on `f`, as `normalize_step` says.
fn normalize_function_step(f: &mut TypedFunction, rec: bool, main_name: &String, counter: &mut usize)
    requires
        main_name@ == "main"@,
    ensures
        normalize_step(*old(f), rec, *old(counter) as nat, *final(f), *final(counter) as nat),
{
    if rec || f.name == *main_name {
        return;
    }
    let flags = count_flags_block(&f.body);
    if flags >= usize::MAX - 1 || *counter >= usize::MAX - 1 - flags {
        return;
    }
    normalize_function_returns(f, counter);
}

/// The inlining pass: the early returns of every function that is neither
/// recursive nor `main` are normalized (`normalized_all`), then up to four
/// rounds of inlining run over all functions (`inline_rounds`), each round
/// lifting and inlining the calls of inlinable functions as they were after
/// normalizing, until a round inlines nothing.
pub fn optimize_program(program: &mut TypedProgram)
    ensures
        exists|norm: Seq<TypedFunction>, cn: nat, defs: Seq<TypedFunction>|
            #[trigger] normalized_all(
                old(program).functions@,
                recursive_fns(old(program).functions@),
                0,
                norm,
                cn,
            ) && functions_view(defs) == functions_view(norm) && #[trigger] inline_rounds(
                norm,
                defs,
                recursive_fns(old(program).functions@),
                0,
                4,
                final(program).functions@,
            ),
{
    let ghost orig = program.functions@;
    let recursive = find_recursive_functions(program);
    assert(recursive@ =~= recursive_fns(orig));
    let main_name = String::from_str("main");
    let mut taken = TypedProgram { functions: Vec::new() };
    core::mem::swap(program, &mut taken);
    let mut rest = taken.functions;
    let n = rest.len();
    let mut norm: Vec<TypedFunction> = Vec::new();
    let mut counter: usize = 0;
    let ghost mut cs: Seq<nat> = seq![0nat];
    while rest.len() > 0
        invariant
            n == orig.len(),
            recursive@ == recursive_fns(orig),
            main_name@ == "main"@,
            norm@.len() + rest@.len() == n,
            rest@ == orig.subrange(norm@.len() as int, n as int),
            cs.len() == norm@.len() + 1,
            cs[0] == 0,
            cs.last() == counter as nat,
            forall|i: int|
                0 <= i < norm@.len() ==> normalize_step(#[trigger] orig[i], recursive@[i], cs[i], norm@[i], cs[i + 1]),
        decreases rest@.len(),
    {
        let j = norm.len();
        let mut f = rest.remove(0);
        assert(f == orig[j as int]);
        let ghost f_in = f;
        normalize_function_step(&mut f, recursive[j], &main_name, &mut counter);
        norm.push(f);
        proof {
            cs = cs.push(counter as nat);
            assert(rest@ =~= orig.subrange(norm@.len() as int, n as int));
            assert(normalize_step(orig[j as int], recursive@[j as int], cs[j as int], norm@[j as int], cs[j + 1]));
        }
    }
    let ghost norm_v = norm@;
    let ghost cn = counter as nat;
    assert(normalized_with(orig, recursive@, cs, norm_v));
    assert(normalized_all(orig, recursive_fns(orig), 0, norm_v, cn));
    let defs = copy_functions(&norm);
    assert(norm@.len() == n);
    let mut cur = norm;
    let mut call_counter: usize = 0;
    let mut round: usize = 0;
    while round < 4
        invariant
            recursive@.len() == defs@.len(),
            defs@.len() == n,
            cur@.len() == n,
            round <= 4,
            forall|gs: Seq<TypedFunction>|
                #[trigger] inline_rounds(cur@, defs@, recursive@, call_counter as nat, (4 - round) as nat, gs)
                    ==> inline_rounds(norm_v, defs@, recursive@, 0, 4, gs),
        ensures
            round == 4,
            forall|gs: Seq<TypedFunction>|
                #[trigger] inline_rounds(cur@, defs@, recursive@, call_counter as nat, (4 - round) as nat, gs)
                    ==> inline_rounds(norm_v, defs@, recursive@, 0, 4, gs),
        decreases 4 - round,
    {
        let ghost start = cur@;
        let ghost c_start = call_counter as nat;
        let ghost k = (4 - round) as nat;
        let mut rest = cur;
        let mut out: Vec<TypedFunction> = Vec::new();
        let mut changed = false;
        let ghost mut rcs: Seq<nat> = seq![c_start];
        let ghost mut chs: Seq<bool> = Seq::empty();
        while rest.len() > 0
            invariant
                recursive@.len() == defs@.len(),
                start.len() == n,
                out@.len() + rest@.len() == n,
                rest@ == start.subrange(out@.len() as int, n as int),
                rcs.len() == out@.len() + 1,
                chs.len() == out@.len(),
                rcs[0] == c_start,
                rcs.last() == call_counter as nat,
                changed == exists|i: int| 0 <= i < chs.len() && #[trigger] chs[i],
                forall|i: int|
                    0 <= i < out@.len() ==> inline_step(
                        #[trigger] start[i],
                        defs@,
                        recursive@,
                        rcs[i],
                        out@[i],
                        rcs[i + 1],
                        chs[i],
                    ),
            decreases rest@.len(),
        {
            let j = out.len();
            let mut f = rest.remove(0);
            assert(f == start[j as int]);
            let ch2 = inline_function_step(&mut f, &defs, &recursive, &mut call_counter);
            out.push(f);
            changed = changed || ch2;
            proof {
                let chs0 = chs;
                rcs = rcs.push(call_counter as nat);
                chs = chs.push(ch2);
                assert(rest@ =~= start.subrange(out@.len() as int, n as int));
                assert(inline_step(start[j as int], defs@, recursive@, rcs[j as int], out@[j as int], rcs[j + 1], chs[j as int]));
                if ch2 {
                    assert(chs[j as int]);
                }
                if exists|i: int| 0 <= i < chs0.len() && #[trigger] chs0[i] {
                    let i = choose|i: int| 0 <= i < chs0.len() && #[trigger] chs0[i];
                    assert(chs[i]);
                }
                if exists|i: int| 0 <= i < chs.len() && #[trigger] chs[i] {
                    let i = choose|i: int| 0 <= i < chs.len() && #[trigger] chs[i];
                    if i < j {
                        assert(chs0[i]);
                    }
                }
            }
        }
        let ghost hs = out@;
        let ghost c2 = call_counter as nat;
        assert(inlined_with(start, defs@, recursive@, rcs, chs, hs));
        assert(inline_round(start, defs@, recursive@, c_start, hs, c2, changed));
        cur = out;
        if !changed {
            assert(inline_rounds(start, defs@, recursive@, c_start, k, hs));
            round = 4;
            assert(forall|gs: Seq<TypedFunction>|
                #[trigger] inline_rounds(cur@, defs@, recursive@, call_counter as nat, (4 - round) as nat, gs)
                    ==> gs == hs);
            break;
        }
        proof {
            assert forall|gs: Seq<TypedFunction>|
                #[trigger] inline_rounds(hs, defs@, recursive@, c2, (k - 1) as nat, gs) implies inline_rounds(
                norm_v,
                defs@,
                recursive@,
                0,
                4,
                gs,
            ) by {
                assert(inline_rounds(start, defs@, recursive@, c_start, k, gs));
            }
        }
        round += 1;
    }
    proof {
        assert(inline_rounds(cur@, defs@, recursive@, call_counter as nat, (4 - round) as nat, cur@));
        assert(inline_rounds(norm_v, defs@, recursive@, 0, 4, cur@));
        assert(inline_rounds(norm_v, defs@, recursive_fns(orig), 0, 4, cur@));
        assert(functions_view(defs@) == functions_view(norm_v));
    }
    *program = TypedProgram { functions: cur };
    assert(program.functions@ == cur@);
    assert(normalized_all(orig, recursive_fns(orig), 0, norm_v, cn));
    assert(exists|norm: Seq<TypedFunction>, cn: nat, defs: Seq<TypedFunction>|
        #[trigger] normalized_all(orig, recursive_fns(orig), 0, norm, cn) && functions_view(defs)
            == functions_view(norm) && #[trigger] inline_rounds(norm, defs, recursive_fns(orig), 0, 4, cur@));
}

} // verus!
