//! Wiring a module graph into a test application: which module to wire on
//! each visit, and the order a whole graph is wired in.
//!
//! A module is entered once for the root and once more for each of its
//! imports and re-exports, recursively. The first entry of a module wires it
//! (its imports and re-exports first, then its providers and controllers);
//! every later entry of the same module is skipped, so a module reached along
//! two import paths, or one that imports itself, is wired exactly once. An
//! entry nested `WIRE_MODULE_MAX_DEPTH` levels or more below the root stops
//! the walk.
use vstd::prelude::*;

verus! {

/// How deep below the root module the import graph may nest.
pub const WIRE_MODULE_MAX_DEPTH: usize = 64;

/// What to do with a module on entering it.
#[derive(Debug, Clone, Copy, PartialEq, Eq, Structural)]
pub enum WireStep {
    /// The import graph nests too deep: stop.
    TooDeep,
    /// The module was wired before: skip it.
    AlreadyWired,
    /// First entry: wire the module.
    Wire,
}

/// No identifier occurs twice.
pub open spec fn no_repeats(s: Seq<u64>) -> bool {
    forall|i: int, j: int| 0 <= i < j < s.len() ==> #[trigger] s[i] != #[trigger] s[j]
}

/// One entry: the modules wired so far, and the step taken, after entering
/// module `id` at `depth`.
pub open spec fn wire_step(visited: Seq<u64>, id: u64, depth: nat) -> (Seq<u64>, WireStep) {
    if depth >= WIRE_MODULE_MAX_DEPTH {
        (visited, WireStep::TooDeep)
    } else if visited.contains(id) {
        (visited, WireStep::AlreadyWired)
    } else {
        (visited.push(id), WireStep::Wire)
    }
}

/// A run of entries `(module, depth)` from `visited`: the modules wired at the
/// end, and the step taken at each entry.
pub open spec fn wire_run(visited: Seq<u64>, entries: Seq<(u64, nat)>) -> (Seq<u64>, Seq<WireStep>)
    decreases entries.len(),
{
    if entries.len() == 0 {
        (visited, Seq::empty())
    } else {
        let before = wire_run(visited, entries.drop_last());
        let after = wire_step(before.0, entries.last().0, entries.last().1);
        (after.0, before.1.push(after.1))
    }
}

/// The modules wired so far in one walk of a module graph.
pub struct ModuleWiring {
    visited: Vec<u64>,
}

impl ModuleWiring {
    #[verifier::type_invariant]
    closed spec fn inv(self) -> bool {
        no_repeats(self.visited@)
    }

    /// The modules wired so far, in the order they were first entered.
    pub closed spec fn wired(&self) -> Seq<u64> {
        self.visited@
    }

    /// A walk that has wired nothing yet.
    pub fn new() -> (w: Self)
        ensures
            w.wired() == Seq::<u64>::empty(),
    {
        ModuleWiring { visited: Vec::new() }
    }

    /// Whether module `id` was wired already.
    pub fn is_wired(&self, id: u64) -> (b: bool)
        ensures
            b == self.wired().contains(id),
    {
        let mut i: usize = 0;
        while i < self.visited.len()
            invariant
                i <= self.visited@.len(),
                forall|j: int| 0 <= j < i ==> self.visited@[j] != id,
            decreases self.visited@.len() - i,
        {
            if self.visited[i] == id {
                assert(self.visited@[i as int] == id);
                return true;
            }
            i = i + 1;
        }
        false
    }

    /// Enter module `id`, `depth` levels below the root: stop when the graph
    /// nests too deep, skip a module wired before, and otherwise record the
    /// module as wired.
    pub fn enter(&mut self, id: u64, depth: usize) -> (step: WireStep)
        ensures
            (final(self).wired(), step) == wire_step(old(self).wired(), id, depth as nat),
    {
        proof {
            use_type_invariant(&*self);
        }
        if depth >= WIRE_MODULE_MAX_DEPTH {
            return WireStep::TooDeep;
        }
        if self.is_wired(id) {
            return WireStep::AlreadyWired;
        }
        let mut visited: Vec<u64> = Vec::new();
        std::mem::swap(&mut visited, &mut self.visited);
        proof {
            assert(no_repeats(visited@.push(id))) by {
                assert forall|i: int, j: int| 0 <= i < j < visited@.push(id).len() implies
                    visited@.push(id)[i] != visited@.push(id)[j] by {
                    if j == visited@.len() {
                        assert(visited@.contains(visited@[i]));
                    }
                }
            }
        }
        visited.push(id);
        self.visited = visited;
        WireStep::Wire
    }
}

/// Facts about every run, proved together by induction on its length.
proof fn lemma_run_facts(visited: Seq<u64>, entries: Seq<(u64, nat)>)
    requires
        no_repeats(visited),
    ensures
        wire_run(visited, entries).1.len() == entries.len(),
        no_repeats(wire_run(visited, entries).0),
        forall|x: u64| #[trigger] visited.contains(x) ==> wire_run(visited, entries).0.contains(x),
        forall|i: int|
            0 <= i < entries.len() && #[trigger] wire_run(visited, entries).1[i] == WireStep::Wire
                ==> wire_run(visited, entries).0.contains(entries[i].0) && !visited.contains(
                entries[i].0,
            ),
        forall|i: int|
            0 <= i < entries.len() && (#[trigger] entries[i]).1 < WIRE_MODULE_MAX_DEPTH
                ==> wire_run(visited, entries).0.contains(entries[i].0),
        forall|i: int|
            0 <= i < entries.len() ==> (#[trigger] wire_run(visited, entries).1[i] == WireStep::TooDeep
                <==> entries[i].1 >= WIRE_MODULE_MAX_DEPTH),
        forall|i: int, j: int|
            0 <= i < j < entries.len() && #[trigger] wire_run(visited, entries).1[i] == WireStep::Wire
                && #[trigger] wire_run(visited, entries).1[j] == WireStep::Wire ==> entries[i].0
                != entries[j].0,
        forall|x: u64|
            #[trigger] wire_run(visited, entries).0.contains(x) ==> visited.contains(x) || exists|
                j: int,
            |
                0 <= j < entries.len() && #[trigger] wire_run(visited, entries).1[j] == WireStep::Wire
                    && entries[j].0 == x,
    decreases entries.len(),
{
    if entries.len() > 0 {
        let prefix = entries.drop_last();
        lemma_run_facts(visited, prefix);
        let before = wire_run(visited, prefix);
        let last = entries.last();
        let after = wire_step(before.0, last.0, last.1);
        let run = wire_run(visited, entries);
        assert(run.0 == after.0);
        assert(run.1 == before.1.push(after.1));
        assert forall|i: int| 0 <= i < prefix.len() implies #[trigger] entries[i] == prefix[i] by {}
        if after.1 == WireStep::Wire {
            assert(no_repeats(after.0)) by {
                assert forall|i: int, j: int| 0 <= i < j < after.0.len() implies after.0[i]
                    != after.0[j] by {
                    if j == before.0.len() {
                        assert(before.0.contains(before.0[i]));
                    }
                }
            }
        }
        assert forall|x: u64| #[trigger] visited.contains(x) implies run.0.contains(x) by {
            assert(before.0.contains(x));
            if after.1 == WireStep::Wire {
                let k = choose|k: int| 0 <= k < before.0.len() && before.0[k] == x;
                assert(after.0[k] == x);
            }
        }
        assert forall|i: int|
            0 <= i < entries.len() && #[trigger] run.1[i] == WireStep::Wire implies run.0.contains(
            entries[i].0,
        ) && !visited.contains(entries[i].0) by {
            if i < prefix.len() {
                assert(before.1[i] == WireStep::Wire);
                assert(before.0.contains(prefix[i].0));
                if after.1 == WireStep::Wire {
                    let k = choose|k: int| 0 <= k < before.0.len() && before.0[k] == prefix[i].0;
                    assert(after.0[k] == prefix[i].0);
                }
            } else {
                assert(after.0[after.0.len() - 1] == last.0);
                if visited.contains(last.0) {
                    assert(before.0.contains(last.0));
                }
            }
        }
        assert forall|i: int|
            0 <= i < entries.len() && (#[trigger] entries[i]).1
                < WIRE_MODULE_MAX_DEPTH implies run.0.contains(entries[i].0) by {
            if i < prefix.len() {
                assert(prefix[i].1 < WIRE_MODULE_MAX_DEPTH);
                assert(before.0.contains(prefix[i].0));
                if after.1 == WireStep::Wire {
                    let k = choose|k: int| 0 <= k < before.0.len() && before.0[k] == prefix[i].0;
                    assert(after.0[k] == prefix[i].0);
                }
            } else if after.1 == WireStep::Wire {
                assert(after.0[after.0.len() - 1] == last.0);
            }
        }
        assert forall|i: int| 0 <= i < entries.len() implies (#[trigger] run.1[i]
            == WireStep::TooDeep <==> entries[i].1 >= WIRE_MODULE_MAX_DEPTH) by {
            if i < prefix.len() {
                assert(run.1[i] == before.1[i]);
            }
        }
        assert forall|i: int, j: int|
            0 <= i < j < entries.len() && #[trigger] run.1[i] == WireStep::Wire && #[trigger] run.1[j]
                == WireStep::Wire implies entries[i].0 != entries[j].0 by {
            assert(run.1[i] == before.1[i]);
            if j < prefix.len() {
                assert(run.1[j] == before.1[j]);
            } else {
                assert(before.0.contains(prefix[i].0));
            }
        }
        assert forall|x: u64| #[trigger] run.0.contains(x) implies visited.contains(x) || exists|
            j: int,
        |
            0 <= j < entries.len() && #[trigger] run.1[j] == WireStep::Wire && entries[j].0
                == x by {
            if before.0.contains(x) {
                if !visited.contains(x) {
                    let j = choose|j: int|
                        0 <= j < prefix.len() && #[trigger] before.1[j] == WireStep::Wire
                            && prefix[j].0 == x;
                    assert(run.1[j] == WireStep::Wire);
                }
            } else {
                assert(after.1 == WireStep::Wire);
                let k = choose|k: int| 0 <= k < after.0.len() && after.0[k] == x;
                if k < before.0.len() {
                    assert(before.0[k] == x);
                    assert(before.0.contains(x));
                }
                let n = entries.len() - 1;
                assert(run.1[n] == WireStep::Wire);
            }
        }
    }
}

/// Each module of a walk is wired exactly once: starting from a walk that has
/// wired nothing, no two entries wire the same module, every entry that does
/// not nest too deep finds its module wired by that entry or an earlier one,
/// and an entry stops the walk exactly when it nests too deep.
pub proof fn lemma_each_module_wired_once(entries: Seq<(u64, nat)>)
    ensures
        no_repeats(wire_run(Seq::empty(), entries).0),
        forall|i: int, j: int|
            0 <= i < j < entries.len() && #[trigger] wire_run(Seq::empty(), entries).1[i]
                == WireStep::Wire && #[trigger] wire_run(Seq::empty(), entries).1[j] == WireStep::Wire
                ==> entries[i].0 != entries[j].0,
        forall|i: int|
            0 <= i < entries.len() && (#[trigger] entries[i]).1 < WIRE_MODULE_MAX_DEPTH ==> exists|
                j: int,
            |
                0 <= j <= i && #[trigger] wire_run(Seq::empty(), entries).1[j] == WireStep::Wire
                    && entries[j].0 == entries[i].0,
        forall|i: int|
            0 <= i < entries.len() ==> (#[trigger] wire_run(Seq::empty(), entries).1[i]
                == WireStep::TooDeep <==> entries[i].1 >= WIRE_MODULE_MAX_DEPTH),
{
    let empty = Seq::<u64>::empty();
    lemma_run_facts(empty, entries);
    let run = wire_run(empty, entries);
    assert forall|i: int|
        0 <= i < entries.len() && (#[trigger] entries[i]).1 < WIRE_MODULE_MAX_DEPTH implies exists|
            j: int,
        | 0 <= j <= i && #[trigger] run.1[j] == WireStep::Wire && entries[j].0 == entries[i].0 by {
        // The prefix that ends with entry `i` already wires its module.
        let prefix = entries.take(i + 1);
        lemma_run_facts(empty, prefix);
        lemma_run_prefix(empty, entries, i + 1);
        assert(prefix[i] == entries[i]);
        assert(wire_run(empty, prefix).0.contains(prefix[i].0));
        let j = choose|j: int|
            0 <= j < prefix.len() && #[trigger] wire_run(empty, prefix).1[j] == WireStep::Wire
                && prefix[j].0 == prefix[i].0;
        assert(run.1[j] == wire_run(empty, prefix).1[j]);
        assert(prefix[j] == entries[j]);
    }
}

/// The steps of a run's first `k` entries are the first `k` steps of the run.
proof fn lemma_run_prefix(visited: Seq<u64>, entries: Seq<(u64, nat)>, k: int)
    requires
        0 <= k <= entries.len(),
        no_repeats(visited),
    ensures
        forall|j: int|
            0 <= j < k ==> #[trigger] wire_run(visited, entries.take(k)).1[j] == wire_run(
                visited,
                entries,
            ).1[j],
    decreases entries.len() - k,
{
    if k < entries.len() {
        lemma_run_prefix(visited, entries, k + 1);
        let longer = entries.take(k + 1);
        assert(longer.drop_last() =~= entries.take(k));
        lemma_run_facts(visited, entries.take(k));
        assert forall|j: int| 0 <= j < k implies #[trigger] wire_run(visited, entries.take(k)).1[j]
            == wire_run(visited, entries).1[j] by {
            assert(wire_run(visited, longer).1[j] == wire_run(visited, entries.take(k)).1[j]);
        }
    } else {
        assert(entries.take(k) =~= entries);
    }
}

/// A module of a module graph: its identifier, and the positions in the graph
/// of the modules it imports and re-exports.
#[derive(Debug, Clone)]
pub struct ModuleNode {
    /// Identifies the module; two nodes with one identifier are one module.
    pub id: u64,
    /// Positions of the imported modules, in order.
    pub imports: Vec<usize>,
    /// Positions of the re-exported modules, in order.
    pub re_exports: Vec<usize>,
}

/// The modules a module is wired after: its imports, then its re-exports.
pub open spec fn children(node: ModuleNode) -> Seq<usize> {
    node.imports@ + node.re_exports@
}

/// Every import and re-export names a module of the graph.
pub open spec fn graph_ok(graph: Seq<ModuleNode>) -> bool {
    forall|i: int, j: int|
        0 <= i < graph.len() && 0 <= j < children(graph[i]).len() ==> #[trigger] children(
            graph[i],
        )[j] < graph.len()
}

/// Walk from module `m` at `depth`, with the modules in `visited` wired
/// already: `None` when some module is entered too deep, else the modules
/// wired at the end and the positions of the newly wired modules in the order
/// their providers register (a module's imports and re-exports first).
pub open spec fn walk(graph: Seq<ModuleNode>, visited: Seq<u64>, m: usize, depth: int) -> Option<
    (Seq<u64>, Seq<usize>),
>
    decreases WIRE_MODULE_MAX_DEPTH - depth, 0int,
{
    if depth >= WIRE_MODULE_MAX_DEPTH {
        None
    } else if visited.contains(graph[m as int].id) {
        Some((visited, Seq::empty()))
    } else {
        match walk_list(
            graph,
            visited.push(graph[m as int].id),
            children(graph[m as int]),
            depth + 1,
        ) {
            None => None,
            Some(r) => Some((r.0, r.1.push(m))),
        }
    }
}

/// Walk from each module of `list` in turn, at `depth`.
pub open spec fn walk_list(graph: Seq<ModuleNode>, visited: Seq<u64>, list: Seq<usize>, depth: int) -> Option<
    (Seq<u64>, Seq<usize>),
>
    decreases WIRE_MODULE_MAX_DEPTH - depth, list.len() + 1,
{
    if list.len() == 0 {
        Some((visited, Seq::empty()))
    } else {
        match walk_list(graph, visited, list.drop_last(), depth) {
            None => None,
            Some(r) => match walk(graph, r.0, list.last(), depth) {
                None => None,
                Some(r2) => Some((r2.0, r.1 + r2.1)),
            },
        }
    }
}

/// A walk over a list that stops too deep also stops over any longer list.
proof fn lemma_walk_list_none_extends(
    graph: Seq<ModuleNode>,
    visited: Seq<u64>,
    list: Seq<usize>,
    k: int,
    depth: int,
)
    requires
        0 <= k <= list.len(),
        walk_list(graph, visited, list.take(k), depth) is None,
    ensures
        walk_list(graph, visited, list, depth) is None,
    decreases list.len() - k,
{
    if k < list.len() {
        assert(list.take(k + 1).drop_last() =~= list.take(k));
        lemma_walk_list_none_extends(graph, visited, list, k + 1, depth);
    } else {
        assert(list.take(k) =~= list);
    }
}

/// Wire module `m` at `depth` and, first, what it imports and re-exports,
/// appending the positions of newly wired modules to `order`; `false` when
/// some module is entered too deep.
fn wire_from(
    graph: &Vec<ModuleNode>,
    wiring: &mut ModuleWiring,
    m: usize,
    depth: usize,
    order: &mut Vec<usize>,
) -> (ok: bool)
    requires
        graph_ok(graph@),
        m < graph@.len(),
        depth <= WIRE_MODULE_MAX_DEPTH,
    ensures
        match walk(graph@, old(wiring).wired(), m, depth as int) {
            None => !ok,
            Some(r) => ok && final(wiring).wired() == r.0 && final(order)@ == old(order)@ + r.1,
        },
    decreases WIRE_MODULE_MAX_DEPTH - depth,
{
    let ghost visited0 = wiring.wired();
    let ghost order0 = order@;
    let step = wiring.enter(graph[m].id, depth);
    match step {
        WireStep::TooDeep => false,
        WireStep::AlreadyWired => {
            assert(order@ =~= order0 + Seq::<usize>::empty());
            true
        },
        WireStep::Wire => {
            let node = &graph[m];
            let ghost list = children(graph@[m as int]);
            let ghost d = depth as int + 1;
            let ghost start = visited0.push(graph@[m as int].id);
            assert(graph@[m as int] == *node);
            let mut i: usize = 0;
            while i < node.imports.len()
                invariant
                    graph_ok(graph@),
                    m < graph@.len(),
                    visited0 == old(wiring).wired(),
                    order0 == old(order)@,
                    !visited0.contains(graph@[m as int].id),
                    start == visited0.push(graph@[m as int].id),
                    *node == graph@[m as int],
                    list == children(*node),
                    depth < WIRE_MODULE_MAX_DEPTH,
                    d == depth + 1,
                    i <= node.imports@.len(),
                    walk_list(graph@, start, list.take(i as int), d) matches Some(r) && r.0
                        == wiring.wired() && order@ == order0 + r.1,
                decreases node.imports@.len() - i,
            {
                let child = node.imports[i];
                proof {
                    assert(list[i as int] == child);
                    assert(children(graph@[m as int])[i as int] < graph@.len());
                    assert(list.take(i as int + 1).drop_last() =~= list.take(i as int));
                }
                let ghost before = order@;
                if !wire_from(graph, wiring, child, depth + 1, order) {
                    proof {
                        lemma_walk_list_none_extends(graph@, start, list, i as int + 1, d);
                        assert(walk(graph@, visited0, m, depth as int) is None);
                    }
                    return false;
                }
                proof {
                    assert(order@ =~= order0 + walk_list(graph@, start, list.take(i as int + 1), d).unwrap().1);
                }
                i = i + 1;
            }
            let n = node.imports.len();
            let mut j: usize = 0;
            while j < node.re_exports.len()
                invariant
                    graph_ok(graph@),
                    m < graph@.len(),
                    visited0 == old(wiring).wired(),
                    order0 == old(order)@,
                    !visited0.contains(graph@[m as int].id),
                    start == visited0.push(graph@[m as int].id),
                    *node == graph@[m as int],
                    list == children(*node),
                    depth < WIRE_MODULE_MAX_DEPTH,
                    d == depth + 1,
                    n == node.imports@.len(),
                    j <= node.re_exports@.len(),
                    walk_list(graph@, start, list.take(n + j), d) matches Some(r) && r.0
                        == wiring.wired() && order@ == order0 + r.1,
                decreases node.re_exports@.len() - j,
            {
                let child = node.re_exports[j];
                proof {
                    assert(list[n + j] == child);
                    assert(children(graph@[m as int])[n + j] < graph@.len());
                    assert(list.take(n + j + 1).drop_last() =~= list.take(n + j));
                }
                if !wire_from(graph, wiring, child, depth + 1, order) {
                    proof {
                        lemma_walk_list_none_extends(graph@, start, list, n + j + 1, d);
                        assert(walk(graph@, visited0, m, depth as int) is None);
                    }
                    return false;
                }
                proof {
                    assert(order@ =~= order0 + walk_list(graph@, start, list.take(n + j + 1), d).unwrap().1);
                }
                j = j + 1;
            }
            assert(list.take(n + j) =~= list);
            let ghost before = order@;
            order.push(m);
            assert(order@ =~= order0 + walk_list(graph@, start, list, d).unwrap().1.push(m));
            true
        },
    }
}

/// The identifiers of the modules at positions `order`.
pub open spec fn order_ids(graph: Seq<ModuleNode>, order: Seq<usize>) -> Seq<u64> {
    order.map_values(|i: usize| graph[i as int].id)
}

/// What a finished walk from `visited` gives: the wired modules still hold no
/// repeats and include `visited`; each newly wired module was not wired
/// before, is wired now, and is wired only once.
pub open spec fn walk_sound(graph: Seq<ModuleNode>, visited: Seq<u64>, r: (Seq<u64>, Seq<usize>)) -> bool {
    &&& no_repeats(r.0)
    &&& forall|x: u64| #[trigger] visited.contains(x) ==> r.0.contains(x)
    &&& no_repeats(order_ids(graph, r.1))
    &&& forall|k: int|
        0 <= k < r.1.len() ==> r.0.contains(#[trigger] order_ids(graph, r.1)[k]) && !visited.contains(
            order_ids(graph, r.1)[k],
        )
}

proof fn lemma_walk_sound(graph: Seq<ModuleNode>, visited: Seq<u64>, m: usize, depth: int)
    requires
        no_repeats(visited),
    ensures
        walk(graph, visited, m, depth) matches Some(r) ==> walk_sound(graph, visited, r),
    decreases WIRE_MODULE_MAX_DEPTH - depth, 0int,
{
    if depth < WIRE_MODULE_MAX_DEPTH {
        let id = graph[m as int].id;
        if visited.contains(id) {
            let r = walk(graph, visited, m, depth).unwrap();
            assert(order_ids(graph, r.1) =~= Seq::<u64>::empty());
        } else {
            let start = visited.push(id);
            assert(no_repeats(start)) by {
                assert forall|i: int, j: int| 0 <= i < j < start.len() implies start[i] != start[j] by {
                    if j == visited.len() {
                        assert(visited.contains(visited[i]));
                    }
                }
            }
            lemma_walk_list_sound(graph, start, children(graph[m as int]), depth + 1);
            match walk_list(graph, start, children(graph[m as int]), depth + 1) {
                None => {},
                Some(r1) => {
                    let r = (r1.0, r1.1.push(m));
                    assert(walk(graph, visited, m, depth) == Some(r));
                    assert(start.contains(id)) by {
                        assert(start[visited.len() as int] == id);
                    }
                    let ids1 = order_ids(graph, r1.1);
                    let ids = order_ids(graph, r.1);
                    assert(ids =~= ids1.push(id));
                    assert forall|x: u64| #[trigger] visited.contains(x) implies r.0.contains(x) by {
                        let k = choose|k: int| 0 <= k < visited.len() && visited[k] == x;
                        assert(start[k] == x);
                        assert(start.contains(x));
                    }
                    assert forall|a: int, b: int| 0 <= a < b < ids.len() implies ids[a] != ids[b] by {
                        if b == ids1.len() {
                            assert(ids[a] == ids1[a]);
                            assert(!start.contains(ids1[a]));
                        } else {
                            assert(ids[a] == ids1[a] && ids[b] == ids1[b]);
                        }
                    }
                    assert forall|k: int| 0 <= k < r.1.len() implies r.0.contains(
                        #[trigger] order_ids(graph, r.1)[k],
                    ) && !visited.contains(order_ids(graph, r.1)[k]) by {
                        if k < ids1.len() {
                            assert(ids[k] == ids1[k]);
                            if visited.contains(ids1[k]) {
                                let t = choose|t: int| 0 <= t < visited.len() && visited[t] == ids1[k];
                                assert(start[t] == ids1[k]);
                                assert(start.contains(ids1[k]));
                            }
                        } else {
                            assert(ids[k] == id);
                        }
                    }
                },
            }
        }
    }
}

proof fn lemma_walk_list_sound(graph: Seq<ModuleNode>, visited: Seq<u64>, list: Seq<usize>, depth: int)
    requires
        no_repeats(visited),
    ensures
        walk_list(graph, visited, list, depth) matches Some(r) ==> walk_sound(graph, visited, r),
    decreases WIRE_MODULE_MAX_DEPTH - depth, list.len() + 1,
{
    if list.len() == 0 {
        let r = walk_list(graph, visited, list, depth).unwrap();
        assert(order_ids(graph, r.1) =~= Seq::<u64>::empty());
    } else {
        lemma_walk_list_sound(graph, visited, list.drop_last(), depth);
        match walk_list(graph, visited, list.drop_last(), depth) {
            None => {},
            Some(r1) => {
                lemma_walk_sound(graph, r1.0, list.last(), depth);
                match walk(graph, r1.0, list.last(), depth) {
                    None => {},
                    Some(r2) => {
                        let r = (r2.0, r1.1 + r2.1);
                        assert(walk_list(graph, visited, list, depth) == Some(r));
                        let ids1 = order_ids(graph, r1.1);
                        let ids2 = order_ids(graph, r2.1);
                        let ids = order_ids(graph, r.1);
                        assert(ids =~= ids1 + ids2);
                        assert forall|a: int, b: int| 0 <= a < b < ids.len() implies ids[a] != ids[b] by {
                            if b < ids1.len() {
                                assert(ids[a] == ids1[a] && ids[b] == ids1[b]);
                            } else if a >= ids1.len() {
                                assert(ids[a] == ids2[a - ids1.len()] && ids[b] == ids2[b - ids1.len()]);
                            } else {
                                assert(ids[a] == ids1[a] && ids[b] == ids2[b - ids1.len()]);
                                assert(r1.0.contains(ids1[a]));
                                assert(!r1.0.contains(ids2[b - ids1.len()]));
                            }
                        }
                        assert forall|k: int| 0 <= k < r.1.len() implies r.0.contains(
                            #[trigger] order_ids(graph, r.1)[k],
                        ) && !visited.contains(order_ids(graph, r.1)[k]) by {
                            if k < ids1.len() {
                                assert(ids[k] == ids1[k]);
                                assert(r1.0.contains(ids1[k]));
                            } else {
                                assert(ids[k] == ids2[k - ids1.len()]);
                                assert(r2.0.contains(ids2[k - ids1.len()]));
                                assert(!r1.0.contains(ids2[k - ids1.len()]));
                            }
                        }
                    },
                }
            },
        }
    }
}

/// Wiring a module graph wires each module once: the order in which a walk
/// from the root registers modules never holds one module twice.
pub proof fn lemma_wiring_order_wires_each_module_once(graph: Seq<ModuleNode>, root: usize)
    ensures
        walk(graph, Seq::empty(), root, 0) matches Some(r) ==> no_repeats(order_ids(graph, r.1)),
{
    lemma_walk_sound(graph, Seq::empty(), root, 0);
}

/// `path` follows import and re-export edges: each position after the first
/// is imported or re-exported by the one before it.
pub open spec fn is_path(graph: Seq<ModuleNode>, path: Seq<usize>) -> bool {
    &&& path.len() >= 1
    &&& forall|k: int|
        0 <= k < path.len() - 1 ==> children(graph[(#[trigger] path[k]) as int]).contains(
            path[k + 1],
        )
}

/// Module `to` can be reached from module `from` through imports and
/// re-exports.
pub open spec fn reachable(graph: Seq<ModuleNode>, from: usize, to: usize) -> bool {
    exists|path: Seq<usize>| is_path(graph, path) && path[0] == from && path.last() == to
}

/// Nodes with one identifier are one module: they import and re-export the
/// same modules.
pub open spec fn ids_consistent(graph: Seq<ModuleNode>) -> bool {
    forall|i: int, j: int|
        0 <= i < graph.len() && 0 <= j < graph.len() && graph[i].id == graph[j].id
            ==> children(#[trigger] graph[i]) == children(#[trigger] graph[j])
}

/// What a finished walk from `visited` leaves wired: the children of every
/// module it wired, the module it started from, nothing but `visited` and
/// what it wired, and all of `visited`.
pub open spec fn walk_closed(
    graph: Seq<ModuleNode>,
    visited: Seq<u64>,
    r: (Seq<u64>, Seq<usize>),
) -> bool {
    &&& forall|k: int, c: usize|
        0 <= k < r.1.len() && children(graph[(#[trigger] r.1[k]) as int]).contains(c)
            ==> r.0.contains(#[trigger] graph[c as int].id)
    &&& forall|x: u64|
        #[trigger] r.0.contains(x) ==> visited.contains(x) || order_ids(graph, r.1).contains(x)
    &&& forall|x: u64| #[trigger] visited.contains(x) ==> r.0.contains(x)
}

proof fn lemma_walk_closed(graph: Seq<ModuleNode>, visited: Seq<u64>, m: usize, depth: int)
    ensures
        walk(graph, visited, m, depth) matches Some(r) ==> walk_closed(graph, visited, r)
            && r.0.contains(graph[m as int].id),
    decreases WIRE_MODULE_MAX_DEPTH - depth, 0int,
{
    if depth < WIRE_MODULE_MAX_DEPTH {
        let id = graph[m as int].id;
        if visited.contains(id) {
            let r = walk(graph, visited, m, depth).unwrap();
            assert(order_ids(graph, r.1) =~= Seq::<u64>::empty());
        } else {
            let start = visited.push(id);
            let list = children(graph[m as int]);
            lemma_walk_list_closed(graph, start, list, depth + 1);
            match walk_list(graph, start, list, depth + 1) {
                None => {},
                Some(r1) => {
                    let r = (r1.0, r1.1.push(m));
                    assert(walk(graph, visited, m, depth) == Some(r));
                    let ids1 = order_ids(graph, r1.1);
                    let ids = order_ids(graph, r.1);
                    assert(ids =~= ids1.push(id));
                    assert(start[visited.len() as int] == id);
                    assert(start.contains(id));
                    assert forall|x: u64| #[trigger] visited.contains(x) implies r.0.contains(x) by {
                        let t = choose|t: int| 0 <= t < visited.len() && visited[t] == x;
                        assert(start[t] == x);
                        assert(start.contains(x));
                    }
                    assert forall|x: u64| #[trigger] r.0.contains(x) implies visited.contains(x)
                        || ids.contains(x) by {
                        if start.contains(x) {
                            let t = choose|t: int| 0 <= t < start.len() && start[t] == x;
                            if t == visited.len() {
                                assert(ids[ids1.len() as int] == x);
                            } else {
                                assert(visited[t] == x);
                            }
                        } else {
                            assert(ids1.contains(x));
                            let t = choose|t: int| 0 <= t < ids1.len() && ids1[t] == x;
                            assert(ids[t] == x);
                        }
                    }
                    assert forall|k: int, c: usize|
                        0 <= k < r.1.len() && children(graph[(#[trigger] r.1[k]) as int]).contains(
                            c,
                        ) implies r.0.contains(#[trigger] graph[c as int].id) by {
                        if k < r1.1.len() {
                            assert(r.1[k] == r1.1[k]);
                        } else {
                            assert(r.1[k] == m);
                            let t = choose|t: int| 0 <= t < list.len() && list[t] == c;
                            assert(r1.0.contains(graph[list[t] as int].id));
                        }
                    }
                },
            }
        }
    }
}

proof fn lemma_walk_list_closed(graph: Seq<ModuleNode>, visited: Seq<u64>, list: Seq<usize>, depth: int)
    ensures
        walk_list(graph, visited, list, depth) matches Some(r) ==> walk_closed(graph, visited, r)
            && forall|j: int| 0 <= j < list.len() ==> r.0.contains(graph[(#[trigger] list[j]) as int].id),
    decreases WIRE_MODULE_MAX_DEPTH - depth, list.len() + 1,
{
    if list.len() == 0 {
        let r = walk_list(graph, visited, list, depth).unwrap();
        assert(order_ids(graph, r.1) =~= Seq::<u64>::empty());
    } else {
        let prev = list.drop_last();
        lemma_walk_list_closed(graph, visited, prev, depth);
        match walk_list(graph, visited, prev, depth) {
            None => {},
            Some(r1) => {
                lemma_walk_closed(graph, r1.0, list.last(), depth);
                match walk(graph, r1.0, list.last(), depth) {
                    None => {},
                    Some(r2) => {
                        let r = (r2.0, r1.1 + r2.1);
                        assert(walk_list(graph, visited, list, depth) == Some(r));
                        let ids1 = order_ids(graph, r1.1);
                        let ids2 = order_ids(graph, r2.1);
                        let ids = order_ids(graph, r.1);
                        assert(ids =~= ids1 + ids2);
                        assert forall|x: u64| #[trigger] visited.contains(x) implies r.0.contains(
                            x,
                        ) by {
                            assert(r1.0.contains(x));
                        }
                        assert forall|x: u64| #[trigger] r.0.contains(x) implies visited.contains(x)
                            || ids.contains(x) by {
                            if r1.0.contains(x) {
                                if !visited.contains(x) {
                                    assert(ids1.contains(x));
                                    let t = choose|t: int| 0 <= t < ids1.len() && ids1[t] == x;
                                    assert(ids[t] == x);
                                }
                            } else {
                                assert(ids2.contains(x));
                                let t = choose|t: int| 0 <= t < ids2.len() && ids2[t] == x;
                                assert(ids[ids1.len() + t] == x);
                            }
                        }
                        assert forall|k: int, c: usize|
                            0 <= k < r.1.len() && children(
                                graph[(#[trigger] r.1[k]) as int],
                            ).contains(c) implies r.0.contains(#[trigger] graph[c as int].id) by {
                            if k < r1.1.len() {
                                assert(r.1[k] == r1.1[k]);
                                assert(r1.0.contains(graph[c as int].id));
                            } else {
                                assert(r.1[k] == r2.1[k - r1.1.len()]);
                            }
                        }
                        assert forall|j: int| 0 <= j < list.len() implies r.0.contains(
                            graph[(#[trigger] list[j]) as int].id,
                        ) by {
                            if j < prev.len() {
                                assert(list[j] == prev[j]);
                                assert(r1.0.contains(graph[prev[j] as int].id));
                            }
                        }
                    },
                }
            },
        }
    }
}

/// A walk over a graph whose edges stay inside it wires only positions of
/// the graph.
proof fn lemma_walk_in_range(graph: Seq<ModuleNode>, visited: Seq<u64>, m: usize, depth: int)
    requires
        graph_ok(graph),
        m < graph.len(),
    ensures
        walk(graph, visited, m, depth) matches Some(r) ==> forall|k: int|
            0 <= k < r.1.len() ==> (#[trigger] r.1[k]) < graph.len(),
    decreases WIRE_MODULE_MAX_DEPTH - depth, 0int,
{
    if depth < WIRE_MODULE_MAX_DEPTH && !visited.contains(graph[m as int].id) {
        let list = children(graph[m as int]);
        assert forall|j: int| 0 <= j < list.len() implies (#[trigger] list[j]) < graph.len() by {
            assert(children(graph[m as int])[j] < graph.len());
        }
        lemma_walk_list_in_range(graph, visited.push(graph[m as int].id), list, depth + 1);
        match walk_list(graph, visited.push(graph[m as int].id), list, depth + 1) {
            None => {},
            Some(r1) => {
                let r = (r1.0, r1.1.push(m));
                assert(walk(graph, visited, m, depth) == Some(r));
                assert forall|k: int| 0 <= k < r.1.len() implies (#[trigger] r.1[k]) < graph.len() by {
                    if k < r1.1.len() {
                        assert(r.1[k] == r1.1[k]);
                    }
                }
            },
        }
    } else if depth < WIRE_MODULE_MAX_DEPTH {
        let r = walk(graph, visited, m, depth).unwrap();
        assert(r.1 =~= Seq::<usize>::empty());
    }
}

proof fn lemma_walk_list_in_range(graph: Seq<ModuleNode>, visited: Seq<u64>, list: Seq<usize>, depth: int)
    requires
        graph_ok(graph),
        forall|j: int| 0 <= j < list.len() ==> (#[trigger] list[j]) < graph.len(),
    ensures
        walk_list(graph, visited, list, depth) matches Some(r) ==> forall|k: int|
            0 <= k < r.1.len() ==> (#[trigger] r.1[k]) < graph.len(),
    decreases WIRE_MODULE_MAX_DEPTH - depth, list.len() + 1,
{
    if list.len() > 0 {
        let prev = list.drop_last();
        assert forall|j: int| 0 <= j < prev.len() implies (#[trigger] prev[j]) < graph.len() by {
            assert(prev[j] == list[j]);
        }
        lemma_walk_list_in_range(graph, visited, prev, depth);
        match walk_list(graph, visited, prev, depth) {
            None => {},
            Some(r1) => {
                assert(list.last() == list[list.len() - 1]);
                lemma_walk_in_range(graph, r1.0, list.last(), depth);
                match walk(graph, r1.0, list.last(), depth) {
                    None => {},
                    Some(r2) => {
                        let r = (r2.0, r1.1 + r2.1);
                        assert(walk_list(graph, visited, list, depth) == Some(r));
                        assert forall|k: int| 0 <= k < r.1.len() implies (#[trigger] r.1[k])
                            < graph.len() by {
                            if k < r1.1.len() {
                                assert(r.1[k] == r1.1[k]);
                            } else {
                                assert(r.1[k] == r2.1[k - r1.1.len()]);
                            }
                        }
                    },
                }
            },
        }
    } else {
        let r = walk_list(graph, visited, list, depth).unwrap();
        assert(r.1 =~= Seq::<usize>::empty());
    }
}

/// Along an import/re-export path from the root, every module is wired when
/// the wired set is closed under children and holds the root.
proof fn lemma_path_wired(
    graph: Seq<ModuleNode>,
    wired: Seq<u64>,
    order: Seq<usize>,
    path: Seq<usize>,
    i: int,
)
    requires
        graph_ok(graph),
        ids_consistent(graph),
        is_path(graph, path),
        path[0] < graph.len(),
        wired.contains(graph[path[0] as int].id),
        0 <= i < path.len(),
        forall|x: u64| #[trigger] wired.contains(x) ==> order_ids(graph, order).contains(x),
        forall|k: int| 0 <= k < order.len() ==> (#[trigger] order[k]) < graph.len(),
        forall|k: int, c: usize|
            0 <= k < order.len() && children(graph[(#[trigger] order[k]) as int]).contains(c)
                ==> wired.contains(#[trigger] graph[c as int].id),
    ensures
        path[i] < graph.len(),
        wired.contains(graph[path[i] as int].id),
    decreases i,
{
    if i > 0 {
        lemma_path_wired(graph, wired, order, path, i - 1);
        let p = path[i - 1];
        let c = path[i];
        assert(children(graph[p as int]).contains(c));
        let t = choose|t: int| 0 <= t < children(graph[p as int]).len() && children(graph[p as int])[t] == c;
        assert(c < graph.len());
        let ids = order_ids(graph, order);
        assert(ids.contains(graph[p as int].id));
        let k = choose|k: int| 0 <= k < ids.len() && ids[k] == graph[p as int].id;
        let q = order[k];
        assert(q < graph.len());
        assert(graph[q as int].id == graph[p as int].id);
        assert(children(graph[q as int]) == children(graph[p as int]));
        assert(children(graph[q as int]).contains(c));
    }
}

/// Law: wiring a module graph wires every module that the root reaches
/// through imports and re-exports, at any depth: when the walk does not nest
/// too deep, each such module appears in the wiring order.
pub proof fn lemma_wiring_order_wires_every_reachable_module(
    graph: Seq<ModuleNode>,
    root: usize,
    target: usize,
)
    requires
        graph_ok(graph),
        ids_consistent(graph),
        root < graph.len(),
        reachable(graph, root, target),
    ensures
        walk(graph, Seq::empty(), root, 0) matches Some(r) ==> order_ids(graph, r.1).contains(
            graph[target as int].id,
        ),
{
    lemma_walk_closed(graph, Seq::empty(), root, 0);
    lemma_walk_in_range(graph, Seq::empty(), root, 0);
    match walk(graph, Seq::empty(), root, 0) {
        None => {},
        Some(r) => {
            let path = choose|path: Seq<usize>|
                is_path(graph, path) && path[0] == root && path.last() == target;
            lemma_path_wired(graph, r.0, r.1, path, path.len() - 1);
        },
    }
}

/// Module `x` is wired at or before position `k` of the order.
pub open spec fn wired_by(ids: Seq<u64>, k: int, x: u64) -> bool {
    exists|j: int| 0 <= j <= k && #[trigger] ids[j] == x
}

/// Module `x` is wired after position `k` of the order, by a module that
/// reaches the module wired at `k`: `x` lies on an import cycle through it.
pub open spec fn wired_later_on_cycle(graph: Seq<ModuleNode>, order: Seq<usize>, k: int, x: u64) -> bool {
    exists|t: int|
        k < t < order.len() && #[trigger] order_ids(graph, order)[t] == x && reachable(
            graph,
            order[t],
            order[k],
        )
}

/// Each wired module's imports and re-exports were wired before it (or are
/// it), lie on an import cycle through it, or were wired before the walk.
pub open spec fn children_first(graph: Seq<ModuleNode>, visited: Seq<u64>, order: Seq<usize>) -> bool {
    forall|k: int, c: usize|
        0 <= k < order.len() && children(graph[(#[trigger] order[k]) as int]).contains(c) ==> {
            let x = #[trigger] graph[c as int].id;
            visited.contains(x) || wired_by(order_ids(graph, order), k, x) || wired_later_on_cycle(
                graph,
                order,
                k,
                x,
            )
        }
}

/// Some module of `list` reaches module `x`.
pub open spec fn reached_from(graph: Seq<ModuleNode>, list: Seq<usize>, x: usize) -> bool {
    exists|j: int| 0 <= j < list.len() && reachable(graph, #[trigger] list[j], x)
}

/// A path from `m`'s child extends to a path from `m`.
proof fn lemma_reach_through_child(graph: Seq<ModuleNode>, m: usize, c: usize, to: usize)
    requires
        children(graph[m as int]).contains(c),
        reachable(graph, c, to),
    ensures
        reachable(graph, m, to),
{
    let path = choose|path: Seq<usize>| is_path(graph, path) && path[0] == c && path.last() == to;
    let longer = seq![m] + path;
    assert forall|k: int| 0 <= k < longer.len() - 1 implies children(
        graph[(#[trigger] longer[k]) as int],
    ).contains(longer[k + 1]) by {
        if k > 0 {
            assert(longer[k] == path[k - 1]);
            assert(longer[k + 1] == path[k]);
        }
    }
    assert(is_path(graph, longer));
    assert(longer.last() == to);
}

proof fn lemma_walk_ordered(graph: Seq<ModuleNode>, visited: Seq<u64>, m: usize, depth: int)
    ensures
        walk(graph, visited, m, depth) matches Some(r) ==> children_first(graph, visited, r.1)
            && forall|k: int| 0 <= k < r.1.len() ==> reachable(graph, m, #[trigger] r.1[k]),
    decreases WIRE_MODULE_MAX_DEPTH - depth, 0int,
{
    if depth < WIRE_MODULE_MAX_DEPTH {
        let id = graph[m as int].id;
        if visited.contains(id) {
            let r = walk(graph, visited, m, depth).unwrap();
            assert(r.1 =~= Seq::<usize>::empty());
        } else {
            let start = visited.push(id);
            let list = children(graph[m as int]);
            lemma_walk_list_ordered(graph, start, list, depth + 1);
            lemma_walk_list_closed(graph, start, list, depth + 1);
            match walk_list(graph, start, list, depth + 1) {
                None => {},
                Some(r1) => {
                    let r = (r1.0, r1.1.push(m));
                    assert(walk(graph, visited, m, depth) == Some(r));
                    let o1 = r1.1;
                    let o = r.1;
                    let n = o1.len() as int;
                    let ids1 = order_ids(graph, o1);
                    let ids = order_ids(graph, o);
                    assert(ids =~= ids1.push(id));
                    assert(o[n] == m);
                    assert(is_path(graph, seq![m]));
                    assert(reachable(graph, m, m)) by {
                        assert(seq![m][0] == m && seq![m].last() == m);
                    }
                    assert forall|k: int| 0 <= k < o.len() implies reachable(
                        graph,
                        m,
                        #[trigger] o[k],
                    ) by {
                        if k < n {
                            assert(o[k] == o1[k]);
                            let j = choose|j: int|
                                0 <= j < list.len() && reachable(graph, #[trigger] list[j], o1[k]);
                            assert(list.contains(list[j]));
                            lemma_reach_through_child(graph, m, list[j], o1[k]);
                        }
                    }
                    assert forall|k: int, c: usize|
                        0 <= k < o.len() && children(graph[(#[trigger] o[k]) as int]).contains(
                            c,
                        ) implies {
                        let x = #[trigger] graph[c as int].id;
                        visited.contains(x) || wired_by(ids, k, x) || wired_later_on_cycle(
                            graph,
                            o,
                            k,
                            x,
                        )
                    } by {
                        let x = graph[c as int].id;
                        if k < n {
                            assert(o[k] == o1[k]);
                            // what the children's walk says of this child
                            assert(start.contains(x) || wired_by(ids1, k, x)
                                || wired_later_on_cycle(graph, o1, k, x));
                            if wired_by(ids1, k, x) {
                                let j = choose|j: int| 0 <= j <= k && #[trigger] ids1[j] == x;
                                assert(ids[j] == x);
                            } else if wired_later_on_cycle(graph, o1, k, x) {
                                let t = choose|t: int|
                                    k < t < o1.len() && #[trigger] order_ids(graph, o1)[t] == x
                                        && reachable(graph, o1[t], o1[k]);
                                assert(ids[t] == x);
                                assert(o[t] == o1[t]);
                            } else if !visited.contains(x) {
                                let t = choose|t: int| 0 <= t < start.len() && start[t] == x;
                                if t < visited.len() {
                                    assert(visited[t] == x);
                                } else {
                                    assert(x == id);
                                    assert(ids[n] == x);
                                    assert(reachable(graph, m, o[k]));
                                    assert(reachable(graph, o[n], o[k]));
                                }
                            }
                        } else {
                            assert(o[k] == m);
                            let t = choose|t: int| 0 <= t < list.len() && list[t] == c;
                            assert(r1.0.contains(graph[list[t] as int].id));
                            assert(r1.0.contains(x));
                            if !visited.contains(x) {
                                if start.contains(x) {
                                    let u = choose|u: int| 0 <= u < start.len() && start[u] == x;
                                    if u < visited.len() {
                                        assert(visited[u] == x);
                                    } else {
                                        assert(ids[k] == x);
                                    }
                                } else {
                                    assert(ids1.contains(x));
                                    let j = choose|j: int| 0 <= j < ids1.len() && ids1[j] == x;
                                    assert(ids[j] == x);
                                }
                            }
                        }
                    }
                },
            }
        }
    }
}

proof fn lemma_walk_list_ordered(graph: Seq<ModuleNode>, visited: Seq<u64>, list: Seq<usize>, depth: int)
    ensures
        walk_list(graph, visited, list, depth) matches Some(r) ==> children_first(graph, visited, r.1)
            && forall|k: int| 0 <= k < r.1.len() ==> reached_from(graph, list, #[trigger] r.1[k]),
    decreases WIRE_MODULE_MAX_DEPTH - depth, list.len() + 1,
{
    if list.len() == 0 {
        let r = walk_list(graph, visited, list, depth).unwrap();
        assert(r.1 =~= Seq::<usize>::empty());
    } else {
        let prev = list.drop_last();
        lemma_walk_list_ordered(graph, visited, prev, depth);
        match walk_list(graph, visited, prev, depth) {
            None => {},
            Some(r1) => {
                lemma_walk_ordered(graph, r1.0, list.last(), depth);
                lemma_walk_list_closed(graph, visited, prev, depth);
                match walk(graph, r1.0, list.last(), depth) {
                    None => {},
                    Some(r2) => {
                        let r = (r2.0, r1.1 + r2.1);
                        assert(walk_list(graph, visited, list, depth) == Some(r));
                        let oa = r1.1;
                        let ob = r2.1;
                        let o = r.1;
                        let na = oa.len() as int;
                        let idsa = order_ids(graph, oa);
                        let idsb = order_ids(graph, ob);
                        let ids = order_ids(graph, o);
                        assert(ids =~= idsa + idsb);
                        assert forall|k: int| 0 <= k < o.len() implies reached_from(
                            graph,
                            list,
                            #[trigger] o[k],
                        ) by {
                            if k < na {
                                assert(o[k] == oa[k]);
                                let j = choose|j: int|
                                    0 <= j < prev.len() && reachable(graph, #[trigger] prev[j], oa[k]);
                                assert(list[j] == prev[j]);
                            } else {
                                assert(o[k] == ob[k - na]);
                                assert(reachable(graph, list.last(), ob[k - na]));
                                assert(list[list.len() - 1] == list.last());
                            }
                        }
                        assert forall|k: int, c: usize|
                            0 <= k < o.len() && children(graph[(#[trigger] o[k]) as int]).contains(
                                c,
                            ) implies {
                            let x = #[trigger] graph[c as int].id;
                            visited.contains(x) || wired_by(ids, k, x) || wired_later_on_cycle(
                                graph,
                                o,
                                k,
                                x,
                            )
                        } by {
                            let x = graph[c as int].id;
                            if k < na {
                                assert(o[k] == oa[k]);
                                if wired_by(idsa, k, x) {
                                    let j = choose|j: int| 0 <= j <= k && #[trigger] idsa[j] == x;
                                    assert(ids[j] == x);
                                } else if wired_later_on_cycle(graph, oa, k, x) {
                                    let t = choose|t: int|
                                        k < t < oa.len() && #[trigger] order_ids(graph, oa)[t] == x
                                            && reachable(graph, oa[t], oa[k]);
                                    assert(ids[t] == x);
                                    assert(o[t] == oa[t]);
                                }
                            } else {
                                let kb = k - na;
                                assert(o[k] == ob[kb]);
                                if wired_by(idsb, kb, x) {
                                    let j = choose|j: int| 0 <= j <= kb && #[trigger] idsb[j] == x;
                                    assert(ids[na + j] == x);
                                } else if wired_later_on_cycle(graph, ob, kb, x) {
                                    let t = choose|t: int|
                                        kb < t < ob.len() && #[trigger] order_ids(graph, ob)[t] == x
                                            && reachable(graph, ob[t], ob[kb]);
                                    assert(ids[na + t] == x);
                                    assert(o[na + t] == ob[t]);
                                } else {
                                    assert(r1.0.contains(x));
                                    if !visited.contains(x) {
                                        assert(idsa.contains(x));
                                        let j = choose|j: int| 0 <= j < idsa.len() && idsa[j] == x;
                                        assert(ids[j] == x);
                                    }
                                }
                            }
                        }
                    },
                }
            },
        }
    }
}

/// Law: wiring a module graph wires each module after the modules it
/// imports and re-exports: each of them is wired before it (or is the module
/// itself, when it imports itself), unless it lies on an import cycle through
/// the module, in which case it is wired later, by a module that reaches this
/// one. In a graph without import cycles every module comes after all it
/// imports and re-exports.
pub proof fn lemma_wiring_order_puts_children_first(graph: Seq<ModuleNode>, root: usize)
    ensures
        walk(graph, Seq::empty(), root, 0) matches Some(r) ==> forall|k: int, c: usize|
            0 <= k < r.1.len() && children(graph[(#[trigger] r.1[k]) as int]).contains(c) ==> {
                let x = #[trigger] graph[c as int].id;
                wired_by(order_ids(graph, r.1), k, x) || wired_later_on_cycle(graph, r.1, k, x)
            },
{
    lemma_walk_ordered(graph, Seq::empty(), root, 0);
}

/// The order in which wiring the graph from module `root` registers the
/// modules' providers and controllers: every module once, its imports and
/// re-exports before it; `None` when the walk enters a module
/// `WIRE_MODULE_MAX_DEPTH` levels or more below the root.
pub fn wiring_order(graph: &Vec<ModuleNode>, root: usize) -> (r: Option<Vec<usize>>)
    requires
        graph_ok(graph@),
        root < graph@.len(),
    ensures
        match walk(graph@, Seq::empty(), root, 0) {
            None => r is None,
            Some(w) => r matches Some(order) && order@ == w.1,
        },
        r matches Some(order) ==> no_repeats(order_ids(graph@, order@)),
        r matches Some(order) ==> forall|k: int, c: usize|
            0 <= k < order@.len() && children(graph@[(#[trigger] order@[k]) as int]).contains(c)
                ==> {
                let x = #[trigger] graph@[c as int].id;
                wired_by(order_ids(graph@, order@), k, x) || wired_later_on_cycle(
                    graph@,
                    order@,
                    k,
                    x,
                )
            },
        r matches Some(order) ==> (ids_consistent(graph@) ==> forall|p: usize|
            #[trigger] reachable(graph@, root, p) ==> order_ids(graph@, order@).contains(
                graph@[p as int].id,
            )),
{
    proof {
        lemma_wiring_order_wires_each_module_once(graph@, root);
        lemma_wiring_order_puts_children_first(graph@, root);
        if ids_consistent(graph@) {
            assert forall|p: usize| #[trigger] reachable(graph@, root, p) implies (walk(
                graph@,
                Seq::empty(),
                root,
                0,
            ) matches Some(w) ==> order_ids(graph@, w.1).contains(graph@[p as int].id)) by {
                lemma_wiring_order_wires_every_reachable_module(graph@, root, p);
            }
        }
    }
    let mut wiring = ModuleWiring::new();
    let mut order: Vec<usize> = Vec::new();
    if wire_from(graph, &mut wiring, root, 0, &mut order) {
        assert(order@ =~= Seq::<usize>::empty() + walk(graph@, Seq::empty(), root, 0).unwrap().1);
        Some(order)
    } else {
        None
    }
}

} // verus!
