use crate::custom_value::{CustomModel, as_nats, custom_dependencies, dependencies_of};
use crate::diagnostic::Diagnostic;
use vstd::prelude::*;

verus! {

/// The dependency graph of a module's custom declarations: entry `i` lists
/// the declarations that declaration `i` refers to.
pub open spec fn dependency_graph(customs: Seq<CustomModel>) -> Seq<Seq<nat>> {
    Seq::new(customs.len(), |i: int| dependencies_of(customs[i]))
}

/// Every dependency names a declaration of the graph.
pub open spec fn graph_well_formed(graph: Seq<Seq<nat>>) -> bool {
    forall|i: int, k: int|
        0 <= i < graph.len() && 0 <= k < graph[i].len() ==> #[trigger] graph[i][k] < graph.len()
}

pub open spec fn graph_edge(graph: Seq<Seq<nat>>, from: nat, to: nat) -> bool {
    from < graph.len() && graph[from as int].contains(to)
}

/// `walk` follows dependencies from each entry to the next.
pub open spec fn is_walk(graph: Seq<Seq<nat>>, walk: Seq<nat>) -> bool {
    forall|j: int| #![trigger walk[j]] 0 <= j < walk.len() - 1 ==> graph_edge(graph, walk[j], walk[j + 1])
}

/// `walk` leads from a declaration back to itself.
pub open spec fn is_cycle(graph: Seq<Seq<nat>>, walk: Seq<nat>) -> bool {
    &&& walk.len() >= 2
    &&& walk[0] == walk.last()
    &&& is_walk(graph, walk)
}

pub open spec fn has_cycle(graph: Seq<Seq<nat>>) -> bool {
    exists|walk: Seq<nat>| #[trigger] is_cycle(graph, walk)
}

/// `names` joined by `separator`.
pub open spec fn joined(names: Seq<Seq<char>>, separator: Seq<char>) -> Seq<char>
    decreases names.len(),
{
    if names.len() == 0 {
        Seq::empty()
    } else if names.len() == 1 {
        names[0]
    } else {
        joined(names.drop_last(), separator) + separator + names.last()
    }
}

/// The message that reports the recursive declarations of `walk`.
pub open spec fn cycle_message(customs: Seq<CustomModel>, walk: Seq<nat>) -> Seq<char> {
    "recursive custom values are not supported: "@ + joined(
        walk.map_values(|index: nat| customs[index as int].ident@),
        " -> "@,
    )
}

spec fn graph_model(graph: Seq<Vec<usize>>) -> Seq<Seq<nat>> {
    graph.map_values(|dependencies: Vec<usize>| as_nats(dependencies@))
}

/// The number of unmarked declarations.
pub open spec fn false_count(flags: Seq<bool>) -> nat
    decreases flags.len(),
{
    if flags.len() == 0 {
        0
    } else {
        false_count(flags.drop_last()) + if flags.last() {
            0nat
        } else {
            1nat
        }
    }
}

pub proof fn lemma_false_count_monotone(before: Seq<bool>, after: Seq<bool>)
    requires
        before.len() == after.len(),
        forall|i: int| 0 <= i < before.len() && #[trigger] before[i] ==> after[i],
    ensures
        false_count(after) <= false_count(before),
        (exists|i: int| 0 <= i < before.len() && !before[i] && #[trigger] after[i]) ==> false_count(
            after,
        ) < false_count(before),
    decreases before.len(),
{
    if before.len() > 0 {
        let b = before.drop_last();
        let a = after.drop_last();
        assert forall|i: int| 0 <= i < b.len() && #[trigger] b[i] implies a[i] by {
            assert(before[i]);
        }
        lemma_false_count_monotone(b, a);
        if exists|i: int| 0 <= i < before.len() && !before[i] && #[trigger] after[i] {
            let i = choose|i: int| 0 <= i < before.len() && !before[i] && #[trigger] after[i];
            if i < before.len() - 1 {
                assert(!b[i] && a[i]);
            }
        }
    }
}

/// The first position of `index` on `path`, from `from` on, or `path.len()`.
pub open spec fn first_position(path: Seq<nat>, index: nat, from: int) -> int
    decreases path.len() - from,
{
    if from < 0 || from >= path.len() {
        path.len() as int
    } else if path[from] == index {
        from
    } else {
        first_position(path, index, from + 1)
    }
}

/// The depth-first search from declaration `index` with the declarations
/// `path` on the current search path and the marks `visited` of the
/// declarations entered before: the marks after the search, or the cycle it
/// meets first. A declaration found on the path closes the cycle that runs
/// from its first occurrence on the path back to it; a marked declaration is
/// not entered again; otherwise the declaration is marked, put on the path,
/// and its dependencies are searched in order.
pub open spec fn search(graph: Seq<Seq<nat>>, index: nat, path: Seq<nat>, visited: Seq<bool>) -> Result<
    Seq<bool>,
    Seq<nat>,
>
    decreases false_count(visited), 0nat, 0nat,
{
    let position = first_position(path, index, 0);
    if position < path.len() {
        Err(path.subrange(position, path.len() as int).push(index))
    } else if index >= visited.len() || visited[index as int] || index >= graph.len() {
        Ok(visited)
    } else {
        let marked = visited.update(index as int, true);
        proof {
            lemma_false_count_monotone(visited, marked);
            assert(!visited[index as int] && marked[index as int]);
        }
        search_list(graph, graph[index as int], 0, path.push(index), marked)
    }
}

/// The search through `dependencies[from..]`, one after the other.
pub open spec fn search_list(
    graph: Seq<Seq<nat>>,
    dependencies: Seq<nat>,
    from: nat,
    path: Seq<nat>,
    visited: Seq<bool>,
) -> Result<Seq<bool>, Seq<nat>>
    decreases false_count(visited), 1nat, dependencies.len() - from,
{
    if from >= dependencies.len() {
        Ok(visited)
    } else {
        match search(graph, dependencies[from as int], path, visited) {
            Err(cycle) => Err(cycle),
            Ok(after) => if false_count(after) <= false_count(visited) {
                search_list(graph, dependencies, from + 1, path, after)
            } else {
                Ok(after)
            },
        }
    }
}

/// The searches from each declaration in order, from `from` on, each with
/// an empty path: the first cycle met, or the final marks.
pub open spec fn search_all(graph: Seq<Seq<nat>>, from: nat, visited: Seq<bool>) -> Result<
    Seq<bool>,
    Seq<nat>,
>
    decreases graph.len() - from,
{
    if from >= graph.len() {
        Ok(visited)
    } else {
        match search(graph, from, Seq::empty(), visited) {
            Err(cycle) => Err(cycle),
            Ok(after) => search_all(graph, from + 1, after),
        }
    }
}

/// The cycle that the search over `graph` reports, if any.
pub open spec fn first_cycle(graph: Seq<Seq<nat>>) -> Result<Seq<bool>, Seq<nat>> {
    search_all(graph, 0, Seq::new(graph.len(), |i: int| false))
}

spec fn on_path(visiting: Seq<usize>, index: nat) -> bool {
    exists|j: int| 0 <= j < visiting.len() && #[trigger] visiting[j] as nat == index
}

/// A declaration whose search has finished.
spec fn finished(visited: Seq<bool>, visiting: Seq<usize>, index: nat) -> bool {
    index < visited.len() && visited[index as int] && !on_path(visiting, index)
}

/// The search state: declarations on the current path were visited and form a
/// walk; finished declarations depend only on finished declarations and lie
/// on no cycle.
spec fn search_state(graph: Seq<Seq<nat>>, visited: Seq<bool>, visiting: Seq<usize>) -> bool {
    &&& visited.len() == graph.len()
    &&& graph_well_formed(graph)
    &&& forall|j: int|
        0 <= j < visiting.len() ==> #[trigger] visiting[j] < graph.len() && visited[visiting[j] as int]
    &&& is_walk(graph, as_nats(visiting))
    &&& forall|u: nat, k: int|
        finished(visited, visiting, u) && 0 <= k < graph[u as int].len() ==> #[trigger] finished(
            visited,
            visiting,
            #[trigger] graph[u as int][k],
        )
    &&& forall|walk: Seq<nat>| #[trigger] is_cycle(graph, walk) ==> !finished(visited, visiting, walk[0])
}

/// A walk that starts at a finished declaration stays among finished ones.
proof fn lemma_walk_stays_finished(
    graph: Seq<Seq<nat>>,
    visited: Seq<bool>,
    visiting: Seq<usize>,
    walk: Seq<nat>,
    position: int,
)
    requires
        search_state(graph, visited, visiting),
        is_walk(graph, walk),
        walk.len() > 0,
        finished(visited, visiting, walk[0]),
        0 <= position < walk.len(),
    ensures
        finished(visited, visiting, walk[position]),
    decreases position,
{
    if position > 0 {
        lemma_walk_stays_finished(graph, visited, visiting, walk, position - 1);
        let u = walk[position - 1];
        assert(graph_edge(graph, walk[position - 1], walk[position]));
        let k = choose|k: int| 0 <= k < graph[u as int].len() && graph[u as int][k] == walk[position];
        assert(finished(visited, visiting, graph[u as int][k]));
    }
}


proof fn lemma_as_nats_push_walk(graph: Seq<Seq<nat>>, visiting: Seq<usize>, index: usize)
    requires
        is_walk(graph, as_nats(visiting)),
        visiting.len() > 0 ==> graph_edge(graph, visiting.last() as nat, index as nat),
    ensures
        is_walk(graph, as_nats(visiting.push(index))),
{
    let walk = as_nats(visiting.push(index));
    let before = as_nats(visiting);
    assert forall|j: int| #![trigger walk[j]] 0 <= j < walk.len() - 1 implies graph_edge(
        graph,
        walk[j],
        walk[j + 1],
    ) by {
        if j < visiting.len() - 1 {
            assert(before[j] == walk[j]);
            assert(before[j + 1] == walk[j + 1]);
        } else {
            assert(walk[j] == visiting.last() as nat);
            assert(walk[j + 1] == index as nat);
        }
    }
}

/// Searches from `index`; reports the first dependency that leads back onto
/// the current path as the cycle it closes.
fn visit(
    index: usize,
    graph: &Vec<Vec<usize>>,
    visiting: &mut Vec<usize>,
    visited: &mut Vec<bool>,
) -> (result: Result<(), Vec<usize>>)
    requires
        search_state(graph_model(graph@), old(visited)@, old(visiting)@),
        index < graph@.len(),
        old(visiting)@.len() > 0 ==> graph_edge(
            graph_model(graph@),
            old(visiting)@.last() as nat,
            index as nat,
        ),
    ensures
        result is Ok ==> {
            &&& final(visiting)@ == old(visiting)@
            &&& final(visited)@.len() == old(visited)@.len()
            &&& forall|i: int|
                0 <= i < old(visited)@.len() && #[trigger] old(visited)@[i] ==> final(visited)@[i]
            &&& finished(final(visited)@, final(visiting)@, index as nat)
            &&& search_state(graph_model(graph@), final(visited)@, final(visiting)@)
        },
        result matches Err(cycle) ==> is_cycle(graph_model(graph@), as_nats(cycle@)),
        match search(graph_model(graph@), index as nat, as_nats(old(visiting)@), old(visited)@) {
            Ok(after) => result is Ok && final(visited)@ == after,
            Err(cycle) => result matches Err(found) && as_nats(found@) == cycle,
        },
    decreases false_count(old(visited)@),
{
    let ghost g = graph_model(graph@);
    let ghost start_visited = visited@;
    let ghost path = visiting@;
    let mut position: usize = 0;
    while position < visiting.len()
        invariant
            position <= visiting.len(),
            visiting@ == path,
            g == graph_model(graph@),
            search_state(g, visited@, path),
            path.len() > 0 ==> graph_edge(g, path.last() as nat, index as nat),
            forall|j: int| 0 <= j < position ==> visiting@[j] != index,
            first_position(as_nats(path), index as nat, 0) == first_position(
                as_nats(path),
                index as nat,
                position as int,
            ),
        decreases visiting.len() - position,
    {
        if visiting[position] == index {
            let mut cycle: Vec<usize> = Vec::new();
            let mut j: usize = position;
            while j < visiting.len()
                invariant
                    position < visiting.len(),
                    position <= j <= visiting.len(),
                    visiting@ == path,
                    cycle@ == path.subrange(position as int, j as int),
                decreases visiting.len() - j,
            {
                cycle.push(visiting[j]);
                j = j + 1;
                assert(cycle@ =~= path.subrange(position as int, j as int));
            }
            cycle.push(index);
            proof {
                assert(cycle@ =~= path.subrange(position as int, path.len() as int).push(index));
                let walk = as_nats(cycle@);
                let whole = as_nats(path);
                assert forall|m: int| #![trigger walk[m]] 0 <= m < walk.len() - 1 implies graph_edge(
                    g,
                    walk[m],
                    walk[m + 1],
                ) by {
                    if m < walk.len() - 2 {
                        assert(cycle@[m] == path[position + m]);
                        assert(cycle@[m + 1] == path[position + m + 1]);
                        assert(walk[m] == whole[position + m]);
                        assert(walk[m + 1] == whole[position + m + 1]);
                    } else {
                        assert(cycle@[m] == path[path.len() - 1]);
                        assert(cycle@[m + 1] == index);
                        assert(walk[m] == path.last() as nat);
                    }
                }
                assert(walk[0] == index as nat);
                assert(whole[position as int] == index as nat);
                assert(as_nats(cycle@) =~= whole.subrange(position as int, whole.len() as int).push(
                    index as nat,
                ));
            }
            return Err(cycle);
        }
        proof {
            assert(as_nats(path)[position as int] != index as nat);
        }
        position = position + 1;
    }
    assert(!on_path(path, index as nat));
    if visited[index] {
        return Ok(());
    }
    let ghost path_nats = as_nats(path);
    visited.set(index, true);
    visiting.push(index);
    proof {
        assert(as_nats(visiting@) =~= path_nats.push(index as nat));
        assert(visited@ =~= start_visited.update(index as int, true));
        assert(g[index as int] == as_nats(graph@[index as int]@));
        lemma_as_nats_push_walk(g, path, index);
        lemma_false_count_monotone(start_visited, visited@);
        assert(!start_visited[index as int] && visited@[index as int]);
        assert forall|u: nat|
            finished(visited@, visiting@, u) <==> finished(start_visited, path, u) by {
            if u < visited@.len() {
                assert(on_path(visiting@, u) <==> (on_path(path, u) || u == index)) by {
                    if u == index {
                        assert(visiting@[path.len() as int] == index);
                    }
                    if on_path(path, u) {
                        let j = choose|j: int| 0 <= j < path.len() && #[trigger] path[j] as nat == u;
                        assert(visiting@[j] == path[j]);
                    }
                    if on_path(visiting@, u) && u != index {
                        let j = choose|j: int|
                            0 <= j < visiting@.len() && #[trigger] visiting@[j] as nat == u;
                        assert(j < path.len());
                        assert(visiting@[j] == path[j]);
                    }
                }
            }
        }
        assert forall|j: int| 0 <= j < visiting@.len() implies #[trigger] visiting@[j] < g.len()
            && visited@[visiting@[j] as int] by {
            if j < path.len() {
                assert(visiting@[j] == path[j]);
            }
        }
        assert forall|u: nat, m: int|
            finished(visited@, visiting@, u) && 0 <= m < g[u as int].len() implies #[trigger] finished(
            visited@,
            visiting@,
            #[trigger] g[u as int][m],
        ) by {
            assert(finished(start_visited, path, u));
            assert(finished(start_visited, path, g[u as int][m]));
        }
        assert forall|walk: Seq<nat>| #[trigger] is_cycle(g, walk) implies !finished(
            visited@,
            visiting@,
            walk[0],
        ) by {
            assert(!finished(start_visited, path, walk[0]));
        }
        assert(visited@.len() == g.len());
        assert(is_walk(g, as_nats(visiting@)));
        assert(graph_well_formed(g));
    }
    let dependencies = &graph[index];
    let mut k: usize = 0;
    while k < dependencies.len()
        invariant
            g == graph_model(graph@),
            *dependencies == graph@[index as int],
            index < graph@.len(),
            !on_path(path, index as nat),
            visiting@ == path.push(index),
            visited@.len() == start_visited.len(),
            forall|i: int|
                0 <= i < start_visited.len() && #[trigger] start_visited[i] ==> visited@[i],
            visited@[index as int],
            false_count(visited@) < false_count(start_visited),
            start_visited == old(visited)@,
            search_state(g, visited@, visiting@),
            k <= dependencies.len(),
            forall|m: int|
                0 <= m < k ==> finished(visited@, visiting@, #[trigger] dependencies@[m] as nat),
            path_nats == as_nats(path),
            path == old(visiting)@,
            as_nats(visiting@) == path_nats.push(index as nat),
            g[index as int] == as_nats(dependencies@),
            search(g, index as nat, path_nats, start_visited) == search_list(
                g,
                g[index as int],
                k as nat,
                path_nats.push(index as nat),
                visited@,
            ),
        decreases dependencies.len() - k,
    {
        let nested = dependencies[k];
        proof {
            assert(g[index as int] == as_nats(dependencies@));
            assert(g[index as int][k as int] == nested as nat);
            assert(visiting@.last() == index);
        }
        let ghost before = visited@;
        let ghost remaining = search_list(
            g,
            g[index as int],
            k as nat,
            path_nats.push(index as nat),
            before,
        );
        proof {
            assert(g[index as int][k as int] == nested as nat);
        }
        match visit(nested, graph, visiting, visited) {
            Ok(()) => {},
            Err(cycle) => {
                proof {
                    assert(search(g, nested as nat, path_nats.push(index as nat), before) == Err::<
                        Seq<bool>,
                        Seq<nat>,
                    >(as_nats(cycle@)));
                    assert(remaining == Err::<Seq<bool>, Seq<nat>>(as_nats(cycle@)));
                }
                return Err(cycle);
            },
        }
        proof {
            lemma_false_count_monotone(before, visited@);
            assert(false_count(visited@) <= false_count(before));
            assert forall|m: int|
                0 <= m < k + 1 implies finished(visited@, visiting@, #[trigger] dependencies@[m] as nat) by {
                if m < k {
                    assert(finished(before, visiting@, dependencies@[m] as nat));
                }
            }
        }
        k = k + 1;
    }
    visiting.pop();
    proof {
        assert(visiting@ =~= path);
        let lower = path.push(index);
        assert forall|u: nat|
            finished(visited@, path, u) <==> (finished(visited@, lower, u) || u == index) by {
            if u < visited@.len() {
                assert(on_path(lower, u) <==> (on_path(path, u) || u == index)) by {
                    if u == index {
                        assert(lower[path.len() as int] == index);
                    }
                    if on_path(path, u) {
                        let j = choose|j: int| 0 <= j < path.len() && #[trigger] path[j] as nat == u;
                        assert(lower[j] == path[j]);
                    }
                    if on_path(lower, u) && u != index {
                        let j = choose|j: int| 0 <= j < lower.len() && #[trigger] lower[j] as nat == u;
                        assert(j < path.len());
                        assert(lower[j] == path[j]);
                    }
                }
            }
        }
        assert forall|u: nat, m: int|
            finished(visited@, path, u) && 0 <= m < g[u as int].len() implies #[trigger] finished(
            visited@,
            path,
            #[trigger] g[u as int][m],
        ) by {
            if u == index {
                assert(g[index as int] == as_nats(dependencies@));
                assert(finished(visited@, lower, dependencies@[m] as nat));
            } else {
                assert(finished(visited@, lower, g[u as int][m]));
            }
        }
        assert forall|walk: Seq<nat>| #[trigger] is_cycle(g, walk) implies !finished(
            visited@,
            path,
            walk[0],
        ) by {
            if walk[0] == index as nat {
                assert(graph_edge(g, walk[0], walk[1]));
                let m = choose|m: int|
                    0 <= m < g[index as int].len() && g[index as int][m] == walk[1];
                assert(g[index as int] == as_nats(dependencies@));
                assert(finished(visited@, lower, dependencies@[m] as nat));
                let rest = walk.subrange(1, walk.len() as int);
                assert forall|j: int| #![trigger rest[j]] 0 <= j < rest.len() - 1 implies graph_edge(
                    g,
                    rest[j],
                    rest[j + 1],
                ) by {
                    assert(rest[j] == walk[j + 1]);
                    assert(rest[j + 1] == walk[j + 2]);
                }
                lemma_walk_stays_finished(g, visited@, lower, rest, rest.len() - 1);
                assert(rest[rest.len() - 1] == walk.last());
                assert(lower[path.len() as int] == index);
            }
        }
        assert forall|j: int| 0 <= j < path.len() implies #[trigger] path[j] < g.len()
            && visited@[path[j] as int] by {
            assert(lower[j] == path[j]);
        }
        assert(is_walk(g, as_nats(path)));
    }
    Ok(())
}


pub proof fn lemma_cycle_in_range(graph: Seq<Seq<nat>>, walk: Seq<nat>)
    requires
        is_cycle(graph, walk),
    ensures
        forall|j: int| 0 <= j < walk.len() ==> #[trigger] walk[j] < graph.len(),
{
    assert forall|j: int| 0 <= j < walk.len() implies #[trigger] walk[j] < graph.len() by {
        if j < walk.len() - 1 {
            assert(graph_edge(graph, walk[j], walk[j + 1]));
        } else {
            assert(graph_edge(graph, walk[0], walk[1]));
        }
    }
}

fn cycle_diagnostic(customs: &[CustomModel], cycle: &Vec<usize>) -> (error: Diagnostic)
    requires
        forall|j: int| 0 <= j < cycle@.len() ==> #[trigger] cycle@[j] < customs@.len(),
    ensures
        error.message@ == cycle_message(customs@, as_nats(cycle@)),
{
    let ghost names = as_nats(cycle@).map_values(|index: nat| customs@[index as int].ident@);
    let mut message = String::new();
    message.append("recursive custom values are not supported: ");
    let ghost prefix = message@;
    let mut j: usize = 0;
    while j < cycle.len()
        invariant
            j <= cycle.len(),
            names == as_nats(cycle@).map_values(|index: nat| customs@[index as int].ident@),
            forall|m: int| 0 <= m < cycle@.len() ==> #[trigger] cycle@[m] < customs@.len(),
            message@ == prefix + joined(names.take(j as int), " -> "@),
        decreases cycle.len() - j,
    {
        proof {
            assert(names.take(j + 1).drop_last() =~= names.take(j as int));
            assert(names[j as int] == customs@[cycle@[j as int] as int].ident@);
        }
        if j > 0 {
            message.append(" -> ");
        }
        message.append(customs[cycle[j]].ident.as_str());
        proof {
            if j == 0 {
                assert(names.take(1)[0] == names[0]);
            }
        }
        j = j + 1;
    }
    assert(names.take(cycle.len() as int) =~= names);
    Diagnostic { message }
}

/// Rejects custom declarations that refer to themselves through their
/// fields, directly or through other custom declarations. The search starts
/// from each declaration in order and follows fields in order; the reported
/// cycle starts and ends at the first declaration found to lead back onto
/// the current search path.
pub fn validate_custom_cycles(customs: &[CustomModel]) -> (result: Result<(), Diagnostic>)
    requires
        graph_well_formed(dependency_graph(customs@)),
    ensures
        result is Ok <==> !has_cycle(dependency_graph(customs@)),
        match first_cycle(dependency_graph(customs@)) {
            Ok(_) => result is Ok,
            Err(cycle) => result matches Err(error) && is_cycle(dependency_graph(customs@), cycle)
                && error.message@ == cycle_message(customs@, cycle),
        },
{
    let ghost g = dependency_graph(customs@);
    let mut graph: Vec<Vec<usize>> = Vec::new();
    let mut i: usize = 0;
    while i < customs.len()
        invariant
            i <= customs.len(),
            graph@.len() == i,
            forall|m: int| 0 <= m < i ==> #[trigger] as_nats(graph@[m]@) == g[m],
            g == dependency_graph(customs@),
        decreases customs.len() - i,
    {
        let dependencies = custom_dependencies(&customs[i]);
        graph.push(dependencies);
        i = i + 1;
    }
    assert(graph_model(graph@) =~= g);
    let mut visited: Vec<bool> = Vec::new();
    while visited.len() < customs.len()
        invariant
            visited@.len() <= customs.len(),
            forall|m: int| 0 <= m < visited@.len() ==> !#[trigger] visited@[m],
        decreases customs.len() - visited.len(),
    {
        visited.push(false);
    }
    proof {
        let empty = Seq::<usize>::empty();
        assert forall|u: nat| !finished(visited@, empty, u) by {}
        assert(is_walk(g, as_nats(empty)));
        assert(visited@ =~= Seq::new(g.len(), |i: int| false));
    }
    let mut index: usize = 0;
    while index < customs.len()
        invariant
            index <= customs.len(),
            g == dependency_graph(customs@),
            graph_model(graph@) == g,
            graph@.len() == customs@.len(),
            search_state(g, visited@, Seq::<usize>::empty()),
            forall|m: int| 0 <= m < index ==> #[trigger] visited@[m],
            first_cycle(g) == search_all(g, index as nat, visited@),
        decreases customs.len() - index,
    {
        let mut visiting: Vec<usize> = Vec::new();
        let ghost before = visited@;
        proof {
            assert(as_nats(visiting@) =~= Seq::<nat>::empty());
        }
        match visit(index, &graph, &mut visiting, &mut visited) {
            Ok(()) => {
                proof {
                    assert forall|m: int| 0 <= m < index + 1 implies #[trigger] visited@[m] by {
                        if m < index {
                            assert(before[m]);
                        }
                    }
                }
            },
            Err(cycle) => {
                proof {
                    lemma_cycle_in_range(g, as_nats(cycle@));
                    assert forall|j: int| 0 <= j < cycle@.len() implies #[trigger] cycle@[j]
                        < customs@.len() by {
                        assert(as_nats(cycle@)[j] == cycle@[j] as nat);
                    }
                }
                let error = cycle_diagnostic(customs, &cycle);
                proof {
                    assert(is_cycle(g, as_nats(cycle@)));
                }
                return Err(error);
            },
        }
        index = index + 1;
    }
    proof {
        assert forall|walk: Seq<nat>| !#[trigger] is_cycle(g, walk) by {
            if is_cycle(g, walk) {
                lemma_cycle_in_range(g, walk);
                assert(visited@[walk[0] as int]);
                assert(finished(visited@, Seq::<usize>::empty(), walk[0]));
            }
        }
    }
    Ok(())
}

} // verus!
