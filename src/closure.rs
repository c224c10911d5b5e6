//! Transitive closure of a "member of" hierarchy over nodes `0..n`.
//!
//! A hierarchy is given as each node's list of parents. The closure gives each
//! node its set of descendants: every node from which it is reachable by one or
//! more parent links. The parent lists are inverted into children lists once;
//! each node's descendants are then found by a worklist walk over them, in
//! time linear in the nodes and links.
use vstd::prelude::*;
use vstd::set_lib::{lemma_int_range, lemma_len_subset, set_int_range};

verus! {

/// A hierarchy relation: `e(a, b)` holds when node `b` lists node `a` among
/// its parents, that is, when `b` is a child of `a`.
pub type Rel = spec_fn(int, int) -> bool;

/// `b` is a child of `a`.
pub open spec fn edge(g: Rel, a: int, b: int) -> bool {
    g(a, b)
}

/// The `k`th link of `p` is an edge of `g`.
pub open spec fn link(g: Rel, p: Seq<int>, k: int) -> bool {
    edge(g, p[k], p[k + 1])
}

/// `p` is a downward chain of at least one edge.
pub open spec fn is_chain(g: Rel, p: Seq<int>) -> bool {
    &&& p.len() >= 2
    &&& forall|k: int| 0 <= k < p.len() - 1 ==> #[trigger] link(g, p, k)
}

/// `b` is a descendant of `a`: some chain of one or more edges leads from `a` to `b`.
pub open spec fn descends(g: Rel, a: int, b: int) -> bool {
    exists|p: Seq<int>| #[trigger] is_chain(g, p) && p[0] == a && p.last() == b
}

/// The hierarchy over nodes `0..parents.len()` in which node `b` lists the
/// parents `parents[b]`, by index.
pub open spec fn parents_rel(parents: Seq<Vec<usize>>) -> Rel {
    |a: int, b: int| 0 <= a < parents.len() && 0 <= b < parents.len() && parents[b]@.contains(a as usize)
}

/// `a` is a descendant of itself: the hierarchy has a cycle through `a`.
pub open spec fn on_cycle(g: Rel, a: int) -> bool {
    descends(g, a, a)
}

/// A single edge is a descendant link.
pub proof fn lemma_edge_descends(g: Rel, a: int, b: int)
    requires
        edge(g, a, b),
    ensures
        descends(g, a, b),
{
    let p = seq![a, b];
    assert(link(g, p, 0));
    assert(is_chain(g, p));
}

/// A descendant of `a` extended by one more edge is a descendant of `a`.
pub proof fn lemma_descends_step(g: Rel, a: int, b: int, c: int)
    requires
        descends(g, a, b),
        edge(g, b, c),
    ensures
        descends(g, a, c),
{
    let p = choose|p: Seq<int>| #[trigger] is_chain(g, p) && p[0] == a && p.last() == b;
    let q = p.push(c);
    assert forall|k: int| 0 <= k < q.len() - 1 implies #[trigger] link(g, q, k) by {
        if k < p.len() - 1 {
            assert(link(g, p, k));
        }
    }
    assert(is_chain(g, q));
}

proof fn lemma_chain_in_closed_set(g: Rel, s: Set<int>, p: Seq<int>, k: int)
    requires
        is_chain(g, p),
        1 <= k < p.len(),
        forall|z: int| edge(g, p[0], z) ==> s.contains(z),
        forall|x: int, z: int| s.contains(x) && #[trigger] edge(g, x, z) ==> s.contains(z),
    ensures
        s.contains(p[k]),
    decreases k,
{
    assert(link(g, p, k - 1));
    if k > 1 {
        lemma_chain_in_closed_set(g, s, p, k - 1);
    }
}

/// A set that holds the children of `a` and is closed under edges holds every
/// descendant of `a`.
pub proof fn lemma_closed_set_holds_descendants(g: Rel, s: Set<int>, a: int, b: int)
    requires
        forall|z: int| edge(g, a, z) ==> s.contains(z),
        forall|x: int, z: int| s.contains(x) && #[trigger] edge(g, x, z) ==> s.contains(z),
        descends(g, a, b),
    ensures
        s.contains(b),
{
    let p = choose|p: Seq<int>| #[trigger] is_chain(g, p) && p[0] == a && p.last() == b;
    lemma_chain_in_closed_set(g, s, p, p.len() - 1);
}

/// "Member of" is transitive: a descendant of a descendant of `a` is a
/// descendant of `a`.
pub proof fn lemma_descends_transitive(g: Rel, a: int, b: int, c: int)
    requires
        descends(g, a, b),
        descends(g, b, c),
    ensures
        descends(g, a, c),
{
    let s = Set::new(|z: int| descends(g, a, z) || descends(g, b, z));
    assert forall|z: int| edge(g, b, z) implies s.contains(z) by {
        lemma_edge_descends(g, b, z);
    }
    assert forall|x: int, z: int| s.contains(x) && #[trigger] edge(g, x, z) implies s.contains(
        z,
    ) by {
        if descends(g, a, x) {
            lemma_descends_step(g, a, x, z);
        } else {
            lemma_descends_step(g, b, x, z);
        }
    }
    lemma_closed_set_holds_descendants(g, s, b, c);
    if !descends(g, a, c) {
        // every descendant of `b` reached so far is one of `a` as well
        let t = Set::new(|z: int| descends(g, a, z));
        assert forall|z: int| edge(g, b, z) implies t.contains(z) by {
            lemma_descends_step(g, a, b, z);
        }
        assert forall|x: int, z: int| t.contains(x) && #[trigger] edge(g, x, z) implies t.contains(
            z,
        ) by {
            lemma_descends_step(g, a, x, z);
        }
        lemma_closed_set_holds_descendants(g, t, b, c);
    }
}

/// Closing an already closed hierarchy changes nothing: where the edges of `h`
/// are exactly the descendant links of `g`, the descendant links of `h` are
/// those of `g` again.
pub proof fn lemma_closure_is_fixed_point(g: Rel, h: Rel)
    requires
        forall|a: int, b: int| edge(h, a, b) <==> descends(g, a, b),
    ensures
        forall|a: int, b: int| descends(h, a, b) <==> descends(g, a, b),
{
    assert forall|a: int, b: int| descends(h, a, b) <==> descends(g, a, b) by {
        if descends(h, a, b) {
            let s = Set::new(|z: int| descends(g, a, z));
            assert forall|x: int, z: int| s.contains(x) && #[trigger] edge(h, x, z) implies s.contains(
                z,
            ) by {
                lemma_descends_transitive(g, a, x, z);
            }
            lemma_closed_set_holds_descendants(h, s, a, b);
        }
        if descends(g, a, b) {
            assert(edge(h, a, b));
            lemma_edge_descends(h, a, b);
        }
    }
}

fn contains_index(v: &Vec<usize>, x: usize) -> (r: bool)
    ensures
        r == v@.contains(x),
{
    let mut i: usize = 0;
    while i < v.len()
        invariant
            0 <= i <= v.len(),
            forall|k: int| 0 <= k < i ==> v@[k] != x,
        decreases v.len() - i,
    {
        if v[i] == x {
            return true;
        }
        i = i + 1;
    }
    false
}

/// Every index in the lists names one of the lists' nodes.
pub open spec fn indices_in_range(lists: Seq<Vec<usize>>) -> bool {
    forall|i: int, k: int|
        0 <= i < lists.len() && 0 <= k < lists[i]@.len() ==> (#[trigger] lists[i]@[k] as int)
            < lists.len()
}

/// `children` lists, for each node of `g` over `n` nodes, exactly its children.
pub open spec fn lists_children(children: Seq<Vec<usize>>, g: Rel, n: int) -> bool {
    &&& children.len() == n
    &&& indices_in_range(children)
    &&& forall|a: int, b: int|
        #![trigger children[a]@.contains(b as usize)]
        #![trigger edge(g, a, b)]
        0 <= a < n && 0 <= b < n ==> (children[a]@.contains(b as usize) <==> edge(g, a, b))
}

/// The children of each node: node `b` is listed under each of its parents.
pub fn children_lists(parents: &Vec<Vec<usize>>) -> (r: Vec<Vec<usize>>)
    requires
        indices_in_range(parents@),
    ensures
        lists_children(r@, parents_rel(parents@), parents.len() as int),
{
    let ghost g = parents_rel(parents@);
    let n = parents.len();
    let mut r: Vec<Vec<usize>> = Vec::new();
    let mut i: usize = 0;
    while i < n
        invariant
            i <= n,
            r.len() == i,
            forall|x: int| 0 <= x < i ==> r@[x]@.len() == 0,
        decreases n - i,
    {
        r.push(Vec::new());
        i = i + 1;
    }
    let mut b: usize = 0;
    while b < n
        invariant
            n == parents.len(),
            indices_in_range(parents@),
            g == parents_rel(parents@),
            r.len() == n,
            b <= n,
            indices_in_range(r@),
            forall|a: int, c: int|
                #![trigger r@[a]@.contains(c as usize)]
                0 <= a < n && 0 <= c < n ==> (r@[a]@.contains(c as usize) <==> (c < b
                    && parents@[c]@.contains(a as usize))),
        decreases n - b,
    {
        let mut k: usize = 0;
        while k < parents[b].len()
            invariant
                n == parents.len(),
                indices_in_range(parents@),
                r.len() == n,
                b < n,
                k <= parents@[b as int]@.len(),
                indices_in_range(r@),
                forall|a: int, c: int|
                    #![trigger r@[a]@.contains(c as usize)]
                    0 <= a < n && 0 <= c < n ==> (r@[a]@.contains(c as usize) <==> ((c < b
                        && parents@[c]@.contains(a as usize)) || (c == b && parents@[b as int]@.subrange(
                        0,
                        k as int,
                    ).contains(a as usize)))),
            decreases parents@[b as int]@.len() - k,
        {
            let p = parents[b][k];
            proof {
                assert((parents@[b as int]@[k as int] as int) < n);
            }
            let ghost before = r@;
            r[p].push(b);
            proof {
                let pre = parents@[b as int]@.subrange(0, k as int);
                let post = parents@[b as int]@.subrange(0, k as int + 1);
                assert(post =~= pre.push(p));
                assert forall|x: int, kk: int|
                    0 <= x < r@.len() && 0 <= kk < r@[x]@.len() implies (#[trigger] r@[x]@[kk] as int) < r@.len() by {
                    if x == p as int && kk == before[x]@.len() {
                    } else {
                        assert(r@[x]@[kk] == before[x]@[kk]);
                    }
                }
                assert forall|a: int, c: int|
                    #![trigger r@[a]@.contains(c as usize)]
                    0 <= a < n && 0 <= c < n implies (r@[a]@.contains(c as usize) <==> ((c < b
                        && parents@[c]@.contains(a as usize)) || (c == b && post.contains(a as usize)))) by {
                    if a == p as int {
                        assert(r@[a]@ == before[a]@.push(b));
                        if r@[a]@.contains(c as usize) && c != b as int {
                            let y = choose|y: int| 0 <= y < r@[a]@.len() && r@[a]@[y] == c as usize;
                            assert(before[a]@[y] == c as usize);
                        }
                        if before[a]@.contains(c as usize) {
                            let y = choose|y: int| 0 <= y < before[a]@.len() && before[a]@[y] == c as usize;
                            assert(r@[a]@[y] == c as usize);
                        }
                        if c == b as int {
                            assert(r@[a]@[before[a]@.len() as int] == c as usize);
                            assert(post[k as int] == a as usize);
                        }
                    } else {
                        assert(r@[a] == before[a]);
                    }
                    if c == b as int && post.contains(a as usize) && !pre.contains(a as usize) {
                        let y = choose|y: int| 0 <= y < post.len() && post[y] == a as usize;
                        assert(y == k as int);
                    }
                    if pre.contains(a as usize) {
                        let y = choose|y: int| 0 <= y < pre.len() && pre[y] == a as usize;
                        assert(post[y] == a as usize);
                    }
                }
            }
            k = k + 1;
        }
        proof {
            assert(parents@[b as int]@.subrange(0, parents@[b as int]@.len() as int) =~= parents@[b as int]@);
        }
        b = b + 1;
    }
    proof {
        assert forall|a: int, c: int|
            #![trigger r@[a]@.contains(c as usize)]
            #![trigger edge(g, a, c)]
            0 <= a < n && 0 <= c < n implies (r@[a]@.contains(c as usize) <==> edge(g, a, c)) by {}
    }
    r
}

/// The descendants of node `a`, each listed once, found from the children
/// lists of the hierarchy.
pub fn descendants_of(parents: &Vec<Vec<usize>>, children: &Vec<Vec<usize>>, a: usize) -> (r: Vec<usize>)
    requires
        a < parents.len(),
        lists_children(children@, parents_rel(parents@), parents.len() as int),
    ensures
        r@.no_duplicates(),
        forall|k: int| 0 <= k < r.len() ==> (r@[k] as int) < parents.len(),
        forall|j: int|
            0 <= j < parents.len() ==> (r@.contains(j as usize) <==> descends(
                parents_rel(parents@),
                a as int,
                j,
            )),
{
    let ghost g = parents_rel(parents@);
    let n = parents.len();
    let mut visited: Vec<bool> = Vec::new();
    let mut done: Vec<bool> = Vec::new();
    let mut j: usize = 0;
    while j < n
        invariant
            j <= n,
            n == parents.len(),
            visited.len() == j,
            done.len() == j,
            forall|k: int| 0 <= k < j ==> !visited@[k] && !done@[k],
        decreases n - j,
    {
        visited.push(false);
        done.push(false);
        j = j + 1;
    }
    let mut stack: Vec<usize> = Vec::new();
    // mark the children of `a`
    let mut k: usize = 0;
    while k < children[a].len()
        invariant
            g == parents_rel(parents@),
            lists_children(children@, g, n as int),
            n == parents.len(),
            a < n,
            visited.len() == n,
            done.len() == n,
            k <= children@[a as int]@.len(),
            forall|x: int| 0 <= x < n ==> !done@[x],
            forall|x: int| 0 <= x < n && visited@[x] ==> descends(g, a as int, x),
            forall|x: int| 0 <= x < k ==> visited@[children@[a as int]@[x] as int],
            forall|x: int| 0 <= x < n && visited@[x] ==> stack@.contains(x as usize),
            forall|x: int| 0 <= x < stack.len() ==> (stack@[x] as int) < n && visited@[stack@[x] as int],
        decreases children@[a as int]@.len() - k,
    {
        let c = children[a][k];
        proof {
            assert((children@[a as int]@[k as int] as int) < n);
            assert(children@[a as int]@.contains(c));
            assert(edge(g, a as int, c as int));
        }
        if !visited[c] {
            proof {
                lemma_edge_descends(g, a as int, c as int);
            }
            let ghost before = stack@;
            visited.set(c, true);
            stack.push(c);
            proof {
                assert forall|x: int| 0 <= x < n && visited@[x] implies stack@.contains(x as usize) by {
                    if x == c as int {
                        assert(stack@[before.len() as int] == c);
                    } else {
                        let y = choose|y: int| 0 <= y < before.len() && before[y] == x as usize;
                        assert(stack@[y] == x as usize);
                    }
                }
            }
        }
        k = k + 1;
    }
    proof {
        assert forall|z: int| #[trigger] edge(g, a as int, z) implies visited@[z] by {
            assert(0 <= z < n);
            assert(children@[a as int]@.contains(z as usize));
            let x = choose|x: int| 0 <= x < children@[a as int]@.len() && children@[a as int]@[x] == z as usize;
        }
    }
    // expand marked nodes until every marked node has all its children marked
    let ghost mut expanded: Set<int> = Set::empty();
    while stack.len() > 0
        invariant
            g == parents_rel(parents@),
            lists_children(children@, g, n as int),
            n == parents.len(),
            visited.len() == n,
            done.len() == n,
            forall|x: int| 0 <= x < n && visited@[x] ==> descends(g, a as int, x),
            forall|z: int| #[trigger] edge(g, a as int, z) ==> visited@[z],
            forall|x: int| 0 <= x < n && done@[x] ==> visited@[x],
            forall|x: int|
                0 <= x < n && done@[x] ==> forall|z: int| #[trigger] edge(g, x, z) ==> visited@[z],
            forall|x: int| 0 <= x < n && visited@[x] && !done@[x] ==> stack@.contains(x as usize),
            forall|x: int| 0 <= x < stack.len() ==> (stack@[x] as int) < n && visited@[stack@[x] as int],
            expanded.finite(),
            forall|x: int| #[trigger] expanded.contains(x) <==> (0 <= x < n && done@[x]),
        decreases n - expanded.len(), stack.len(),
    {
        proof {
            lemma_int_range(0, n as int);
            lemma_len_subset(expanded, set_int_range(0, n as int));
        }
        let ghost popped_from = stack@;
        let y = stack.pop().unwrap();
        proof {
            assert(stack@ =~= popped_from.drop_last());
            assert forall|x: int|
                0 <= x < n && visited@[x] && !done@[x] && x != y as int implies stack@.contains(x as usize) by {
                let i = choose|i: int| 0 <= i < popped_from.len() && popped_from[i] == x as usize;
                assert(i != popped_from.len() - 1);
                assert(stack@[i] == x as usize);
            }
        }
        if !done[y] {
            let mut k: usize = 0;
            while k < children[y].len()
                invariant
                    g == parents_rel(parents@),
                    lists_children(children@, g, n as int),
                    n == parents.len(),
                    visited.len() == n,
                    done.len() == n,
                    (y as int) < n,
                    visited@[y as int],
                    !done@[y as int],
                    k <= children@[y as int]@.len(),
                    forall|x: int| 0 <= x < n && visited@[x] ==> descends(g, a as int, x),
                    forall|z: int| #[trigger] edge(g, a as int, z) ==> visited@[z],
                    forall|x: int| 0 <= x < n && done@[x] ==> visited@[x],
                    forall|x: int|
                        0 <= x < n && done@[x] ==> forall|z: int| #[trigger] edge(g, x, z) ==> visited@[z],
                    forall|x: int| 0 <= x < k ==> visited@[children@[y as int]@[x] as int],
                    forall|x: int|
                        0 <= x < n && visited@[x] && !done@[x] && x != y as int ==> stack@.contains(x as usize),
                    forall|x: int|
                        0 <= x < stack.len() ==> (stack@[x] as int) < n && visited@[stack@[x] as int],
                decreases children@[y as int]@.len() - k,
            {
                let c = children[y][k];
                proof {
                    assert((children@[y as int]@[k as int] as int) < n);
                    assert(children@[y as int]@.contains(c));
                    assert(edge(g, y as int, c as int));
                }
                if !visited[c] {
                    proof {
                        lemma_descends_step(g, a as int, y as int, c as int);
                    }
                    let ghost before = stack@;
                    visited.set(c, true);
                    stack.push(c);
                    proof {
                        assert forall|x: int|
                            0 <= x < n && visited@[x] && !done@[x] && x != y as int implies stack@.contains(
                            x as usize,
                        ) by {
                            if x == c as int {
                                assert(stack@[before.len() as int] == c);
                            } else {
                                let i = choose|i: int| 0 <= i < before.len() && before[i] == x as usize;
                                assert(stack@[i] == x as usize);
                            }
                        }
                    }
                }
                k = k + 1;
            }
            done.set(y, true);
            proof {
                let before_len = expanded.len();
                assert(!expanded.contains(y as int));
                expanded = expanded.insert(y as int);
                assert(expanded.len() == before_len + 1);
                lemma_int_range(0, n as int);
                lemma_len_subset(expanded, set_int_range(0, n as int));
                assert forall|z: int| #[trigger] edge(g, y as int, z) implies visited@[z] by {
                    assert(0 <= z < n);
                    assert(children@[y as int]@.contains(z as usize));
                    let x = choose|x: int|
                        0 <= x < children@[y as int]@.len() && children@[y as int]@[x] == z as usize;
                }
            }
        }
    }
    let mut r: Vec<usize> = Vec::new();
    let mut j: usize = 0;
    while j < n
        invariant
            n == parents.len() == visited.len(),
            j <= n,
            r@.no_duplicates(),
            forall|k: int| 0 <= k < r.len() ==> (r@[k] as int) < j,
            forall|k: int| 0 <= k < j ==> (r@.contains(k as usize) <==> visited@[k]),
        decreases n - j,
    {
        let ghost r_old = r@;
        if visited[j] {
            proof {
                assert(!r@.contains(j));
            }
            r.push(j);
            proof {
                assert(r@[r.len() - 1] == j);
            }
        }
        proof {
            assert forall|k: int| 0 <= k < j + 1 implies (r@.contains(k as usize) <==> visited@[k]) by {
                if k < j && r@.contains(k as usize) {
                    let i = choose|i: int| 0 <= i < r.len() && r@[i] == k as usize;
                    if i < r_old.len() {
                        assert(r_old[i] == k as usize);
                    }
                }
                if k < j && r_old.contains(k as usize) {
                    let i = choose|i: int| 0 <= i < r_old.len() && r_old[i] == k as usize;
                    assert(r@[i] == k as usize);
                }
            }
        }
        j = j + 1;
    }
    proof {
        let s = Set::new(|z: int| 0 <= z < n && visited@[z]);
        assert forall|j: int| 0 <= j < n && descends(g, a as int, j) implies r@.contains(
            j as usize,
        ) by {
            lemma_closed_set_holds_descendants(g, s, a as int, j);
        }
    }
    r
}

/// `closure` lists, for each node of `parents`, exactly its descendants, each once.
pub open spec fn is_closure_of(closure: Seq<Vec<usize>>, parents: Seq<Vec<usize>>) -> bool {
    &&& closure.len() == parents.len()
    &&& forall|i: int| 0 <= i < closure.len() ==> (#[trigger] closure[i])@.no_duplicates()
    &&& forall|i: int, k: int|
        0 <= i < closure.len() && 0 <= k < closure[i]@.len() ==> (#[trigger] closure[i]@[k] as int)
            < parents.len()
    &&& forall|i: int, j: int|
        #![trigger closure[i]@.contains(j as usize)]
        #![trigger descends(parents_rel(parents), i, j)]
        0 <= i < closure.len() && 0 <= j < closure.len() ==> (closure[i]@.contains(j as usize)
            <==> descends(parents_rel(parents), i, j))
}

/// The descendants of every node, by index.
pub fn transitive_closure(parents: &Vec<Vec<usize>>) -> (r: Vec<Vec<usize>>)
    requires
        indices_in_range(parents@),
    ensures
        is_closure_of(r@, parents@),
{
    let children = children_lists(parents);
    let mut r: Vec<Vec<usize>> = Vec::new();
    let mut i: usize = 0;
    while i < parents.len()
        invariant
            i <= parents.len(),
            lists_children(children@, parents_rel(parents@), parents.len() as int),
            r.len() == i,
            forall|x: int| 0 <= x < i ==> (#[trigger] r@[x])@.no_duplicates(),
            forall|x: int, k: int|
                0 <= x < i && 0 <= k < r@[x]@.len() ==> (#[trigger] r@[x]@[k] as int) < parents.len(),
            forall|x: int, j: int|
                #![trigger r@[x]@.contains(j as usize)]
                #![trigger descends(parents_rel(parents@), x, j)]
                0 <= x < i && 0 <= j < parents.len() ==> (r@[x]@.contains(j as usize)
                    <==> descends(parents_rel(parents@), x, j)),
        decreases parents.len() - i,
    {
        let d = descendants_of(parents, &children, i);
        r.push(d);
        i = i + 1;
    }
    r
}

/// Whether some node of `parents` is its own descendant, read off its closure.
pub fn closure_has_cycle(parents: &Vec<Vec<usize>>, closure: &Vec<Vec<usize>>) -> (r: bool)
    requires
        is_closure_of(closure@, parents@),
    ensures
        r == exists|i: int| 0 <= i < parents.len() && #[trigger] on_cycle(parents_rel(parents@), i),
{
    let mut i: usize = 0;
    while i < closure.len()
        invariant
            is_closure_of(closure@, parents@),
            i <= closure.len(),
            forall|x: int| 0 <= x < i ==> !#[trigger] on_cycle(parents_rel(parents@), x),
        decreases closure.len() - i,
    {
        if contains_index(&closure[i], i) {
            assert(on_cycle(parents_rel(parents@), i as int));
            return true;
        }
        i = i + 1;
    }
    false
}

} // verus!
