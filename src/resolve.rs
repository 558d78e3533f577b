use vstd::prelude::*;
use vstd::set_lib::*;

verus! {

/// One type of a generation run: its identity, the identities of the types
/// its declarations mention, and the text it contributes to the C header
/// and to the wrapper module.
pub struct TypeDescription {
    /// The index of this description in its arena.
    pub typeid: usize,
    /// The name of the type, unique in its arena.
    pub typename: String,
    pub dependencies: Vec<usize>,
    pub typedeclaration: String,
    pub metatype: String,
}

/// No type could be placed, yet some remained: their dependencies form a
/// cycle.
#[derive(Debug, Clone, Copy, PartialEq, Eq, Structural)]
pub struct DependencyCycleError {
    /// How many types were left without a place.
    pub unresolved: usize,
}

/// An arena of descriptions: each sits at its own index, and every
/// dependency is an index of the arena.
pub open spec fn arena_wf(ds: Seq<TypeDescription>) -> bool {
    forall|i: int|
        0 <= i < ds.len() ==> (#[trigger] ds[i]).typeid == i && forall|j: int|
            0 <= j < ds[i].dependencies@.len() ==> (#[trigger] ds[i].dependencies@[j]) < ds.len()
}

/// `d` stands in `order` before position `k`.
pub open spec fn appears_before(order: Seq<usize>, k: int, d: usize) -> bool {
    exists|m: int| 0 <= m < k && order[m] == d
}

/// `order` names every type of the arena exactly once, each after all the
/// types it depends on.
pub open spec fn is_dependency_order(ds: Seq<TypeDescription>, order: Seq<usize>) -> bool {
    &&& order.len() == ds.len()
    &&& order.no_duplicates()
    &&& forall|k: int| 0 <= k < order.len() ==> order[k] < ds.len()
    &&& forall|t: usize| t < ds.len() ==> #[trigger] order.contains(t)
    &&& forall|k: int, j: int|
        0 <= k < order.len() && 0 <= j < ds[order[k] as int].dependencies@.len()
            ==> #[trigger] appears_before(order, k, ds[order[k] as int].dependencies@[j])
}

/// Type `t` is not placed yet, and every type it depends on is.
pub open spec fn eligible(ds: Seq<TypeDescription>, placed: Seq<bool>, t: int) -> bool {
    !placed[t] && forall|j: int|
        0 <= j < ds[t].dependencies@.len() ==> placed[#[trigger] ds[t].dependencies@[j] as int]
}

/// Where no type is eligible, every type that an order puts first among
/// the remaining ones would be: so each type of a dependency order is
/// already placed.
proof fn lemma_order_prefix_placed(
    ds: Seq<TypeDescription>,
    placed: Seq<bool>,
    order: Seq<usize>,
    k: int,
)
    requires
        arena_wf(ds),
        placed.len() == ds.len(),
        forall|t: int| 0 <= t < ds.len() ==> !#[trigger] eligible(ds, placed, t),
        is_dependency_order(ds, order),
        0 <= k < order.len(),
    ensures
        forall|m: int| 0 <= m <= k ==> placed[#[trigger] order[m] as int],
    decreases k,
{
    if k > 0 {
        lemma_order_prefix_placed(ds, placed, order, k - 1);
    }
    let t = order[k] as int;
    assert forall|j: int| 0 <= j < ds[t].dependencies@.len() implies placed[
        #[trigger] ds[t].dependencies@[j] as int
    ] by {
        assert(appears_before(order, k, ds[order[k] as int].dependencies@[j]));
        let m = choose|m: int| 0 <= m < k && order[m] == ds[order[k] as int].dependencies@[j];
        assert(placed[order[m] as int]);
    }
    assert(!eligible(ds, placed, t));
}

/// Where no type is eligible and some type is not placed, the arena has no
/// dependency order.
proof fn lemma_stuck_has_no_order(ds: Seq<TypeDescription>, placed: Seq<bool>, u: usize)
    requires
        arena_wf(ds),
        placed.len() == ds.len(),
        forall|t: int| 0 <= t < ds.len() ==> !#[trigger] eligible(ds, placed, t),
        0 <= u < ds.len(),
        !placed[u as int],
    ensures
        !exists|order: Seq<usize>| is_dependency_order(ds, order),
{
    if exists|order: Seq<usize>| is_dependency_order(ds, order) {
        let order = choose|order: Seq<usize>| is_dependency_order(ds, order);
        assert(order.contains(u));
        let m = choose|m: int| 0 <= m < order.len() && order[m] == u;
        lemma_order_prefix_placed(ds, placed, order, order.len() - 1);
        assert(placed[order[m] as int]);
        assert(false);
    }
}

/// Whether type `t` can be placed next.
fn is_eligible(dependencies: &Vec<TypeDescription>, placed: &Vec<bool>, t: usize) -> (r: bool)
    requires
        arena_wf(dependencies@),
        placed@.len() == dependencies@.len(),
        t < dependencies@.len(),
    ensures
        r == eligible(dependencies@, placed@, t as int),
{
    if placed[t] {
        return false;
    }
    let deps = &dependencies[t].dependencies;
    let mut j: usize = 0;
    while j < deps.len()
        invariant
            arena_wf(dependencies@),
            placed@.len() == dependencies@.len(),
            t < dependencies@.len(),
            *deps == dependencies@[t as int].dependencies,
            j <= deps@.len(),
            forall|i: int| 0 <= i < j ==> placed@[#[trigger] deps@[i] as int],
        decreases deps@.len() - j,
    {
        assert(deps@[j as int] < dependencies@.len());
        if !placed[deps[j]] {
            return false;
        }
        j += 1;
    }
    true
}

/// Orders the types of an arena so that each comes after every type it
/// depends on, by placing, again and again, any type whose dependencies are
/// all placed. Among types that do not depend on one another the order is
/// left open. Fails exactly when no such order exists.
pub fn dependency_sorted_type_descriptions(dependencies: &Vec<TypeDescription>) -> (r: Result<
    Vec<usize>,
    DependencyCycleError,
>)
    requires
        arena_wf(dependencies@),
    ensures
        match r {
            Ok(order) => is_dependency_order(dependencies@, order@),
            Err(_) => !exists|order: Seq<usize>| is_dependency_order(dependencies@, order),
        },
{
    let n = dependencies.len();
    let ghost ds = dependencies@;
    let mut placed: Vec<bool> = Vec::new();
    while placed.len() < n
        invariant
            placed@.len() <= n,
            forall|t: int| 0 <= t < placed@.len() ==> !placed@[t],
        decreases n - placed@.len(),
    {
        placed.push(false);
    }
    let mut order: Vec<usize> = Vec::new();
    let ghost mut pos: Seq<int> = Seq::new(n as nat, |t: int| 0int);
    let ghost mut done: Set<int> = Set::empty();
    proof {
        lemma_int_range(0, n as int);
    }
    while order.len() < n
        invariant
            ds == dependencies@,
            n == ds.len(),
            arena_wf(ds),
            placed@.len() == n,
            pos.len() == n,
            order@.len() <= n,
            order@.no_duplicates(),
            done.finite(),
            done.len() == order@.len(),
            done.subset_of(set_int_range(0, n as int)),
            set_int_range(0, n as int).finite(),
            set_int_range(0, n as int).len() == n,
            forall|t: int| 0 <= t < n ==> (placed@[t] <==> #[trigger] done.contains(t)),
            forall|t: int|
                0 <= t < n && placed@[t] ==> 0 <= #[trigger] pos[t] < order@.len()
                    && order@[pos[t]] == t,
            forall|k: int| 0 <= k < order@.len() ==> #[trigger] order@[k] < n && placed@[order@[k] as int],
            forall|k: int, j: int|
                0 <= k < order@.len() && 0 <= j < ds[order@[k] as int].dependencies@.len()
                    ==> #[trigger] appears_before(order@, k, ds[order@[k] as int].dependencies@[j]),
        decreases n - order@.len(),
    {
        let mut found: Option<usize> = None;
        let mut unplaced: Option<usize> = None;
        let mut t: usize = 0;
        while t < n && found.is_none()
            invariant
                ds == dependencies@,
                n == ds.len(),
                arena_wf(ds),
                placed@.len() == n,
                t <= n,
                found matches Some(f) ==> f < n && eligible(ds, placed@, f as int),
                match unplaced {
                    Some(u) => u < n && !placed@[u as int],
                    None => forall|s: int| 0 <= s < t ==> placed@[s],
                },
                forall|s: int| 0 <= s < t ==> !#[trigger] eligible(ds, placed@, s),
            decreases n - t + (if found is None { 1int } else { 0int }),
        {
            if is_eligible(dependencies, &placed, t) {
                found = Some(t);
            } else {
                if !placed[t] {
                    unplaced = Some(t);
                }
                t += 1;
            }
        }
        match found {
            Some(t) => {
                proof {
                    assert(eligible(ds, placed@, t as int));
                    assert(!done.contains(t as int));
                    lemma_len_subset(done.insert(t as int), set_int_range(0, n as int));
                }
                let ghost old_order = order@;
                let ghost old_placed = placed@;
                placed.set(t, true);
                order.push(t);
                proof {
                    pos = pos.update(t as int, old_order.len() as int);
                    done = done.insert(t as int);
                    assert forall|k: int, j: int|
                        0 <= k < order@.len() && 0 <= j < ds[order@[k] as int].dependencies@.len()
                            implies #[trigger] appears_before(order@, k, ds[order@[k] as int].dependencies@[j]) by {
                        if k < old_order.len() {
                            assert(order@[k] == old_order[k]);
                            assert(ds[old_order[k] as int].dependencies@[j] == ds[order@[k] as int].dependencies@[j]);
                            assert(appears_before(old_order, k, ds[old_order[k] as int].dependencies@[j]));
                            let m = choose|m: int|
                                0 <= m < k && old_order[m] == ds[old_order[k] as int].dependencies@[j];
                            assert(order@[m] == old_order[m]);
                        } else {
                            assert(order@[k] == t);
                            let d = ds[t as int].dependencies@[j];
                            assert(old_placed[d as int]);
                            assert(d != t);
                            assert(0 <= pos[d as int] < k);
                            assert(order@[pos[d as int]] == d);
                        }
                    }
                }
            },
            None => {
                match unplaced {
                    Some(u) => {
                        proof {
                            lemma_stuck_has_no_order(ds, placed@, u);
                        }
                        return Err(DependencyCycleError { unresolved: n - order.len() });
                    },
                    None => {
                        proof {
                            assert forall|s: int| #[trigger] set_int_range(0, n as int).contains(s) implies done.contains(s) by {
                                assert(placed@[s]);
                            }
                            assert(done =~= set_int_range(0, n as int));
                            assert forall|s: usize| s < n implies #[trigger] order@.contains(s) by {
                                assert(placed@[s as int]);
                                assert(order@[pos[s as int]] == s);
                            }
                        }
                        return Ok(order);
                    },
                }
            },
        }
    }
    proof {
        lemma_subset_equality(done, set_int_range(0, n as int));
        assert(order@.len() == n);
        assert forall|s: usize| s < n implies #[trigger] order@.contains(s) by {
            assert(set_int_range(0, n as int).contains(s as int));
            assert(placed@[s as int]);
            assert(order@[pos[s as int]] == s);
        }
    }
    Ok(order)
}

} // verus!
