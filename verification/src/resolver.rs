//! The migration graph resolver: orders a set of migration records into the
//! single dependency chain they form, or reports the structural integrity
//! error that prevents it.

use vstd::multiset::Multiset;
use vstd::prelude::*;

use crate::declaration::Migration;

verus! {

broadcast use vstd::seq_lib::group_to_multiset_ensures, vstd::multiset::group_multiset_axioms;

/// Structural integrity failures in a migration set. Always fatal to the
/// current run; never auto-repaired.
#[derive(Debug)]
pub enum GraphError {
    /// Two records share one id.
    DuplicateId {
        /// The id that occurs twice
        id: String,
    },
    /// No record is marked initial.
    NoRoot,
    /// More than one record is marked initial.
    MultipleRoots {
        /// Id of one initial record
        first: String,
        /// Id of another initial record
        second: String,
    },
    /// A record is marked initial but still names a dependency.
    InitialWithDependency {
        /// Id of the offending record
        id: String,
        /// The dependency it names
        dependency: String,
    },
    /// Two records declare the same dependency: an unmerged fork.
    DivergentHead {
        /// The dependency both records declare
        dependency: String,
        /// Id of one of the two records
        first: String,
        /// Id of the other record
        second: String,
    },
    /// A record names a dependency id that no record in the set carries.
    DanglingDependency {
        /// Id of the offending record
        id: String,
        /// The dependency it names
        dependency: String,
    },
    /// A record still depends on an id that another record replaces.
    ReplacedButReferenced {
        /// Id of the offending record
        id: String,
        /// The replaced id it still depends on
        dependency: String,
    },
    /// A record inside a group that no walk from the root can enter: every
    /// member of the group depends on another member, so the group's
    /// dependencies loop among themselves.
    Cycle {
        /// Id of a record inside the group
        id: String,
    },
}

/// Some record in `s` carries the id `id`.
pub open spec fn has_id(s: Seq<Migration>, id: Seq<char>) -> bool {
    exists|k: int| 0 <= k < s.len() && (#[trigger] s[k]).id@ == id
}

/// The record `m` lists `id` among the ids it replaces.
pub open spec fn migration_replaces(m: Migration, id: Seq<char>) -> bool {
    exists|l: int| 0 <= l < m.replaces@.len() && (#[trigger] m.replaces@[l])@ == id
}

/// Some record in `s` replaces the id `id`.
pub open spec fn is_replaced(s: Seq<Migration>, id: Seq<char>) -> bool {
    exists|k: int| 0 <= k < s.len() && migration_replaces(#[trigger] s[k], id)
}

/// Some entry of `v` reads, as a string, like `x`.
pub open spec fn listed(v: Seq<String>, x: Seq<char>) -> bool {
    exists|t: int| 0 <= t < v.len() && (#[trigger] v[t])@ == x
}

/// A group of records, none initial, each depending on another record of
/// the same group: following dependencies can never leave such a group, so
/// no walk from the root ever enters it.
pub open spec fn looped_group(s: Seq<Migration>, r: Set<int>) -> bool {
    &&& forall|i: int| #[trigger] r.contains(i) ==> 0 <= i < s.len() && !s[i].initial
    &&& forall|i: int| #[trigger] r.contains(i) ==> exists|j: int|
        #[trigger] r.contains(j) && s[j].id@ == s[i].dependency@
}

/// No record of `rem` names the id of a settled chain record: every entry of
/// `settled` but the last already has its unique successor.
#[verifier::opaque]
pub open spec fn none_depend_on_settled(settled: Seq<Migration>, rem: Seq<Migration>) -> bool {
    forall|t: int, u: int|
        0 <= t < rem.len() && 0 <= u < settled.len() - 1 ==> (#[trigger] rem[t]).dependency@ != (
        #[trigger] settled[u]).id@
}

/// No two records in `s` share an id.
pub open spec fn unique_ids(s: Seq<Migration>) -> bool {
    forall|i: int, j: int|
        0 <= i < s.len() && 0 <= j < s.len() && i != j ==> (#[trigger] s[i]).id@ != (
        #[trigger] s[j]).id@
}

/// `o` lists exactly the records of `s`, opening with the unique initial root
/// (whose dependency is empty) and continuing so that every later record's
/// dependency is the id of the record just before it.
pub open spec fn chain_order(s: Seq<Migration>, o: Seq<Migration>) -> bool {
    &&& o.to_multiset() == s.to_multiset()
    &&& o.len() == s.len()
    &&& o.len() > 0
    &&& o[0].initial
    &&& o[0].dependency@ == Seq::<char>::empty()
    &&& forall|i: int| 1 <= i < o.len() ==> !(#[trigger] o[i]).initial
    &&& forall|i: int| 1 <= i < o.len() ==> (#[trigger] o[i]).dependency@ == o[i - 1].id@
}

/// The sets the resolver accepts: the ids are unique and some chain order
/// exists over the records.
pub open spec fn resolvable(s: Seq<Migration>) -> bool {
    unique_ids(s) && exists|o: Seq<Migration>| #[trigger] chain_order(s, o)
}

/// What each `GraphError` reports of the set it was found in.
pub open spec fn graph_error_witness(s: Seq<Migration>, e: GraphError) -> bool {
    match e {
        GraphError::DuplicateId { id } => exists|i: int, j: int|
            0 <= i < s.len() && 0 <= j < s.len() && i != j && (#[trigger] s[i]).id@ == id@ && (
            #[trigger] s[j]).id@ == id@,
        GraphError::NoRoot => forall|i: int| 0 <= i < s.len() ==> !(#[trigger] s[i]).initial,
        GraphError::MultipleRoots { first, second } => exists|i: int, j: int|
            0 <= i < s.len() && 0 <= j < s.len() && i != j && (#[trigger] s[i]).initial && (
            #[trigger] s[j]).initial && s[i].id@ == first@ && s[j].id@ == second@,
        GraphError::InitialWithDependency { id, dependency } => exists|i: int|
            0 <= i < s.len() && (#[trigger] s[i]).initial && s[i].id@ == id@ && s[i].dependency@
                == dependency@ && s[i].dependency@ != Seq::<char>::empty(),
        GraphError::DivergentHead { dependency, first, second } => exists|i: int, j: int|
            0 <= i < s.len() && 0 <= j < s.len() && i != j && (#[trigger] s[i]).dependency@
                == dependency@ && (#[trigger] s[j]).dependency@ == dependency@ && s[i].id@
                == first@ && s[j].id@ == second@,
        GraphError::DanglingDependency { id, dependency } => exists|i: int|
            0 <= i < s.len() && (#[trigger] s[i]).id@ == id@ && s[i].dependency@ == dependency@
                && !s[i].initial && !has_id(s, dependency@) && (!is_replaced(s, dependency@)
                || is_replaced(s, id@)),
        GraphError::ReplacedButReferenced { id, dependency } => exists|i: int|
            0 <= i < s.len() && (#[trigger] s[i]).id@ == id@ && s[i].dependency@ == dependency@
                && !s[i].initial && is_replaced(s, dependency@) && !is_replaced(s, id@),
        GraphError::Cycle { id } => exists|r: Set<int>|
            #[trigger] looped_group(s, r) && exists|i: int|
                #[trigger] r.contains(i) && s[i].id@ == id@,
    }
}

/// Whether some entry of `v` reads, as a string, like `x`.
fn contains_str(v: &Vec<String>, x: &String) -> (r: bool)
    ensures
        r == listed(v@, x@),
{
    let mut k: usize = 0;
    while k < v.len()
        invariant
            k <= v@.len(),
            forall|t: int| 0 <= t < k ==> (#[trigger] v@[t])@ != x@,
        decreases v@.len() - k,
    {
        if v[k] == *x {
            return true;
        }
        k += 1;
    }
    false
}

/// Builds the linear apply order over `migrations`: starting from the unique
/// initial root it repeatedly appends the record whose dependency is the id of
/// the current tail, until no record remains. Fails with a `GraphError` on any
/// integrity violation: duplicate id, missing or double root, a root that
/// names a dependency, a fork, a dangling or replaced-but-still-referenced
/// dependency, or a loop.
#[verifier::loop_isolation(false)]
#[verifier::rlimit(60)]
pub fn resolve(migrations: Vec<Migration>) -> (r: Result<Vec<Migration>, GraphError>)
    ensures
        r matches Ok(o) ==> chain_order(migrations@, o@) && unique_ids(migrations@),
        r matches Err(e) ==> graph_error_witness(migrations@, e),
        (r is Ok) <==> resolvable(migrations@),
{
    let ghost input = migrations@;
    let n = migrations.len();

    // Reject duplicate ids.
    let mut i: usize = 0;
    while i < n
        invariant
            i <= n,
            forall|a: int, b: int| 0 <= a < i && a < b < n ==> input[a].id@ != input[b].id@,
        decreases n - i,
    {
        let mut j: usize = i + 1;
        while j < n
            invariant
                i < j <= n,
                forall|b: int| i < b < j ==> input[i as int].id@ != input[b].id@,
            decreases n - j,
        {
            if migrations[i].id == migrations[j].id {
                proof {
                    assert(!unique_ids(input)) by {
                        assert(input[i as int].id@ == input[j as int].id@);
                    }
                }
                return Err(GraphError::DuplicateId { id: migrations[i].id.clone() });
            }
            j += 1;
        }
        i += 1;
    }
    assert(unique_ids(input)) by {
        assert forall|a: int, b: int|
            0 <= a < input.len() && 0 <= b < input.len() && a != b implies (#[trigger] input[a]).id@
            != (#[trigger] input[b]).id@ by {
            if a < b {
            } else {
                assert(input[b].id@ != input[a].id@);
            }
        }
    }

    // Find the unique root.
    let mut root_idx: usize = 0;
    let mut found_root = false;
    let mut k: usize = 0;
    while k < n
        invariant
            k <= n,
            found_root ==> root_idx < k && input[root_idx as int].initial,
            forall|t: int|
                0 <= t < k && t != root_idx ==> !(#[trigger] input[t]).initial,
            !found_root ==> forall|t: int| 0 <= t < k ==> !(#[trigger] input[t]).initial,
        decreases n - k,
    {
        if migrations[k].initial {
            if found_root {
                proof {
                    assert(!resolvable(input)) by {
                        if resolvable(input) {
                            let o = choose|o: Seq<Migration>| #[trigger] chain_order(input, o);
                            assert(input.contains(input[root_idx as int]));
                            assert(o.to_multiset().contains(input[root_idx as int]));
                            assert(o.contains(input[root_idx as int]));
                            let p = choose|p: int|
                                0 <= p < o.len() && #[trigger] o[p] == input[root_idx as int];
                            assert(input.contains(input[k as int]));
                            assert(o.to_multiset().contains(input[k as int]));
                            assert(o.contains(input[k as int]));
                            let q = choose|q: int|
                                0 <= q < o.len() && #[trigger] o[q] == input[k as int];
                            assert(p == 0 && q == 0);
                            assert(input[root_idx as int].id@ != input[k as int].id@);
                        }
                    }
                }
                return Err(
                    GraphError::MultipleRoots {
                        first: migrations[root_idx].id.clone(),
                        second: migrations[k].id.clone(),
                    },
                );
            }
            found_root = true;
            root_idx = k;
        }
        k += 1;
    }
    if !found_root {
        proof {
            assert(!resolvable(input)) by {
                if resolvable(input) {
                    let o = choose|o: Seq<Migration>| #[trigger] chain_order(input, o);
                    lemma_order_member(input, o, 0);
                    let w = choose|w: int| 0 <= w < input.len() && #[trigger] input[w] == o[0];
                    assert(!input[w].initial);
                }
            }
        }
        return Err(GraphError::NoRoot);
    }
    if !(migrations[root_idx].dependency == String::new()) {
        proof {
            assert(!resolvable(input)) by {
                if resolvable(input) {
                    let o = choose|o: Seq<Migration>| #[trigger] chain_order(input, o);
                    lemma_order_member(input, o, 0);
                    let w = choose|w: int| 0 <= w < input.len() && #[trigger] input[w] == o[0];
                    assert(w == root_idx as int);
                    assert(o[0].dependency@ == Seq::<char>::empty());
                }
            }
        }
        return Err(
            GraphError::InitialWithDependency {
                id: migrations[root_idx].id.clone(),
                dependency: migrations[root_idx].dependency.clone(),
            },
        );
    }

    // Snapshots of every id and of every replaced id, for classifying records
    // the walk cannot reach.
    let mut all_ids: Vec<String> = Vec::new();
    let mut c: usize = 0;
    while c < n
        invariant
            c <= n,
            all_ids@.len() == c,
            forall|t: int| 0 <= t < c ==> (#[trigger] all_ids@[t])@ == input[t].id@,
        decreases n - c,
    {
        all_ids.push(migrations[c].id.clone());
        c += 1;
    }
    proof {
        assert forall|x: Seq<char>| has_id(input, x) <==> listed(all_ids@, x) by {
            if has_id(input, x) {
                let w = choose|w: int| 0 <= w < input.len() && (#[trigger] input[w]).id@ == x;
                assert(all_ids@[w]@ == x);
            }
            if listed(all_ids@, x) {
                let w = choose|w: int| 0 <= w < all_ids@.len() && (#[trigger] all_ids@[w])@ == x;
                assert(input[w].id@ == x);
            }
        }
    }

    let mut all_replaced: Vec<String> = Vec::new();
    c = 0;
    while c < n
        invariant
            c <= n,
            forall|t: int|
                0 <= t < all_replaced@.len() ==> is_replaced(input, (#[trigger] all_replaced@[t])@),
            forall|a: int, b: int|
                0 <= a < c && 0 <= b < input[a].replaces@.len() ==> listed(
                    all_replaced@,
                    (#[trigger] input[a].replaces@[b])@,
                ),
        decreases n - c,
    {
        let mut b: usize = 0;
        let row = migrations[c].replaces.len();
        while b < row
            invariant
                b <= row,
                row == input[c as int].replaces@.len(),
                forall|t: int|
                    0 <= t < all_replaced@.len() ==> is_replaced(
                        input,
                        (#[trigger] all_replaced@[t])@,
                    ),
                forall|a: int, bb: int|
                    0 <= a < c && 0 <= bb < input[a].replaces@.len() ==> listed(
                        all_replaced@,
                        (#[trigger] input[a].replaces@[bb])@,
                    ),
                forall|bb: int|
                    0 <= bb < b ==> listed(
                        all_replaced@,
                        (#[trigger] input[c as int].replaces@[bb])@,
                    ),
            decreases row - b,
        {
            let ghost pre = all_replaced@;
            all_replaced.push(migrations[c].replaces[b].clone());
            proof {
                assert forall|x: Seq<char>| listed(pre, x) implies listed(all_replaced@, x) by {
                    let t = choose|t: int| 0 <= t < pre.len() && (#[trigger] pre[t])@ == x;
                    assert(all_replaced@[t]@ == x);
                }
                assert(all_replaced@[pre.len() as int]@ == input[c as int].replaces@[b as int]@);
                assert(listed(all_replaced@, input[c as int].replaces@[b as int]@));
                assert(migration_replaces(input[c as int], input[c as int].replaces@[b as int]@));
                assert(is_replaced(input, input[c as int].replaces@[b as int]@));
            }
            b += 1;
        }
        c += 1;
    }
    proof {
        assert forall|x: Seq<char>| listed(all_replaced@, x) <==> is_replaced(input, x) by {
            if is_replaced(input, x) {
                let w = choose|w: int|
                    0 <= w < input.len() && migration_replaces(#[trigger] input[w], x);
                let l = choose|l: int|
                    0 <= l < input[w].replaces@.len() && (#[trigger] input[w].replaces@[l])@ == x;
                assert(listed(all_replaced@, input[w].replaces@[l]@));
            }
            if listed(all_replaced@, x) {
                let t = choose|t: int|
                    0 <= t < all_replaced@.len() && (#[trigger] all_replaced@[t])@ == x;
                assert(is_replaced(input, all_replaced@[t]@));
            }
        }
    }

    // Walk the chain from the root forward.
    let mut remaining = migrations;
    let root = remaining.remove(root_idx);
    let mut chain: Vec<Migration> = Vec::new();
    chain.push(root);
    proof {
        input.remove_ensures(root_idx as int);
        assert(chain@.to_multiset().add(remaining@.to_multiset()) =~= input.to_multiset()) by {
            assert(chain@ =~= Seq::<Migration>::empty().push(root));
            assert(chain@.to_multiset() =~= Multiset::<Migration>::empty().insert(root));
            assert(remaining@.to_multiset() =~= input.to_multiset().remove(root));
            assert(input.to_multiset().contains(root));
        }
        assert(unique_ids(remaining@));
        assert(forall|t: int|
            0 <= t < remaining@.len() ==> !(#[trigger] remaining@[t]).initial);
        assert(none_depend_on_settled(chain@, remaining@)) by {
            reveal(none_depend_on_settled);
        }
        assert forall|o: Seq<Migration>| #[trigger] chain_order(input, o) implies o.take(
            chain@.len() as int,
        ) == chain@ by {
            lemma_order_member(input, o, 0);
            let w = choose|w: int| 0 <= w < input.len() && #[trigger] input[w] == o[0];
            assert(w == root_idx as int);
            assert(o.take(1) =~= chain@);
        }
    }

    let mut done = false;
    while !done
        invariant
            chain@.len() >= 1,
            chain@.to_multiset().add(remaining@.to_multiset()) == input.to_multiset(),
            chain@[0].initial,
            chain@[0].dependency@ == Seq::<char>::empty(),
            forall|t: int| 1 <= t < chain@.len() ==> !(#[trigger] chain@[t]).initial,
            forall|t: int|
                1 <= t < chain@.len() ==> (#[trigger] chain@[t]).dependency@ == chain@[t
                    - 1].id@,
            forall|t: int| 0 <= t < remaining@.len() ==> !(#[trigger] remaining@[t]).initial,
            unique_ids(remaining@),
            forall|o: Seq<Migration>| #[trigger] chain_order(input, o) ==> o.take(
                chain@.len() as int,
            ) == chain@,
            none_depend_on_settled(chain@, remaining@),
            done ==> forall|t: int|
                0 <= t < remaining@.len() ==> (#[trigger] remaining@[t]).dependency@ != chain@[
                    chain@.len() - 1].id@,
        decreases remaining@.len(), (if done { 0int } else { 1int }),
    {
        let tail_id = chain[chain.len() - 1].id.clone();
        let mut first_match: usize = 0;
        let mut have_match = false;
        let mut j: usize = 0;
        while j < remaining.len()
            invariant
                j <= remaining@.len(),
                have_match ==> first_match < j && remaining@[first_match as int].dependency@
                    == tail_id@,
                forall|t: int|
                    0 <= t < j && t != first_match ==> (#[trigger] remaining@[t]).dependency@
                        != tail_id@,
                !have_match ==> forall|t: int|
                    0 <= t < j ==> (#[trigger] remaining@[t]).dependency@ != tail_id@,
            decreases remaining@.len() - j,
        {
            if remaining[j].dependency == tail_id {
                if have_match {
                    proof {
                        let x1 = remaining@[first_match as int];
                        let x2 = remaining@[j as int];
                        assert(input.to_multiset().contains(x1));
                        assert(input.to_multiset().contains(x2));
                        let w1 = choose|w: int| 0 <= w < input.len() && input[w] == x1;
                        let w2 = choose|w: int| 0 <= w < input.len() && input[w] == x2;
                        assert(x1.id@ != x2.id@);
                        assert(w1 != w2);
                        assert(!resolvable(input)) by {
                            if resolvable(input) {
                                let o = choose|o: Seq<Migration>| #[trigger] chain_order(input, o);
                                lemma_order_no_duplicates(input, o);
                                assert(o.contains(x1));
                                let p = choose|p: int| 0 <= p < o.len() && #[trigger] o[p] == x1;
                                assert(o.contains(x2));
                                let q = choose|q: int| 0 <= q < o.len() && #[trigger] o[q] == x2;
                                assert(p >= 1 && q >= 1);
                                assert(o[p].dependency@ == o[p - 1].id@);
                                assert(o[q].dependency@ == o[q - 1].id@);
                                lemma_order_member(input, o, p - 1);
                                let wp = choose|w: int|
                                    0 <= w < input.len() && #[trigger] input[w] == o[p - 1];
                                lemma_order_member(input, o, q - 1);
                                let wq = choose|w: int|
                                    0 <= w < input.len() && #[trigger] input[w] == o[q - 1];
                                assert(input[wp].id@ == tail_id@ && input[wq].id@ == tail_id@);
                                assert(wp == wq);
                                assert(o[p - 1] == o[q - 1]);
                                assert(p == q);
                            }
                        }
                    }
                    return Err(
                        GraphError::DivergentHead {
                            dependency: tail_id,
                            first: remaining[first_match].id.clone(),
                            second: remaining[j].id.clone(),
                        },
                    );
                }
                have_match = true;
                first_match = j;
            }
            j += 1;
        }
        if have_match {
            let ghost pre = remaining@;
            let ghost chain_pre = chain@;
            let ghost len_pre = chain@.len() as int;
            let next = remaining.remove(first_match);
            chain.push(next);
            proof {
                pre.remove_ensures(first_match as int);
                assert(chain@.to_multiset().add(remaining@.to_multiset()) =~= input.to_multiset())
                    by {
                    assert(pre.to_multiset().contains(next));
                }
                assert(unique_ids(remaining@));
                assert(none_depend_on_settled(chain@, remaining@)) by {
                    reveal(none_depend_on_settled);
                    assert forall|t: int, u: int|
                        0 <= t < remaining@.len() && 0 <= u < chain@.len() - 1 implies (
                    #[trigger] remaining@[t]).dependency@ != (#[trigger] chain@[u]).id@ by {
                        let src: int = if t < first_match {
                            t
                        } else {
                            t + 1
                        };
                        assert(remaining@[t] == pre[src]);
                        assert(chain@[u] == chain_pre[u]);
                        if u == len_pre - 1 {
                            assert(chain_pre[u].id@ == tail_id@);
                            assert(pre[src].dependency@ != tail_id@);
                        }
                    }
                }
                assert forall|o: Seq<Migration>| #[trigger] chain_order(input, o) implies o.take(
                    chain@.len() as int,
                ) == chain@ by {
                    lemma_order_no_duplicates(input, o);
                    assert(o.take(len_pre) == chain_pre);
                    assert(o.len() == input.len());
                    assert(chain_pre.to_multiset().len() == chain_pre.len());
                    assert(pre.to_multiset().len() == pre.len());
                    assert(input.to_multiset().len() == input.len());
                    assert(chain_pre.to_multiset().add(pre.to_multiset()).len()
                        == chain_pre.to_multiset().len() + pre.to_multiset().len());
                    assert(len_pre + pre.len() == input.len());
                    assert(len_pre < o.len());
                    assert(o[len_pre - 1] == o.take(len_pre)[len_pre - 1]);
                    assert(o[len_pre].dependency@ == o[len_pre - 1].id@);
                    assert(o[len_pre - 1].id@ == tail_id@);
                    assert(!chain_pre.contains(o[len_pre])) by {
                        if chain_pre.contains(o[len_pre]) {
                            let t = choose|t: int|
                                0 <= t < chain_pre.len() && #[trigger] chain_pre[t] == o[
                                len_pre];
                            assert(o[t] == o[len_pre]);
                        }
                    }
                    assert(chain_pre.to_multiset().count(o[len_pre]) == 0);
                    assert(o.contains(o[len_pre]));
                    assert(o.to_multiset().count(o[len_pre]) > 0);
                    assert(chain_pre.to_multiset().count(o[len_pre]) + pre.to_multiset().count(
                        o[len_pre],
                    ) == input.to_multiset().count(o[len_pre]));
                    assert(pre.to_multiset().count(o[len_pre]) > 0);
                    assert(pre.contains(o[len_pre]));
                    let rj = choose|t: int| 0 <= t < pre.len() && #[trigger] pre[t] == o[len_pre];
                    assert(pre[rj].dependency@ == tail_id@);
                    assert(rj == first_match);
                    assert(o[len_pre] == next);
                    assert(o.take(len_pre + 1) =~= chain_pre.push(next));
                }
            }
        } else {
            done = true;
        }
    }

    if remaining.len() == 0 {
        proof {
            assert(chain@.to_multiset() =~= input.to_multiset()) by {
                assert(remaining@.to_multiset() =~= Multiset::<Migration>::empty()) by {
                    assert(remaining@.to_multiset().len() == remaining@.len());
                }
            }
            assert(chain@.to_multiset().len() == chain@.len());
            assert(input.to_multiset().len() == input.len());
            assert(chain@.len() == input.len());
            assert(chain_order(input, chain@));
            assert(resolvable(input));
        }
        return Ok(chain);
    }

    // The walk could not reach these records. Classify the remainder as a
    // whole: first a record still depending on a replaced id, then one whose
    // dependency is absent from the set; only when every dependency is
    // present do the records loop among themselves.
    proof {
        assert(!resolvable(input)) by {
            if resolvable(input) {
                let o = choose|o: Seq<Migration>| #[trigger] chain_order(input, o);
                lemma_order_no_duplicates(input, o);
                let len_c = chain@.len() as int;
                assert(o.take(len_c) == chain@);
                assert(o.len() == input.len());
                assert(chain@.to_multiset().len() == chain@.len());
                assert(remaining@.to_multiset().len() == remaining@.len());
                assert(input.to_multiset().len() == input.len());
                assert(chain@.to_multiset().add(remaining@.to_multiset()).len()
                    == chain@.to_multiset().len() + remaining@.to_multiset().len());
                assert(len_c + remaining@.len() == input.len());
                assert(len_c < o.len());
                assert(o[len_c - 1] == o.take(len_c)[len_c - 1]);
                assert(o[len_c].dependency@ == o[len_c - 1].id@);
                assert(!chain@.contains(o[len_c])) by {
                    if chain@.contains(o[len_c]) {
                        let t = choose|t: int|
                            0 <= t < chain@.len() && #[trigger] chain@[t] == o[len_c];
                        assert(o[t] == o[len_c]);
                    }
                }
                assert(chain@.to_multiset().count(o[len_c]) == 0);
                assert(o.contains(o[len_c]));
                assert(o.to_multiset().count(o[len_c]) > 0);
                assert(chain@.to_multiset().count(o[len_c]) + remaining@.to_multiset().count(
                    o[len_c],
                ) == input.to_multiset().count(o[len_c]));
                assert(remaining@.to_multiset().count(o[len_c]) > 0);
                assert(remaining@.contains(o[len_c]));
                let rj = choose|t: int|
                    0 <= t < remaining@.len() && #[trigger] remaining@[t] == o[len_c];
                assert(remaining@[rj].dependency@ != chain@[len_c - 1].id@);
            }
        }
    }
    let mut t: usize = 0;
    while t < remaining.len()
        invariant
            t <= remaining@.len(),
            forall|u: int|
                0 <= u < t ==> !is_replaced(input, (#[trigger] remaining@[u]).dependency@)
                    || is_replaced(input, remaining@[u].id@),
        decreases remaining@.len() - t,
    {
        if contains_str(&all_replaced, &remaining[t].dependency) && !contains_str(
            &all_replaced,
            &remaining[t].id,
        ) {
            proof {
                let x = remaining@[t as int];
                assert(remaining@.contains(x));
                assert(input.to_multiset().contains(x));
                assert(input.contains(x));
            }
            return Err(
                GraphError::ReplacedButReferenced {
                    id: remaining[t].id.clone(),
                    dependency: remaining[t].dependency.clone(),
                },
            );
        }
        t += 1;
    }
    let mut d: usize = 0;
    while d < remaining.len()
        invariant
            d <= remaining@.len(),
            forall|u: int| 0 <= u < d ==> has_id(input, (#[trigger] remaining@[u]).dependency@),
        decreases remaining@.len() - d,
    {
        if !contains_str(&all_ids, &remaining[d].dependency) {
            proof {
                let x = remaining@[d as int];
                assert(remaining@.contains(x));
                assert(input.to_multiset().contains(x));
                assert(input.contains(x));
            }
            return Err(
                GraphError::DanglingDependency {
                    id: remaining[d].id.clone(),
                    dependency: remaining[d].dependency.clone(),
                },
            );
        }
        d += 1;
    }
    let stuck_id = remaining[0].id.clone();
    proof {
        lemma_remainder_loops(input, chain@, remaining@);
    }
    Err(GraphError::Cycle { id: stuck_id })
}

/// When every unreached record avoids the settled chain ids and the tail's
/// id, yet each names a dependency the set carries, the unreached records
/// form a dependency-closed group among themselves.
proof fn lemma_remainder_loops(s: Seq<Migration>, settled: Seq<Migration>, rem: Seq<Migration>)
    requires
        settled.len() >= 1,
        rem.len() >= 1,
        settled.to_multiset().add(rem.to_multiset()) == s.to_multiset(),
        forall|t: int| 0 <= t < rem.len() ==> !(#[trigger] rem[t]).initial,
        none_depend_on_settled(settled, rem),
        forall|t: int|
            0 <= t < rem.len() ==> (#[trigger] rem[t]).dependency@ != settled[settled.len()
                - 1].id@,
        forall|t: int| 0 <= t < rem.len() ==> has_id(s, (#[trigger] rem[t]).dependency@),
    ensures
        exists|r: Set<int>|
            #[trigger] looped_group(s, r) && exists|i: int|
                #[trigger] r.contains(i) && s[i].id@ == rem[0].id@,
{
    broadcast use vstd::seq_lib::group_to_multiset_ensures, vstd::multiset::group_multiset_axioms;

    reveal(none_depend_on_settled);
    let r = Set::new(|w: int| 0 <= w < s.len() && rem.contains(s[w]));
    let x0 = rem[0];
    assert(rem.contains(x0));
    assert(s.to_multiset().contains(x0));
    assert(s.contains(x0));
    let w0 = choose|w: int| 0 <= w < s.len() && #[trigger] s[w] == x0;
    assert(r.contains(w0) && s[w0].id@ == rem[0].id@);
    assert forall|i: int| #[trigger] r.contains(i) implies 0 <= i < s.len() && !s[i].initial
        && exists|j: int| #[trigger] r.contains(j) && s[j].id@ == s[i].dependency@ by {
        assert(rem.contains(s[i]));
        let ti = choose|u: int| 0 <= u < rem.len() && #[trigger] rem[u] == s[i];
        assert(!rem[ti].initial);
        assert(has_id(s, rem[ti].dependency@));
        let j0 = choose|w: int| 0 <= w < s.len() && (#[trigger] s[w]).id@ == s[i].dependency@;
        assert(s.contains(s[j0]));
        assert(s.to_multiset().count(s[j0]) > 0);
        assert(settled.to_multiset().count(s[j0]) + rem.to_multiset().count(s[j0])
            == s.to_multiset().count(s[j0]));
        if !rem.contains(s[j0]) {
            assert(rem.to_multiset().count(s[j0]) == 0);
            assert(settled.to_multiset().count(s[j0]) > 0);
            assert(settled.contains(s[j0]));
            let u = choose|u: int| 0 <= u < settled.len() && #[trigger] settled[u] == s[j0];
            if u < settled.len() - 1 {
                assert(rem[ti].dependency@ != settled[u].id@);
            } else {
                assert(rem[ti].dependency@ != settled[settled.len() - 1].id@);
            }
        }
        assert(r.contains(j0));
    }
    assert(looped_group(s, r));
}

/// Every position of an order drawn from the same multiset holds some record
/// of the original set.
proof fn lemma_order_member(s: Seq<Migration>, o: Seq<Migration>, p: int)
    requires
        o.to_multiset() == s.to_multiset(),
        0 <= p < o.len(),
    ensures
        exists|w: int| 0 <= w < s.len() && #[trigger] s[w] == o[p],
{
    assert(o.to_multiset().contains(o[p]));
    assert(s.contains(o[p]));
}

/// An order drawn from a set with unique ids repeats no record.
proof fn lemma_order_no_duplicates(s: Seq<Migration>, o: Seq<Migration>)
    requires
        unique_ids(s),
        o.to_multiset() == s.to_multiset(),
    ensures
        o.no_duplicates(),
{
    assert(s.no_duplicates());
    s.lemma_multiset_has_no_duplicates();
    o.lemma_multiset_has_no_duplicates_conv();
}

/// The record an order places just before position `p` is the one record of
/// the set that carries the dependency id of the record at `p`.
proof fn lemma_predecessor(s: Seq<Migration>, o: Seq<Migration>, p: int, w: int)
    requires
        unique_ids(s),
        chain_order(s, o),
        1 <= p < o.len(),
        0 <= w < s.len(),
        s[w].id@ == o[p].dependency@,
    ensures
        o[p - 1] == s[w],
{
    lemma_order_member(s, o, p - 1);
    let v = choose|v: int| 0 <= v < s.len() && #[trigger] s[v] == o[p - 1];
    assert(s[v].id@ == o[p].dependency@);
    if v != w {
        assert(s[v].id@ != s[w].id@);
    }
}

/// A record whose dependency is neither empty nor the id of any record of the
/// set leaves the set without any chain order: the record can stand neither
/// first nor after anything.
pub proof fn unresolvable_dangling(s: Seq<Migration>, i: int)
    requires
        0 <= i < s.len(),
        s[i].dependency@ != Seq::<char>::empty(),
        !has_id(s, s[i].dependency@),
    ensures
        forall|o: Seq<Migration>| !chain_order(s, o),
{
    assert forall|o: Seq<Migration>| !chain_order(s, o) by {
        if chain_order(s, o) {
            assert(s.contains(s[i]));
            assert(o.to_multiset().contains(s[i]));
            assert(o.contains(s[i]));
            let p = choose|p: int| 0 <= p < o.len() && #[trigger] o[p] == s[i];
            if p == 0 {
                assert(o[0].dependency@ == Seq::<char>::empty());
            } else {
                lemma_order_member(s, o, p - 1);
                let w = choose|w: int| 0 <= w < s.len() && #[trigger] s[w] == o[p - 1];
                assert(s[w].id@ == s[i].dependency@);
            }
        }
    }
}

/// Two records declaring the same dependency leave a set with unique,
/// non-empty ids without any chain order: at most one record can follow the
/// record carrying that dependency id, and at most one can stand first.
pub proof fn unresolvable_divergent(s: Seq<Migration>, i: int, j: int)
    requires
        unique_ids(s),
        forall|k: int| 0 <= k < s.len() ==> (#[trigger] s[k]).id@ != Seq::<char>::empty(),
        0 <= i < s.len(),
        0 <= j < s.len(),
        i != j,
        s[i].dependency@ == s[j].dependency@,
    ensures
        forall|o: Seq<Migration>| !chain_order(s, o),
{
    assert forall|o: Seq<Migration>| !chain_order(s, o) by {
        if chain_order(s, o) {
            lemma_order_no_duplicates(s, o);
            assert(s.contains(s[i]));
            assert(o.to_multiset().contains(s[i]));
            assert(o.contains(s[i]));
            let p = choose|p: int| 0 <= p < o.len() && #[trigger] o[p] == s[i];
            assert(s.contains(s[j]));
            assert(o.to_multiset().contains(s[j]));
            assert(o.contains(s[j]));
            let q = choose|q: int| 0 <= q < o.len() && #[trigger] o[q] == s[j];
            assert(s[i] != s[j]);
            assert(p != q);
            if p == 0 {
                assert(s[j].dependency@ == Seq::<char>::empty());
                lemma_order_member(s, o, q - 1);
                let w = choose|w: int| 0 <= w < s.len() && #[trigger] s[w] == o[q - 1];
                assert(s[w].id@ == Seq::<char>::empty());
            } else if q == 0 {
                assert(s[i].dependency@ == Seq::<char>::empty());
                lemma_order_member(s, o, p - 1);
                let w = choose|w: int| 0 <= w < s.len() && #[trigger] s[w] == o[p - 1];
                assert(s[w].id@ == Seq::<char>::empty());
            } else {
                lemma_order_member(s, o, p - 1);
                let w = choose|w: int| 0 <= w < s.len() && #[trigger] s[w] == o[p - 1];
                lemma_predecessor(s, o, p, w);
                lemma_predecessor(s, o, q, w);
                assert(o[p - 1] == o[q - 1]);
            }
        }
    }
}

/// A mutual dependency pair leaves a set with unique, non-empty ids without
/// any chain order: the walk from the root can never enter the loop.
pub proof fn unresolvable_cycle(s: Seq<Migration>, i: int, j: int)
    requires
        unique_ids(s),
        0 <= i < s.len(),
        0 <= j < s.len(),
        i != j,
        s[i].dependency@ == s[j].id@,
        s[j].dependency@ == s[i].id@,
        s[i].id@ != Seq::<char>::empty(),
        s[j].id@ != Seq::<char>::empty(),
    ensures
        forall|o: Seq<Migration>| !chain_order(s, o),
{
    assert forall|o: Seq<Migration>| !chain_order(s, o) by {
        if chain_order(s, o) {
            lemma_order_no_duplicates(s, o);
            assert(s.contains(s[i]));
            assert(o.to_multiset().contains(s[i]));
            assert(o.contains(s[i]));
            let p = choose|p: int| 0 <= p < o.len() && #[trigger] o[p] == s[i];
            assert(p > 0) by {
                if p == 0 {
                    assert(s[i].dependency@ == Seq::<char>::empty());
                }
            }
            lemma_predecessor(s, o, p, j);
            assert(o[p - 1] == s[j]);
            assert(p - 1 > 0) by {
                if p - 1 == 0 {
                    assert(s[j].dependency@ == Seq::<char>::empty());
                }
            }
            lemma_predecessor(s, o, p - 1, i);
            assert(o[p - 2] == s[i]);
            assert(o[p - 2] != o[p]);
        }
    }
}

} // verus!
