//! Routes market updates to the actors that depend on a contract.
use vstd::prelude::*;

use crate::actor::{ActorExecutionContext, ActorTrait};
use crate::execution::{contract_names, ExecutionContextTrait};
use crate::execute_status::ExecuteResult;
use crate::keyed::AssocList;
use crate::trade_types::Contract;

verus! {

/// A market update on one contract.
pub struct Delta(pub Contract);

/// `s` with every occurrence of `x` taken out.
pub open spec fn without(s: Seq<u64>, x: u64) -> Seq<u64>
    decreases s.len(),
{
    if s.len() == 0 {
        s
    } else {
        let r = without(s.drop_last(), x);
        if s.last() == x {
            r
        } else {
            r.push(s.last())
        }
    }
}

/// The tables after appending `s` to the list of each contract in `cs`, in
/// order; a contract without a list gets one.
pub open spec fn subscribe(t: Map<Seq<char>, Seq<u64>>, cs: Seq<Seq<char>>, s: u64) -> Map<
    Seq<char>,
    Seq<u64>,
>
    decreases cs.len(),
{
    if cs.len() == 0 {
        t
    } else {
        let t2 = subscribe(t, cs.drop_last(), s);
        let c = cs.last();
        t2.insert(
            c,
            if t2.contains_key(c) {
                t2[c].push(s)
            } else {
                seq![s]
            },
        )
    }
}

/// The tables after taking `s` out of the list of each contract in `cs`; a
/// list that is left empty is dropped with its contract.
pub open spec fn unsubscribe(t: Map<Seq<char>, Seq<u64>>, cs: Seq<Seq<char>>, s: u64) -> Map<
    Seq<char>,
    Seq<u64>,
>
    decreases cs.len(),
{
    if cs.len() == 0 {
        t
    } else {
        let t2 = unsubscribe(t, cs.drop_last(), s);
        let c = cs.last();
        if t2.contains_key(c) {
            let rest = without(t2[c], s);
            if rest.len() == 0 {
                t2.remove(c)
            } else {
                t2.insert(c, rest)
            }
        } else {
            t2
        }
    }
}

/// The id map without the entry of `id`, where that entry is `s`.
pub open spec fn forget_id(ids: Map<u32, u64>, id: u32, s: u64) -> Map<u32, u64> {
    if ids.contains_key(id) && ids[id] == s {
        ids.remove(id)
    } else {
        ids
    }
}

/// Ticking the actors of `list` in order, where `ok[k]` says whether the
/// actor at `list[k]` succeeded: an actor that fails loses its entry in the id
/// map (where the entry is still its own) and its place in the tables of all
/// its contracts. `info` gives each actor's id and contracts. The result is
/// the id map, the tables and the actors that succeeded, in order.
pub open spec fn tick_outcome(
    ids: Map<u32, u64>,
    tables: Map<Seq<char>, Seq<u64>>,
    info: Map<u64, (u32, Seq<Seq<char>>)>,
    list: Seq<u64>,
    ok: Seq<bool>,
) -> (Map<u32, u64>, Map<Seq<char>, Seq<u64>>, Seq<u64>)
    decreases list.len(),
{
    if list.len() == 0 {
        (ids, tables, Seq::empty())
    } else {
        let prev = tick_outcome(ids, tables, info, list.drop_last(), ok.drop_last());
        let s = list.last();
        if ok.last() {
            (prev.0, prev.1, prev.2.push(s))
        } else {
            (forget_id(prev.0, info[s].0, s), unsubscribe(prev.1, info[s].1, s), prev.2)
        }
    }
}

/// The id map and the tables after a tick on contract `c` whose listed actors
/// had the outcomes `ok`: the list of `c` is ticked in order and what is left
/// of it is the actors that succeeded; an empty list is dropped.
pub open spec fn tick_result(
    ids: Map<u32, u64>,
    tables: Map<Seq<char>, Seq<u64>>,
    info: Map<u64, (u32, Seq<Seq<char>>)>,
    c: Seq<char>,
    ok: Seq<bool>,
) -> (Map<u32, u64>, Map<Seq<char>, Seq<u64>>) {
    let r = tick_outcome(ids, tables.remove(c), info, tables[c], ok);
    (
        r.0,
        if r.2.len() > 0 {
            r.1.insert(c, r.2)
        } else {
            r.1
        },
    )
}

/// Every id entry names a known actor with that id; every contract list is
/// non-empty and holds known actors that depend on the contract; every known
/// actor's number is below `next`.
pub open spec fn index_consistent(
    ids: Map<u32, u64>,
    tables: Map<Seq<char>, Seq<u64>>,
    info: Map<u64, (u32, Seq<Seq<char>>)>,
    next: u64,
) -> bool {
    &&& forall|id: u32| #[trigger]
        ids.contains_key(id) ==> info.contains_key(ids[id]) && info[ids[id]].0 == id
    &&& forall|c: Seq<char>| #[trigger] tables.contains_key(c) ==> tables[c].len() > 0
    &&& forall|c: Seq<char>, k: int|
        tables.contains_key(c) && 0 <= k < tables[c].len() ==> info.contains_key(
            #[trigger] tables[c][k],
        ) && info[tables[c][k]].1.contains(c)
    &&& forall|s: u64| #[trigger] info.contains_key(s) ==> s < next
}

pub proof fn lemma_without(s: Seq<u64>, x: u64)
    ensures
        without(s, x).len() <= s.len(),
        forall|k: int| 0 <= k < without(s, x).len() ==> s.contains(#[trigger] without(s, x)[k]),
        forall|k: int| 0 <= k < without(s, x).len() ==> #[trigger] without(s, x)[k] != x,
        forall|k: int| 0 <= k < s.len() && s[k] != x ==> without(s, x).contains(#[trigger] s[k]),
    decreases s.len(),
{
    if s.len() > 0 {
        let p = s.drop_last();
        lemma_without(p, x);
        assert forall|k: int| 0 <= k < without(s, x).len() implies s.contains(
            #[trigger] without(s, x)[k],
        ) by {
            if k < without(p, x).len() {
                let e = without(p, x)[k];
                assert(p.contains(e));
                let j = choose|j: int| 0 <= j < p.len() && p[j] == e;
                assert(s[j] == e);
            } else {
                assert(s[s.len() - 1] == s.last());
            }
        }
        assert forall|k: int| 0 <= k < s.len() && s[k] != x implies without(s, x).contains(
            #[trigger] s[k],
        ) by {
            if k < s.len() - 1 {
                assert(p[k] == s[k]);
                assert(without(p, x).contains(p[k]));
                let j = choose|j: int| 0 <= j < without(p, x).len() && without(p, x)[j] == p[k];
                assert(without(s, x)[j] == s[k]);
            } else {
                assert(without(s, x)[without(s, x).len() - 1] == s[k]);
            }
        }
    }
}

/// The tables in `t2` are what is left of those in `t`: every contract of `t2`
/// is in `t` with a non-empty list whose actors are all in the list in `t`.
pub open spec fn thinned(t2: Map<Seq<char>, Seq<u64>>, t: Map<Seq<char>, Seq<u64>>) -> bool {
    &&& forall|c: Seq<char>| #[trigger]
        t2.contains_key(c) ==> t.contains_key(c) && t2[c].len() > 0
    &&& forall|c: Seq<char>, k: int|
        t2.contains_key(c) && 0 <= k < t2[c].len() ==> t[c].contains(#[trigger] t2[c][k])
}

pub proof fn lemma_thinned_consistent(
    ids: Map<u32, u64>,
    t: Map<Seq<char>, Seq<u64>>,
    t2: Map<Seq<char>, Seq<u64>>,
    info: Map<u64, (u32, Seq<Seq<char>>)>,
    next: u64,
)
    requires
        index_consistent(ids, t, info, next),
        thinned(t2, t),
    ensures
        index_consistent(ids, t2, info, next),
{
    assert forall|c: Seq<char>, k: int|
        t2.contains_key(c) && 0 <= k < t2[c].len() implies info.contains_key(
        #[trigger] t2[c][k],
    ) && info[t2[c][k]].1.contains(c) by {
        assert(t[c].contains(t2[c][k]));
        let j = choose|j: int| 0 <= j < t[c].len() && t[c][j] == t2[c][k];
        assert(info.contains_key(t[c][j]));
    }
}

/// What `unsubscribe` leaves: only contracts that were there, no list of a
/// contract in `cs` still holds `s`, the lists of other contracts are as they
/// were, and every list keeps only actors it held.
pub proof fn lemma_unsubscribe(t: Map<Seq<char>, Seq<u64>>, cs: Seq<Seq<char>>, s: u64)
    ensures
        forall|c: Seq<char>| #[trigger]
            unsubscribe(t, cs, s).contains_key(c) ==> t.contains_key(c),
        forall|c: Seq<char>|
            #[trigger] unsubscribe(t, cs, s).contains_key(c) && cs.contains(c) ==> !unsubscribe(
                t,
                cs,
                s,
            )[c].contains(s),
        forall|c: Seq<char>|
            #[trigger] unsubscribe(t, cs, s).contains_key(c) && !cs.contains(c) ==> unsubscribe(
                t,
                cs,
                s,
            )[c] == t[c],
        forall|c: Seq<char>, k: int|
            unsubscribe(t, cs, s).contains_key(c) && 0 <= k < unsubscribe(t, cs, s)[c].len()
                ==> t[c].contains(#[trigger] unsubscribe(t, cs, s)[c][k]),
    decreases cs.len(),
{
    if cs.len() > 0 {
        let p = cs.drop_last();
        let t2 = unsubscribe(t, p, s);
        let last = cs.last();
        lemma_unsubscribe(t, p, s);
        let r = unsubscribe(t, cs, s);
        assert forall|c: Seq<char>| c != last implies (cs.contains(c) <==> p.contains(c)) by {
            if cs.contains(c) {
                let i = choose|i: int| 0 <= i < cs.len() && cs[i] == c;
                assert(i < cs.len() - 1);
                assert(p[i] == c);
            }
            if p.contains(c) {
                let i = choose|i: int| 0 <= i < p.len() && p[i] == c;
                assert(cs[i] == c);
            }
        }
        assert(cs.contains(last)) by {
            assert(cs[cs.len() - 1] == last);
        }
        if t2.contains_key(last) {
            lemma_without(t2[last], s);
            assert forall|c: Seq<char>, k: int|
                r.contains_key(c) && 0 <= k < r[c].len() implies t[c].contains(#[trigger] r[c][k]) by {
                if c == last {
                    let e = r[c][k];
                    assert(t2[last].contains(e));
                    let j = choose|j: int| 0 <= j < t2[last].len() && t2[last][j] == e;
                    assert(t[c].contains(t2[c][j]));
                } else {
                    assert(r[c] == t2[c]);
                    assert(t[c].contains(t2[c][k]));
                }
            }
            assert forall|c: Seq<char>| #[trigger]
                r.contains_key(c) && cs.contains(c) implies !r[c].contains(s) by {
                if c == last {
                    if r[c].contains(s) {
                        let j = choose|j: int| 0 <= j < r[c].len() && r[c][j] == s;
                        assert(without(t2[last], s)[j] != s);
                    }
                } else {
                    assert(r[c] == t2[c]);
                }
            }
        }
    }
}

/// Every actor listed in `t` is known to `info` and depends on the contract
/// it is listed under.
pub open spec fn listed_actors_known(
    t: Map<Seq<char>, Seq<u64>>,
    info: Map<u64, (u32, Seq<Seq<char>>)>,
) -> bool {
    forall|c: Seq<char>, k: int|
        t.contains_key(c) && 0 <= k < t[c].len() ==> info.contains_key(#[trigger] t[c][k])
            && info[t[c][k]].1.contains(c)
}

/// Every id entry names an actor known to `info` with that id.
pub open spec fn ids_known(ids: Map<u32, u64>, info: Map<u64, (u32, Seq<Seq<char>>)>) -> bool {
    forall|id: u32| #[trigger]
        ids.contains_key(id) ==> info.contains_key(ids[id]) && info[ids[id]].0 == id
}

/// Ticking only ever takes away: the id map keeps a part of its entries, the
/// lists keep a part of their actors, and the actors that succeed are actors
/// of the list that succeeded.
pub proof fn lemma_tick_outcome_shrinks(
    ids: Map<u32, u64>,
    tables: Map<Seq<char>, Seq<u64>>,
    info: Map<u64, (u32, Seq<Seq<char>>)>,
    list: Seq<u64>,
    ok: Seq<bool>,
)
    requires
        ok.len() == list.len(),
    ensures
        forall|id: u32| #[trigger]
            tick_outcome(ids, tables, info, list, ok).0.contains_key(id) ==> ids.contains_key(id)
                && tick_outcome(ids, tables, info, list, ok).0[id] == ids[id],
        forall|c: Seq<char>| #[trigger]
            tick_outcome(ids, tables, info, list, ok).1.contains_key(c) ==> tables.contains_key(c),
        forall|c: Seq<char>, k: int|
            tick_outcome(ids, tables, info, list, ok).1.contains_key(c) && 0 <= k < tick_outcome(
                ids,
                tables,
                info,
                list,
                ok,
            ).1[c].len() ==> tables[c].contains(
                #[trigger] tick_outcome(ids, tables, info, list, ok).1[c][k],
            ),
        forall|x: u64| #[trigger]
            tick_outcome(ids, tables, info, list, ok).2.contains(x) ==> exists|i: int|
                0 <= i < list.len() && ok[i] && list[i] == x,
    decreases list.len(),
{
    if list.len() > 0 {
        let n = list.len() - 1;
        let pl = list.drop_last();
        let po = ok.drop_last();
        lemma_tick_outcome_shrinks(ids, tables, info, pl, po);
        let prev = tick_outcome(ids, tables, info, pl, po);
        let r = tick_outcome(ids, tables, info, list, ok);
        let s = list.last();
        assert(pl.len() == po.len());
        if ok.last() {
            assert(r == (prev.0, prev.1, prev.2.push(s)));
            assert forall|x: u64| #[trigger] r.2.contains(x) implies exists|i: int|
                0 <= i < list.len() && ok[i] && list[i] == x by {
                let j = choose|j: int| 0 <= j < r.2.len() && r.2[j] == x;
                if j < prev.2.len() {
                    assert(prev.2[j] == x);
                    assert(prev.2.contains(x));
                    let i = choose|i: int| 0 <= i < pl.len() && po[i] && pl[i] == x;
                    assert(list[i] == pl[i] && ok[i] == po[i]);
                } else {
                    assert(list[n] == x && ok[n]);
                }
            }
        } else {
            lemma_unsubscribe(prev.1, info[s].1, s);
            assert forall|c: Seq<char>, k: int|
                r.1.contains_key(c) && 0 <= k < r.1[c].len() implies tables[c].contains(
                #[trigger] r.1[c][k],
            ) by {
                let e = r.1[c][k];
                assert(prev.1[c].contains(e));
                let j = choose|j: int| 0 <= j < prev.1[c].len() && prev.1[c][j] == e;
                assert(tables[c].contains(prev.1[c][j]));
            }
            assert(r.2 == prev.2);
            assert forall|x: u64| #[trigger] r.2.contains(x) implies exists|i: int|
                0 <= i < list.len() && ok[i] && list[i] == x by {
                assert(prev.2.contains(x));
                let i = choose|i: int| 0 <= i < pl.len() && po[i] && pl[i] == x;
                assert(list[i] == pl[i] && ok[i] == po[i]);
            }
        }
    }
}

/// An actor that fails, and is listed once in the ticked list, is gone from
/// the id map, from every contract list and from the actors that succeeded.
pub proof fn lemma_tick_outcome_drops_failed(
    ids: Map<u32, u64>,
    tables: Map<Seq<char>, Seq<u64>>,
    info: Map<u64, (u32, Seq<Seq<char>>)>,
    list: Seq<u64>,
    ok: Seq<bool>,
    k: int,
)
    requires
        ok.len() == list.len(),
        0 <= k < list.len(),
        !ok[k],
        forall|j: int| 0 <= j < list.len() && j != k ==> list[j] != list[k],
        info.contains_key(list[k]),
        ids_known(ids, info),
        listed_actors_known(tables, info),
    ensures
        forall|id: u32| #[trigger]
            tick_outcome(ids, tables, info, list, ok).0.contains_key(id) ==> tick_outcome(
                ids,
                tables,
                info,
                list,
                ok,
            ).0[id] != list[k],
        forall|c: Seq<char>| #[trigger]
            tick_outcome(ids, tables, info, list, ok).1.contains_key(c) ==> !tick_outcome(
                ids,
                tables,
                info,
                list,
                ok,
            ).1[c].contains(list[k]),
        !tick_outcome(ids, tables, info, list, ok).2.contains(list[k]),
    decreases list.len(),
{
    let n = list.len() - 1;
    let pl = list.drop_last();
    let po = ok.drop_last();
    let s = list[k];
    let prev = tick_outcome(ids, tables, info, pl, po);
    let r = tick_outcome(ids, tables, info, list, ok);
    lemma_tick_outcome_shrinks(ids, tables, info, pl, po);
    if k == n {
        assert(list.last() == s && !ok.last());
        lemma_unsubscribe(prev.1, info[s].1, s);
        assert forall|id: u32| #[trigger] r.0.contains_key(id) implies r.0[id] != s by {
            assert(prev.0.contains_key(id));
            if r.0[id] == s {
                assert(ids[id] == s);
                assert(info[s].0 == id);
            }
        }
        assert forall|c: Seq<char>| #[trigger] r.1.contains_key(c) implies !r.1[c].contains(s) by {
            if !info[s].1.contains(c) {
                assert(r.1[c] == prev.1[c]);
                if prev.1[c].contains(s) {
                    let j = choose|j: int| 0 <= j < prev.1[c].len() && prev.1[c][j] == s;
                    assert(tables[c].contains(prev.1[c][j]));
                    let i = choose|i: int| 0 <= i < tables[c].len() && tables[c][i] == s;
                    assert(info[tables[c][i]].1.contains(c));
                }
            }
        }
        if r.2.contains(s) {
            assert(r.2 == prev.2);
            assert(prev.2.contains(s));
            let i = choose|i: int| 0 <= i < pl.len() && po[i] && pl[i] == s;
            assert(list[i] == s && i != k);
        }
    } else {
        assert forall|j: int| 0 <= j < pl.len() && j != k implies pl[j] != pl[k] by {
            assert(pl[j] == list[j] && pl[k] == list[k]);
        }
        assert(pl[k] == s && !po[k]);
        lemma_tick_outcome_drops_failed(ids, tables, info, pl, po, k);
        let last = list.last();
        assert(last != s) by {
            assert(list[n] == last);
        }
        if ok.last() {
            if r.2.contains(s) {
                let j = choose|j: int| 0 <= j < r.2.len() && r.2[j] == s;
                assert(r.2 == prev.2.push(last));
                if j < prev.2.len() {
                    assert(prev.2[j] == s);
                    assert(prev.2.contains(s));
                }
            }
        } else {
            lemma_unsubscribe(prev.1, info[last].1, last);
            assert forall|c: Seq<char>| #[trigger] r.1.contains_key(c) implies !r.1[c].contains(s) by {
                if r.1[c].contains(s) {
                    let j = choose|j: int| 0 <= j < r.1[c].len() && r.1[c][j] == s;
                    assert(prev.1[c].contains(r.1[c][j]));
                }
            }
            assert forall|id: u32| #[trigger] r.0.contains_key(id) implies r.0[id] != s by {
                assert(prev.0.contains_key(id));
            }
        }
    }
}

/// A tick drops the actors that fail: an actor of the ticked contract's list
/// that fails, and is listed there once, is afterwards in no contract list
/// and under no id.
pub proof fn lemma_tick_drops_failed_actor(
    ids: Map<u32, u64>,
    tables: Map<Seq<char>, Seq<u64>>,
    info: Map<u64, (u32, Seq<Seq<char>>)>,
    next: u64,
    c: Seq<char>,
    ok: Seq<bool>,
    k: int,
)
    requires
        index_consistent(ids, tables, info, next),
        tables.contains_key(c),
        ok.len() == tables[c].len(),
        0 <= k < ok.len(),
        !ok[k],
        forall|j: int| 0 <= j < tables[c].len() && j != k ==> tables[c][j] != tables[c][k],
    ensures
        forall|id: u32| #[trigger]
            tick_result(ids, tables, info, c, ok).0.contains_key(id) ==> tick_result(
                ids,
                tables,
                info,
                c,
                ok,
            ).0[id] != tables[c][k],
        forall|c2: Seq<char>| #[trigger]
            tick_result(ids, tables, info, c, ok).1.contains_key(c2) ==> !tick_result(
                ids,
                tables,
                info,
                c,
                ok,
            ).1[c2].contains(tables[c][k]),
{
    let t0 = tables.remove(c);
    let list = tables[c];
    assert(info.contains_key(list[k]));
    assert(listed_actors_known(t0, info)) by {
        assert forall|c2: Seq<char>, j: int|
            t0.contains_key(c2) && 0 <= j < t0[c2].len() implies info.contains_key(
            #[trigger] t0[c2][j],
        ) && info[t0[c2][j]].1.contains(c2) by {
            assert(t0[c2] == tables[c2]);
        }
    }
    lemma_tick_outcome_drops_failed(ids, t0, info, list, ok, k);
    let r = tick_outcome(ids, t0, info, list, ok);
    let res = tick_result(ids, tables, info, c, ok);
    assert forall|c2: Seq<char>| #[trigger] res.1.contains_key(c2) implies !res.1[c2].contains(
        list[k],
    ) by {
        if r.2.len() > 0 && c2 == c {
            assert(res.1[c2] == r.2);
        } else {
            assert(r.1.contains_key(c2));
        }
    }
}

/// `l` with every occurrence of `x` taken out.
fn without_serial(l: &Vec<u64>, x: u64) -> (r: Vec<u64>)
    ensures
        r@ == without(l@, x),
{
    let mut r: Vec<u64> = Vec::new();
    let n = l.len();
    for i in 0..n
        invariant
            n == l@.len(),
            r@ == without(l@.take(i as int), x),
    {
        proof {
            assert(l@.take(i as int + 1).drop_last() =~= l@.take(i as int));
        }
        if l[i] != x {
            r.push(l[i]);
        }
    }
    proof {
        assert(l@.take(n as int) =~= l@);
    }
    r
}

/// Whether `l` holds `x`.
fn lists_serial(l: &Vec<u64>, x: u64) -> (r: bool)
    ensures
        r == l@.contains(x),
{
    let n = l.len();
    for i in 0..n
        invariant
            n == l@.len(),
            forall|k: int| 0 <= k < i ==> l@[k] != x,
    {
        if l[i] == x {
            return true;
        }
    }
    false
}

/// An actor as the controller holds it.
pub struct ActorHandle<A> {
    actor: A,
}

impl<A: ActorTrait> ActorHandle<A> {
    /// The actor.
    pub closed spec fn actor_spec(&self) -> A {
        self.actor
    }

    /// The actor's id.
    pub open spec fn id_spec(&self) -> u32 {
        self.actor_spec().actor_id_spec()
    }

    /// The names of the contracts the actor depends on.
    pub open spec fn contracts_spec(&self) -> Seq<Seq<char>> {
        self.actor_spec().contracts_spec()
    }

    /// A handle on `actor`.
    pub fn new(actor: A) -> (r: Self)
        ensures
            r.actor_spec() == actor,
    {
        ActorHandle { actor }
    }

    /// The actor.
    pub fn actor(&self) -> (r: &A)
        ensures
            *r == self.actor_spec(),
    {
        &self.actor
    }

    /// The actor's id.
    pub fn actor_id(&self) -> (r: u32)
        ensures
            r == self.id_spec(),
    {
        self.actor.actor_id()
    }

    /// The contracts the actor depends on.
    pub fn contracts(&self) -> (r: Vec<Contract>)
        ensures
            contract_names(r@) == self.contracts_spec(),
    {
        self.actor.contracts()
    }

    /// Whether one tick in `context` can turn this handle into `after`, with
    /// `ok` saying whether the actor's execution succeeded.
    pub open spec fn ticks(&self, context: ActorExecutionContext, after: Self, ok: bool) -> bool {
        exists|r: ExecuteResult|
            #[trigger] self.actor_spec().ticks_to(context, after.actor_spec(), r) && ok == (r is Ok)
    }

    /// Executes the actor for one tick: `Some` where it succeeded, `None`
    /// where it failed. The id and the contracts stay as they were.
    pub fn tick(&mut self, context: &ActorExecutionContext) -> (r: Option<()>)
        ensures
            old(self).ticks(*context, *final(self), r is Some),
            final(self).id_spec() == old(self).id_spec(),
            final(self).contracts_spec() == old(self).contracts_spec(),
    {
        let res = self.actor.execute(context);
        proof {
            assert(old(self).actor_spec().ticks_to(*context, self.actor_spec(), res));
        }
        match res {
            Ok(_) => Some(()),
            Err(_) => None,
        }
    }
}

/// A run of ticks over `list` in `context`: the `k`-th listed actor was ticked
/// once, in list order, turning the actors `states[k]` into `states[k + 1]`,
/// with `ok[k]` saying whether it succeeded; no other actor changed.
pub open spec fn tick_run<A: ActorTrait>(
    states: Seq<Map<u64, ActorHandle<A>>>,
    list: Seq<u64>,
    context: ActorExecutionContext,
    ok: Seq<bool>,
) -> bool {
    &&& states.len() == list.len() + 1
    &&& ok.len() == list.len()
    &&& forall|k: int|
        #![trigger list[k]]
        0 <= k < list.len() ==> {
            &&& states[k].contains_key(list[k])
            &&& states[k + 1] == states[k].insert(list[k], states[k + 1][list[k]])
            &&& states[k][list[k]].ticks(context, states[k + 1][list[k]], ok[k])
        }
}

/// The id and the contracts of each actor.
pub open spec fn actor_info<A: ActorTrait>(actors: Map<u64, ActorHandle<A>>) -> Map<
    u64,
    (u32, Seq<Seq<char>>),
> {
    actors.map_values(|h: ActorHandle<A>| (h.id_spec(), h.contracts_spec()))
}

/// Holds actors by id and, for each contract, the actors that depend on it
/// in the order they were added. Each actor the controller holds has a number
/// of its own; the id map and the contract lists refer to actors by number.
pub struct ActorController<A: ActorTrait> {
    time: u64,
    next_serial: u64,
    slots: AssocList<u64, ActorHandle<A>>,
    ids: AssocList<u32, u64>,
    tables: AssocList<Contract, Vec<u64>>,
}

impl<A: ActorTrait> ActorController<A> {
    /// The current time, one step per tick.
    pub closed spec fn time_spec(&self) -> u64 {
        self.time
    }

    /// The number the next added actor gets.
    pub closed spec fn next_serial_spec(&self) -> u64 {
        self.next_serial
    }

    /// The actors, by number.
    pub closed spec fn actors(&self) -> Map<u64, ActorHandle<A>> {
        self.slots.map()
    }

    /// The number of the actor registered under each id.
    pub closed spec fn ids_view(&self) -> Map<u32, u64> {
        self.ids.map()
    }

    /// For each contract name, the numbers of the actors that depend on it.
    pub closed spec fn tables_view(&self) -> Map<Seq<char>, Seq<u64>> {
        self.tables.map().map_values(|v: Vec<u64>| v@)
    }

    /// The id and the contracts of each actor.
    pub open spec fn info(&self) -> Map<u64, (u32, Seq<Seq<char>>)> {
        actor_info(self.actors())
    }

    /// The maps are well formed and consistent with each other.
    pub closed spec fn wf(&self) -> bool {
        &&& self.slots.wf()
        &&& self.ids.wf()
        &&& self.tables.wf()
        &&& index_consistent(self.ids_view(), self.tables_view(), self.info(), self.next_serial)
    }

    /// What every operation keeps: each id names a held actor with that id,
    /// each contract list is non-empty and holds only held actors that depend
    /// on the contract.
    pub proof fn lemma_consistent(&self)
        requires
            self.wf(),
        ensures
            index_consistent(
                self.ids_view(),
                self.tables_view(),
                self.info(),
                self.next_serial_spec(),
            ),
    {
    }

    /// A controller at time 0 with no actors.
    pub fn new() -> (r: Self)
        ensures
            r.wf(),
            r.time_spec() == 0,
            r.next_serial_spec() == 0,
            r.actors() == Map::<u64, ActorHandle<A>>::empty(),
            r.ids_view() == Map::<u32, u64>::empty(),
            r.tables_view() == Map::<Seq<char>, Seq<u64>>::empty(),
    {
        let r = ActorController {
            time: 0,
            next_serial: 0,
            slots: AssocList::new(),
            ids: AssocList::new(),
            tables: AssocList::new(),
        };
        proof {
            assert(r.tables_view() =~= Map::<Seq<char>, Seq<u64>>::empty());
            assert(r.info() =~= Map::<u64, (u32, Seq<Seq<char>>)>::empty());
        }
        r
    }

    /// The current time.
    pub fn time(&self) -> (r: u64)
        ensures
            r == self.time_spec(),
    {
        self.time
    }

    /// The actor registered under `id`, if any.
    pub fn get_actor_by_id(&self, id: u32) -> (r: Option<&ActorHandle<A>>)
        requires
            self.wf(),
        ensures
            r is Some <==> self.ids_view().contains_key(id),
            r matches Some(h) ==> *h == self.actors()[self.ids_view()[id]] && h.id_spec() == id,
    {
        match self.ids.get(&id) {
            Some(s) => self.slots.get(s),
            None => None,
        }
    }

    /// The ids of the actors listed under `contract`, in order, if it has a
    /// list.
    pub fn actor_ids_for_contract(&self, contract: &Contract) -> (r: Option<Vec<u32>>)
        requires
            self.wf(),
        ensures
            r is Some <==> self.tables_view().contains_key(contract@),
            r matches Some(v) ==> v@ == self.tables_view()[contract@].map_values(
                |s: u64| self.info()[s].0,
            ),
    {
        match self.tables.get(contract) {
            None => None,
            Some(l) => {
                let ghost c = contract@;
                let mut v: Vec<u32> = Vec::new();
                let n = l.len();
                for i in 0..n
                    invariant
                        n == l@.len(),
                        self.wf(),
                        self.tables_view().contains_key(c),
                        l@ == self.tables_view()[c],
                        v@ == l@.take(i as int).map_values(|s: u64| self.info()[s].0),
                {
                    let s = l[i];
                    proof {
                        assert(self.tables_view()[c][i as int] == s);
                        assert(self.info().contains_key(s));
                    }
                    let h = self.slots.get(&s).unwrap();
                    v.push(h.actor_id());
                    proof {
                        assert(l@.take(i as int + 1).map_values(|s: u64| self.info()[s].0)
                            =~= v@);
                    }
                }
                proof {
                    assert(l@.take(n as int) =~= l@);
                }
                Some(v)
            },
        }
    }
    /// Whether the id map or a contract list refers to actor `s`.
    pub closed spec fn references(&self, s: u64) -> bool {
        ||| exists|id: u32| #[trigger] self.ids_view().contains_key(id) && self.ids_view()[id] == s
        ||| exists|c: Seq<char>|
            #[trigger] self.tables_view().contains_key(c) && self.tables_view()[c].contains(s)
    }

    /// Drops actor `s` where neither the id map nor a contract list refers to
    /// it any more.
    fn collect_if_unreferenced(&mut self, s: u64)
        requires
            old(self).wf(),
        ensures
            final(self).wf(),
            final(self).ids_view() == old(self).ids_view(),
            final(self).tables_view() == old(self).tables_view(),
            final(self).time_spec() == old(self).time_spec(),
            final(self).next_serial_spec() == old(self).next_serial_spec(),
            final(self).actors() == if old(self).references(s) {
                old(self).actors()
            } else {
                old(self).actors().remove(s)
            },
            final(self).actors() == old(self).actors() || final(self).actors() == old(
                self,
            ).actors().remove(s),
    {
        let (id, cs) = match self.slots.get(&s) {
            None => {
                proof {
                    assert(self.actors().remove(s) =~= self.actors());
                }
                return ;
            },
            Some(h) => (h.actor_id(), h.contracts()),
        };
        match self.ids.get(&id) {
            Some(t) => {
                if *t == s {
                    proof {
                        assert(self.ids_view().contains_key(id) && self.ids_view()[id] == s);
                    }
                    return ;
                }
            },
            None => {},
        }
        let n = cs.len();
        for i in 0..n
            invariant
                n == cs@.len(),
                *self == *old(self),
                self.wf(),
                self.info().contains_key(s),
                contract_names(cs@) == self.info()[s].1,
                forall|j: int|
                    0 <= j < i ==> !(self.tables_view().contains_key(#[trigger] cs@[j]@)
                        && self.tables_view()[cs@[j]@].contains(s)),
        {
            match self.tables.get(&cs[i]) {
                Some(l) => {
                    if lists_serial(l, s) {
                        proof {
                            assert(self.tables_view().contains_key(cs@[i as int]@)
                                && self.tables_view()[cs@[i as int]@].contains(s));
                        }
                        return ;
                    }
                },
                None => {},
            }
        }
        let ghost info0 = self.info();
        let ghost ids0 = self.ids_view();
        let ghost t0 = self.tables_view();
        proof {
            assert forall|id2: u32| #[trigger] ids0.contains_key(id2) implies ids0[id2] != s by {
                if ids0[id2] == s {
                    assert(info0[s].0 == id2);
                }
            }
            assert forall|c: Seq<char>, k: int|
                t0.contains_key(c) && 0 <= k < t0[c].len() implies #[trigger] t0[c][k] != s by {
                if t0[c][k] == s {
                    assert(info0[s].1.contains(c));
                    let j = choose|j: int| 0 <= j < info0[s].1.len() && info0[s].1[j] == c;
                    assert(contract_names(cs@)[j] == cs@[j]@);
                    assert(t0[c].contains(s));
                }
            }
        }
        proof {
            assert(!self.references(s)) by {
                if exists|id2: u32|
                    #[trigger] ids0.contains_key(id2) && ids0[id2] == s {
                    let id2 = choose|id2: u32| #[trigger] ids0.contains_key(id2) && ids0[id2] == s;
                    assert(ids0[id2] != s);
                }
                if exists|c: Seq<char>| #[trigger] t0.contains_key(c) && t0[c].contains(s) {
                    let c = choose|c: Seq<char>| #[trigger] t0.contains_key(c) && t0[c].contains(s);
                    let k = choose|k: int| 0 <= k < t0[c].len() && t0[c][k] == s;
                    assert(t0[c][k] != s);
                }
            }
        }
        self.slots.remove(&s);
        proof {
            assert(self.info() =~= info0.remove(s));
        }
    }

    /// Takes actor `s` out of the list of each contract in `cs`, dropping
    /// lists that are left empty.
    fn remove_actor_from_contract_tables(&mut self, s: u64, cs: &Vec<Contract>)
        requires
            old(self).tables.wf(),
            forall|c: Seq<char>| #[trigger]
                old(self).tables_view().contains_key(c) ==> old(self).tables_view()[c].len() > 0,
        ensures
            final(self).tables.wf(),
            final(self).tables_view() == unsubscribe(
                old(self).tables_view(),
                contract_names(cs@),
                s,
            ),
            thinned(final(self).tables_view(), old(self).tables_view()),
            final(self).slots == old(self).slots,
            final(self).ids == old(self).ids,
            final(self).time == old(self).time,
            final(self).next_serial == old(self).next_serial,
    {
        let ghost t0 = self.tables_view();
        let ghost names = contract_names(cs@);
        let n = cs.len();
        proof {
            assert(names.take(0) =~= Seq::<Seq<char>>::empty());
        }
        for i in 0..n
            invariant
                n == cs@.len(),
                names == contract_names(cs@),
                forall|c: Seq<char>| #[trigger] t0.contains_key(c) ==> t0[c].len() > 0,
                self.tables.wf(),
                self.tables_view() == unsubscribe(t0, names.take(i as int), s),
                thinned(self.tables_view(), t0),
                self.slots == old(self).slots,
                self.ids == old(self).ids,
                self.time == old(self).time,
                self.next_serial == old(self).next_serial,
        {
            let ghost prev = self.tables_view();
            let ghost c = cs@[i as int]@;
            proof {
                assert(names.take(i as int + 1).drop_last() =~= names.take(i as int));
                assert(names.take(i as int + 1).last() == c);
            }
            match self.tables.remove(&cs[i]) {
                Some(l) => {
                    let rest = without_serial(&l, s);
                    proof {
                        lemma_without(l@, s);
                        assert(l@ == prev[c]);
                    }
                    if rest.len() > 0 {
                        self.tables.insert(cs[i].clone(), rest);
                        proof {
                            assert(self.tables_view() =~= prev.insert(c, rest@));
                            assert forall|c2: Seq<char>, k: int|
                                self.tables_view().contains_key(c2) && 0 <= k
                                    < self.tables_view()[c2].len() implies t0[c2].contains(
                                #[trigger] self.tables_view()[c2][k],
                            ) by {
                                if c2 == c {
                                    let e = rest@[k];
                                    assert(l@.contains(e));
                                    let j = choose|j: int| 0 <= j < l@.len() && l@[j] == e;
                                    assert(t0[c].contains(prev[c][j]));
                                } else {
                                    assert(self.tables_view()[c2] == prev[c2]);
                                }
                            }
                        }
                    } else {
                        proof {
                            assert(self.tables_view() =~= prev.remove(c));
                            assert forall|c2: Seq<char>, k: int|
                                self.tables_view().contains_key(c2) && 0 <= k
                                    < self.tables_view()[c2].len() implies t0[c2].contains(
                                #[trigger] self.tables_view()[c2][k],
                            ) by {
                                assert(self.tables_view()[c2] == prev[c2]);
                            }
                        }
                    }
                },
                None => {
                    proof {
                        assert(self.tables_view() =~= prev);
                    }
                },
            }
        }
        proof {
            assert(names.take(n as int) =~= names);
        }
    }
    /// Adds an actor under its id, replacing the entry of an earlier actor
    /// with that id, and appends it to the list of each contract it depends
    /// on. The new actor gets the number `next_serial_spec()`.
    pub fn add_actor(&mut self, actor: ActorHandle<A>)
        requires
            old(self).wf(),
            old(self).next_serial_spec() < u64::MAX,
        ensures
            final(self).wf(),
            final(self).time_spec() == old(self).time_spec(),
            final(self).next_serial_spec() == old(self).next_serial_spec() + 1,
            final(self).ids_view() == old(self).ids_view().insert(
                actor.id_spec(),
                old(self).next_serial_spec(),
            ),
            final(self).tables_view() == subscribe(
                old(self).tables_view(),
                actor.contracts_spec(),
                old(self).next_serial_spec(),
            ),
            final(self).actors().contains_key(old(self).next_serial_spec()),
            final(self).actors()[old(self).next_serial_spec()] == actor,
            forall|s: u64|
                s != old(self).next_serial_spec() && #[trigger] final(self).actors().contains_key(s)
                    ==> old(self).actors().contains_key(s) && final(self).actors()[s] == old(
                    self,
                ).actors()[s],
    {
        let ghost t0 = self.tables_view();
        let ghost info0 = self.info();
        let ghost a0 = self.actors();
        let ghost ids0 = self.ids_view();
        let s = self.next_serial;
        let id = actor.actor_id();
        let cs = actor.contracts();
        let ghost names = contract_names(cs@);
        let ghost handle = actor;
        self.next_serial = s + 1;
        self.slots.insert(s, actor);
        let displaced = self.ids.insert(id, s);
        let ghost a1 = self.actors();
        let ghost ids1 = self.ids_view();
        proof {
            assert(!info0.contains_key(s));
            assert(self.info() =~= info0.insert(s, (id, names)));
            assert forall|x: u64| #[trigger] info0.contains_key(x) implies self.info()[x] == info0[x] by {
                assert(x != s);
            }
            assert forall|id2: u32| #[trigger]
                self.ids_view().contains_key(id2) implies self.info().contains_key(
                self.ids_view()[id2],
            ) && self.info()[self.ids_view()[id2]].0 == id2 by {
                if id2 != id {
                    assert(ids0.contains_key(id2));
                }
            }
            assert forall|c: Seq<char>, k: int|
                t0.contains_key(c) && 0 <= k < t0[c].len() implies self.info().contains_key(
                #[trigger] t0[c][k],
            ) && self.info()[t0[c][k]].1.contains(c) by {
                assert(info0.contains_key(t0[c][k]));
            }
            assert(names.take(0) =~= Seq::<Seq<char>>::empty());
        }
        let n = cs.len();
        for i in 0..n
            invariant
                n == cs@.len(),
                names == contract_names(cs@),
                self.wf(),
                self.info().contains_key(s),
                self.info()[s] == (id, names),
                self.tables_view() == subscribe(t0, names.take(i as int), s),
                self.actors() == a1,
                self.ids_view() == ids1,
                self.next_serial == s + 1,
                self.time == old(self).time,
        {
            let ghost prev = self.tables_view();
            let ghost c = cs@[i as int]@;
            proof {
                assert(names.take(i as int + 1).drop_last() =~= names.take(i as int));
                assert(names.take(i as int + 1).last() == c);
                assert(names[i as int] == c);
                assert(self.info()[s].1.contains(c));
            }
            let key = cs[i].clone();
            match self.tables.remove(&cs[i]) {
                Some(l) => {
                    let mut l = l;
                    l.push(s);
                    self.tables.insert(key, l);
                    proof {
                        assert(self.tables_view() =~= prev.insert(c, prev[c].push(s)));
                    }
                },
                None => {
                    let mut l: Vec<u64> = Vec::new();
                    l.push(s);
                    self.tables.insert(key, l);
                    proof {
                        assert(self.tables_view() =~= prev.insert(c, seq![s]));
                    }
                },
            }
            proof {
                let t = self.tables_view();
                assert forall|c2: Seq<char>, k: int|
                    t.contains_key(c2) && 0 <= k < t[c2].len() implies self.info().contains_key(
                    #[trigger] t[c2][k],
                ) && self.info()[t[c2][k]].1.contains(c2) by {
                    if c2 != c || k < t[c2].len() - 1 {
                        assert(prev.contains_key(c2));
                        assert(t[c2][k] == prev[c2][k]);
                    }
                }
            }
        }
        proof {
            assert(names.take(n as int) =~= names);
        }
        match displaced {
            Some(old_s) => {
                self.collect_if_unreferenced(old_s);
            },
            None => {},
        }
    }

    /// Removes the actor registered under `id`, if any, from the id map and
    /// from the lists of all its contracts.
    pub fn remove_actor_by_id(&mut self, id: u32)
        requires
            old(self).wf(),
        ensures
            final(self).wf(),
            final(self).time_spec() == old(self).time_spec(),
            final(self).next_serial_spec() == old(self).next_serial_spec(),
            final(self).ids_view() == old(self).ids_view().remove(id),
            final(self).tables_view() == if old(self).ids_view().contains_key(id) {
                unsubscribe(
                    old(self).tables_view(),
                    old(self).info()[old(self).ids_view()[id]].1,
                    old(self).ids_view()[id],
                )
            } else {
                old(self).tables_view()
            },
            forall|s: u64| #[trigger]
                final(self).actors().contains_key(s) ==> old(self).actors().contains_key(s)
                    && final(self).actors()[s] == old(self).actors()[s],
    {
        let ghost t0 = self.tables_view();
        match self.ids.remove(&id) {
            None => {},
            Some(s) => {
                let cs = self.slots.get(&s).unwrap().contracts();
                self.remove_actor_from_contract_tables(s, &cs);
                proof {
                    lemma_thinned_consistent(
                        self.ids_view(),
                        t0,
                        self.tables_view(),
                        self.info(),
                        self.next_serial,
                    );
                }
                self.collect_if_unreferenced(s);
            },
        }
    }
    /// Ticks, in order, the actors listed under the contract of `delta`, with
    /// the current time. An actor that fails loses its place in the id map and
    /// in the lists of all its contracts; the list of the contract keeps the
    /// actors that succeeded and is dropped if none did. The time then moves
    /// on by one.
    pub fn tick_delta(&mut self, delta: &Delta)
        requires
            old(self).wf(),
            old(self).time_spec() < u64::MAX,
        ensures
            final(self).wf(),
            final(self).time_spec() == old(self).time_spec() + 1,
            final(self).next_serial_spec() == old(self).next_serial_spec(),
            !old(self).tables_view().contains_key(delta.0@) ==> {
                &&& final(self).ids_view() == old(self).ids_view()
                &&& final(self).tables_view() == old(self).tables_view()
                &&& final(self).actors() == old(self).actors()
            },
            old(self).tables_view().contains_key(delta.0@) ==> exists|
                ok: Seq<bool>,
                states: Seq<Map<u64, ActorHandle<A>>>,
                ctx: ActorExecutionContext,
            |
                {
                    &&& #[trigger] tick_run(states, old(self).tables_view()[delta.0@], ctx, ok)
                    &&& ctx.time_spec() == old(self).time_spec()
                    &&& states[0] == old(self).actors()
                    &&& (final(self).ids_view(), final(self).tables_view()) == tick_result(
                        old(self).ids_view(),
                        old(self).tables_view(),
                        old(self).info(),
                        delta.0@,
                        ok,
                    )
                    &&& forall|s: u64| #[trigger]
                        final(self).actors().contains_key(s) ==> final(self).actors()[s]
                            == states.last()[s]
                },
            forall|s: u64| #[trigger]
                final(self).actors().contains_key(s) ==> old(self).actors().contains_key(s)
                    && final(self).info()[s] == old(self).info()[s],
            forall|s: u64| #[trigger]
                final(self).actors().contains_key(s) ==> (old(self).tables_view().contains_key(
                    delta.0@,
                ) && old(self).tables_view()[delta.0@].contains(s)) || final(self).actors()[s]
                    == old(self).actors()[s],
    {
        let ghost c = delta.0@;
        let ghost t0 = self.tables_view();
        let ghost ids0 = self.ids_view();
        let ghost info0 = self.info();
        let ghost a0 = self.actors();
        let ghost mut ok: Seq<bool> = Seq::empty();
        let ghost mut states: Seq<Map<u64, ActorHandle<A>>> = seq![self.actors()];
        let ctx = ActorExecutionContext::new(self.time);
        let contract = &delta.0;
        match self.tables.remove(contract) {
            None => {
                proof {
                    assert(self.tables_view() =~= t0);
                }
            },
            Some(list) => {
                let mut survivors: Vec<u64> = Vec::new();
                let n = list.len();
                proof {
                    assert(list@ == t0[c]);
                    assert(self.tables_view() =~= t0.remove(c));
                    assert(thinned(t0.remove(c), t0));
                    lemma_thinned_consistent(ids0, t0, t0.remove(c), info0, self.next_serial);
                    assert(list@.take(0) =~= Seq::<u64>::empty());
                    assert forall|k: int| 0 <= k < list@.len() implies info0.contains_key(
                        #[trigger] list@[k],
                    ) && info0[list@[k]].1.contains(c) by {
                        assert(t0[c][k] == list@[k]);
                    }
                }
                for i in 0..n
                    invariant
                        n == list@.len(),
                        list@ == t0[c],
                        t0.contains_key(c),
                        forall|k: int|
                            0 <= k < list@.len() ==> info0.contains_key(#[trigger] list@[k])
                                && info0[list@[k]].1.contains(c),
                        self.slots.wf(),
                        self.ids.wf(),
                        self.tables.wf(),
                        ok.len() == i,
                        ctx.time_spec() == old(self).time_spec(),
                        states.len() == i + 1,
                        states[0] == a0,
                        states.last() == self.actors(),
                        forall|k: int|
                            #![trigger list@[k]]
                            0 <= k < i ==> {
                                &&& states[k].contains_key(list@[k])
                                &&& states[k + 1] == states[k].insert(
                                    list@[k],
                                    states[k + 1][list@[k]],
                                )
                                &&& states[k][list@[k]].ticks(ctx, states[k + 1][list@[k]], ok[k])
                            },
                        (self.ids_view(), self.tables_view(), survivors@) == tick_outcome(
                            ids0,
                            t0.remove(c),
                            info0,
                            list@.take(i as int),
                            ok,
                        ),
                        self.info() == info0,
                        index_consistent(
                            self.ids_view(),
                            self.tables_view(),
                            info0,
                            self.next_serial,
                        ),
                        forall|k: int|
                            0 <= k < survivors@.len() ==> info0.contains_key(
                                #[trigger] survivors@[k],
                            ) && info0[survivors@[k]].1.contains(c),
                        forall|x: u64|
                            #[trigger] self.actors().contains_key(x) && !list@.contains(x)
                                ==> self.actors()[x] == a0[x],
                        self.time == old(self).time,
                        self.next_serial == old(self).next_serial,
                {
                    let s = list[i];
                    let ghost prev_ids = self.ids_view();
                    let ghost prev_t = self.tables_view();
                    let ghost prev_a = self.actors();
                    proof {
                        assert(list@.take(i as int + 1).drop_last() =~= list@.take(i as int));
                        assert(list@.take(i as int + 1).last() == s);
                        assert(info0.contains_key(s));
                    }
                    let mut h = self.slots.remove(&s).unwrap();
                    let ghost h0 = h;
                    let r = h.tick(&ctx);
                    self.slots.insert(s, h);
                    proof {
                        assert(self.actors() =~= prev_a.insert(s, h));
                        let ghost prev_states = states;
                        states = states.push(self.actors());
                        assert(h0 == prev_a[s]);
                        assert forall|k: int|
                            #![trigger list@[k]]
                            0 <= k < i + 1 implies {
                                &&& states[k].contains_key(list@[k])
                                &&& states[k + 1] == states[k].insert(
                                    list@[k],
                                    states[k + 1][list@[k]],
                                )
                                &&& states[k][list@[k]].ticks(
                                    ctx,
                                    states[k + 1][list@[k]],
                                    ok.push(r is Some)[k],
                                )
                            } by {
                            if k < i {
                                assert(states[k] == prev_states[k]);
                                assert(states[k + 1] == prev_states[k + 1]);
                                assert(ok.push(r is Some)[k] == ok[k]);
                            } else {
                                assert(states[k] == prev_a);
                                assert(list@[k] == s);
                                assert(states[k + 1] =~= prev_a.insert(s, h));
                            }
                        }
                        assert(self.info() =~= info0);
                        assert forall|x: u64|
                            #[trigger] self.actors().contains_key(x) && !list@.contains(
                                x,
                            ) implies self.actors()[x] == a0[x] by {
                            assert(x != s);
                        }
                    }
                    if r.is_some() {
                        survivors.push(s);
                        proof {
                            let ok2 = ok.push(true);
                            assert(ok2.drop_last() =~= ok);
                            ok = ok2;
                        }
                    } else {
                        proof {
                            let ok2 = ok.push(false);
                            assert(ok2.drop_last() =~= ok);
                            ok = ok2;
                        }
                        let h = self.slots.get(&s).unwrap();
                        let id = h.actor_id();
                        let cs = h.contracts();
                        let own = match self.ids.get(&id) {
                            Some(t) => *t == s,
                            None => false,
                        };
                        if own {
                            self.ids.remove(&id);
                        }
                        proof {
                            assert(self.ids_view() =~= forget_id(prev_ids, info0[s].0, s));
                            assert forall|id2: u32| #[trigger]
                                self.ids_view().contains_key(id2) implies info0.contains_key(
                                self.ids_view()[id2],
                            ) && info0[self.ids_view()[id2]].0 == id2 by {
                                assert(prev_ids.contains_key(id2));
                            }
                        }
                        self.remove_actor_from_contract_tables(s, &cs);
                        proof {
                            lemma_thinned_consistent(
                                self.ids_view(),
                                prev_t,
                                self.tables_view(),
                                info0,
                                self.next_serial,
                            );
                        }
                    }
                }
                proof {
                    assert(list@.take(n as int) =~= list@);
                }
                let ghost t1 = self.tables_view();
                if survivors.len() > 0 {
                    self.tables.insert(contract.clone(), survivors);
                    proof {
                        assert(self.tables_view() =~= t1.insert(c, survivors@));
                    }
                }
                let ghost a1 = self.actors();
                proof {
                    assert(actor_info(a1) == info0);
                }
                let ghost ids_f = self.ids_view();
                let ghost t_f = self.tables_view();
                for i in 0..n
                    invariant
                        n == list@.len(),
                        self.wf(),
                        self.ids_view() == ids_f,
                        self.tables_view() == t_f,
                        self.time == old(self).time,
                        self.next_serial == old(self).next_serial,
                        forall|x: u64| #[trigger]
                            self.actors().contains_key(x) ==> a1.contains_key(x)
                                && self.actors()[x] == a1[x],
                {
                    let ghost prev_a = self.actors();
                    self.collect_if_unreferenced(list[i]);
                    proof {
                        assert forall|x: u64| #[trigger]
                            self.actors().contains_key(x) implies a1.contains_key(x)
                                && self.actors()[x] == a1[x] by {
                            assert(prev_a.contains_key(x));
                        }
                    }
                }
                proof {
                    assert(tick_run(states, t0[c], ctx, ok));
                    assert(states[0] == old(self).actors());
                    assert forall|x: u64| #[trigger]
                        self.actors().contains_key(x) implies self.actors()[x] == states.last()[x] by {
                        assert(a1.contains_key(x));
                    }
                    assert(tick_result(ids0, t0, info0, c, ok) == (
                        self.ids_view(),
                        self.tables_view(),
                    ));
                    assert forall|x: u64| #[trigger]
                        self.actors().contains_key(x) implies a0.contains_key(x)
                            && self.info()[x] == info0[x] by {
                        assert(a1.contains_key(x));
                        assert(actor_info(a1).contains_key(x));
                        assert(info0.contains_key(x));
                        assert(a0.contains_key(x));
                        assert(self.actors()[x] == a1[x]);
                        assert(actor_info(a1)[x] == (a1[x].id_spec(), a1[x].contracts_spec()));
                        assert(self.info()[x] == (self.actors()[x].id_spec(), self.actors()[x].contracts_spec()));
                    }
                }
            },
        }
        self.time = self.time + 1;
    }
}

/// An actor just added is what its id finds: where the id map and the actors
/// of `after` are those that `add_actor` leaves from `before`, the id of the
/// actor names it.
pub proof fn lemma_added_actor_is_found<A: ActorTrait>(
    before: ActorController<A>,
    after: ActorController<A>,
    actor: ActorHandle<A>,
)
    requires
        after.ids_view() == before.ids_view().insert(actor.id_spec(), before.next_serial_spec()),
        after.actors().contains_key(before.next_serial_spec()),
        after.actors()[before.next_serial_spec()] == actor,
    ensures
        after.ids_view().contains_key(actor.id_spec()),
        after.actors()[after.ids_view()[actor.id_spec()]] == actor,
{
}

/// After `remove_actor_by_id(id)` nothing is found under `id`, and every other
/// id finds what it found before.
pub proof fn lemma_removed_id_is_gone<A: ActorTrait>(
    before: ActorController<A>,
    after: ActorController<A>,
    id: u32,
)
    requires
        after.ids_view() == before.ids_view().remove(id),
    ensures
        !after.ids_view().contains_key(id),
        forall|other: u32|
            other != id ==> (after.ids_view().contains_key(other) == before.ids_view().contains_key(
                other,
            ) && (#[trigger] after.ids_view().contains_key(other) ==> after.ids_view()[other]
                == before.ids_view()[other])),
{
}

impl<A: ActorTrait> Default for ActorController<A> {
    fn default() -> (r: Self)
        ensures
            r.wf(),
            r.time_spec() == 0,
            r.next_serial_spec() == 0,
            r.actors() == Map::<u64, ActorHandle<A>>::empty(),
            r.ids_view() == Map::<u32, u64>::empty(),
            r.tables_view() == Map::<Seq<char>, Seq<u64>>::empty(),
    {
        Self::new()
    }
}

} // verus!
