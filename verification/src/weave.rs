//! Weaving: ordering nodes by the channels they read and write, then building
//! them in that order.
use vstd::prelude::*;

use crate::errors::RegistryError;
use crate::graph::{
    acyclic, adjacency, edges_wf, on_cycle, is_topological_order, strictly_increasing,
    topo_order_or_cycle,
};
use crate::registry::{ChannelRegistry, ChannelValue};
use crate::text::{index_list_text, missing_producer_message, missing_producer_text};

verus! {

/// The names of a list of channels.
pub open spec fn names_view(v: Seq<String>) -> Seq<Seq<char>> {
    v.map_values(|s: String| s@)
}

/// Something that can be woven into a node of a graph whose edges are channels.
///
/// The spec functions describe an implementation; each implementation in this
/// library defines them, and where one does not they stay unspecified.
pub trait WeaveNode<E>: Sized {
    /// The channels this node reads.
    open spec fn input_names(&self) -> Seq<Seq<char>> {
        arbitrary()
    }

    /// The channels this node writes.
    open spec fn output_names(&self) -> Seq<Seq<char>> {
        arbitrary()
    }

    /// Input channels used for topological sorting before weaving.
    fn input_channels(&self) -> (r: Vec<String>)
        ensures
            names_view(r@) == self.input_names(),
    ;

    /// Output channels used for topological sorting before weaving.
    fn output_channels(&self) -> (r: Vec<String>)
        ensures
            names_view(r@) == self.output_names(),
    ;

    /// Whether registering into channels `channels` succeeds.
    open spec fn register_ok(&self, channels: Map<Seq<char>, ChannelValue>) -> bool {
        arbitrary()
    }

    /// The channels after registering into channels `channels`.
    open spec fn registered(&self, channels: Map<Seq<char>, ChannelValue>) -> Map<
        Seq<char>,
        ChannelValue,
    > {
        arbitrary()
    }

    /// Whether weaving against channels `channels` succeeds.
    open spec fn weave_ok(&self, channels: Map<Seq<char>, ChannelValue>) -> bool {
        arbitrary()
    }

    /// The channels after weaving against channels `channels`.
    open spec fn woven(&self, channels: Map<Seq<char>, ChannelValue>) -> Map<
        Seq<char>,
        ChannelValue,
    > {
        arbitrary()
    }

    /// Whether `woven` is a value that weaving against channels `channels`
    /// can give.
    open spec fn weaves_to(&self, channels: Map<Seq<char>, ChannelValue>, woven: E) -> bool {
        arbitrary()
    }

    /// Registers the channels this node provides (usually its outputs).
    fn register_channels(&self, channels: &mut ChannelRegistry) -> (r: Result<(), RegistryError>)
        ensures
            r is Ok <==> self.register_ok(old(channels)@),
            final(channels)@ == self.registered(old(channels)@),
    ;

    /// Builds the node against the channels of the registry.
    fn weave(&self, channels: &mut ChannelRegistry) -> (r: Result<E, RegistryError>)
        ensures
            r is Ok <==> self.weave_ok(old(channels)@),
            r matches Ok(x) ==> self.weaves_to(old(channels)@, x),
            final(channels)@ == self.woven(old(channels)@),
    ;
}

/// Items in an order in which every item comes after the items it depends on.
pub struct TopoOrdered<T>(pub Vec<T>);

impl<T> TopoOrdered<T> {
    /// The ordered items.
    pub fn items(&self) -> (r: &Vec<T>)
        ensures
            r == &self.0,
    {
        &self.0
    }

    /// The number of items.
    pub fn len(&self) -> (r: usize)
        ensures
            r == self.0@.len(),
    {
        self.0.len()
    }
}

/// The input channels of each node.
pub open spec fn inputs_of<E, W: WeaveNode<E>>(nodes: Seq<W>) -> Seq<Seq<Seq<char>>> {
    nodes.map_values(|w: W| w.input_names())
}

/// The output channels of each node.
pub open spec fn outputs_of<E, W: WeaveNode<E>>(nodes: Seq<W>) -> Seq<Seq<Seq<char>>> {
    nodes.map_values(|w: W| w.output_names())
}

/// The last of the first `k` nodes that writes channel `ch`.
pub open spec fn producer_among(outs: Seq<Seq<Seq<char>>>, ch: Seq<char>, k: int) -> Option<int>
    decreases k,
{
    if k <= 0 {
        None
    } else if outs[k - 1].contains(ch) {
        Some(k - 1)
    } else {
        producer_among(outs, ch, k - 1)
    }
}

/// The node that produces channel `ch`: the last node that writes it.
pub open spec fn producer(outs: Seq<Seq<Seq<char>>>, ch: Seq<char>) -> Option<int> {
    producer_among(outs, ch, outs.len() as int)
}

/// Node `v` depends on node `u`: `u` produces one of `v`'s input channels.
pub open spec fn depends_on(
    ins: Seq<Seq<Seq<char>>>,
    outs: Seq<Seq<Seq<char>>>,
    u: int,
    v: int,
) -> bool {
    u != v && exists|j: int| 0 <= j < ins[v].len() && producer(outs, #[trigger] ins[v][j]) == Some(u)
}

/// Input `j` of node `v` has no producer and no channel in the registry.
pub open spec fn unproduced(
    ins: Seq<Seq<Seq<char>>>,
    outs: Seq<Seq<Seq<char>>>,
    channels: Map<Seq<char>, ChannelValue>,
    v: int,
    j: int,
) -> bool {
    0 <= v < ins.len() && 0 <= j < ins[v].len() && producer(outs, ins[v][j]) is None
        && !channels.contains_key(ins[v][j])
}

/// The dependency graph of the nodes: an edge from `u` to `v` when `v` depends on `u`,
/// each adjacency list in increasing order.
pub open spec fn is_dependency_graph(
    ins: Seq<Seq<Seq<char>>>,
    outs: Seq<Seq<Seq<char>>>,
    e: Seq<Seq<usize>>,
) -> bool {
    &&& e.len() == ins.len()
    &&& forall|u: int| 0 <= u < e.len() ==> strictly_increasing(#[trigger] e[u])
    &&& forall|u: int, v: usize|
        0 <= u < e.len() ==> (#[trigger] e[u].contains(v) <==> (v < e.len() && depends_on(
            ins,
            outs,
            u,
            v as int,
        )))
}

proof fn lemma_producer_among_bound(outs: Seq<Seq<Seq<char>>>, ch: Seq<char>, k: int)
    ensures
        producer_among(outs, ch, k) matches Some(p) ==> 0 <= p < k && outs[p].contains(ch),
    decreases k,
{
    if k > 0 {
        lemma_producer_among_bound(outs, ch, k - 1);
    }
}

/// Channels mapped to the node that produces them.
pub struct ProducerMap {
    entries: Vec<(String, usize)>,
}

/// The entry of channel `ch`, if there is one.
closed spec fn entry_of(s: Seq<(String, usize)>, ch: Seq<char>) -> Option<int> {
    if exists|i: int| 0 <= i < s.len() && (#[trigger] s[i]).0@ == ch {
        Some(choose|i: int| 0 <= i < s.len() && (#[trigger] s[i]).0@ == ch)
    } else {
        None
    }
}

/// No two entries name the same channel.
closed spec fn entries_distinct(s: Seq<(String, usize)>) -> bool {
    forall|i: int, j: int|
        0 <= i < s.len() && 0 <= j < s.len() && i != j ==> (#[trigger] s[i]).0@ != (#[trigger] s[j]).0@
}

proof fn lemma_entry_of(s: Seq<(String, usize)>, i: int)
    requires
        entries_distinct(s),
        0 <= i < s.len(),
    ensures
        entry_of(s, s[i].0@) == Some(i),
{
    let k = s[i].0@;
    assert(exists|j: int| 0 <= j < s.len() && (#[trigger] s[j]).0@ == k);
}

impl ProducerMap {
    #[verifier::type_invariant]
    closed spec fn wf(self) -> bool {
        entries_distinct(self.entries@)
    }

    /// The producer of each channel that has one.
    pub closed spec fn producers(self) -> Map<Seq<char>, usize> {
        Map::new(
            |ch: Seq<char>| entry_of(self.entries@, ch) is Some,
            |ch: Seq<char>| self.entries@[entry_of(self.entries@, ch)->0].1,
        )
    }

    /// An empty map.
    pub fn new() -> (r: ProducerMap)
        ensures
            r.producers() == Map::<Seq<char>, usize>::empty(),
    {
        let r = ProducerMap { entries: Vec::new() };
        assert(r.producers() =~= Map::<Seq<char>, usize>::empty());
        r
    }

    fn find(&self, ch: &String) -> (r: Option<usize>)
        ensures
            r matches Some(i) ==> entry_of(self.entries@, ch@) == Some(i as int) && i
                < self.entries@.len(),
            r is None ==> entry_of(self.entries@, ch@) is None,
    {
        proof {
            use_type_invariant(self);
        }
        let n = self.entries.len();
        for i in 0..n
            invariant
                n == self.entries@.len(),
                entries_distinct(self.entries@),
                forall|j: int| 0 <= j < i ==> (#[trigger] self.entries@[j]).0@ != ch@,
        {
            if self.entries[i].0 == *ch {
                proof {
                    lemma_entry_of(self.entries@, i as int);
                }
                return Some(i);
            }
        }
        None
    }

    /// The producer of channel `ch`.
    pub fn get(&self, ch: &String) -> (r: Option<usize>)
        ensures
            r matches Some(p) ==> self.producers().contains_key(ch@) && self.producers()[ch@]
                == p,
            r is None ==> !self.producers().contains_key(ch@),
    {
        match self.find(ch) {
            Some(i) => Some(self.entries[i].1),
            None => None,
        }
    }

    /// Records `node` as the producer of `ch`, replacing any earlier producer.
    pub fn insert(&mut self, ch: String, node: usize)
        ensures
            final(self).producers() == old(self).producers().insert(ch@, node),
    {
        proof {
            use_type_invariant(&*self);
        }
        let found = self.find(&ch);
        let mut entries: Vec<(String, usize)> = Vec::new();
        std::mem::swap(&mut entries, &mut self.entries);
        let ghost s = entries@;
        let ghost key = ch@;
        match found {
            Some(i) => {
                let ghost t = s.update(i as int, (ch, node));
                proof {
                    assert(entries_distinct(t)) by {
                        assert forall|a: int, b: int|
                            0 <= a < t.len() && 0 <= b < t.len() && a != b implies (
                            #[trigger] t[a]).0@ != (#[trigger] t[b]).0@ by {
                            assert(s[a].0@ != s[b].0@);
                        }
                    }
                    lemma_entry_of(t, i as int);
                    assert forall|k: Seq<char>| k != key implies entry_of(t, k) == entry_of(s, k) by {
                        if entry_of(s, k) is Some {
                            let j = entry_of(s, k)->0;
                            assert(s[j].0@ == k);
                            lemma_entry_of(t, j);
                        }
                        if entry_of(t, k) is Some {
                            let j = entry_of(t, k)->0;
                            assert(t[j].0@ == k);
                            assert(s[j].0@ == k);
                        }
                    }
                }
                entries.set(i, (ch, node));
                proof {
                    assert(entries@ == t);
                }
            },
            None => {
                let ghost t = s.push((ch, node));
                proof {
                    let n = s.len() as int;
                    assert(entries_distinct(t)) by {
                        assert forall|a: int, b: int|
                            0 <= a < t.len() && 0 <= b < t.len() && a != b implies (
                            #[trigger] t[a]).0@ != (#[trigger] t[b]).0@ by {
                            if a < n && b < n {
                                assert(s[a].0@ != s[b].0@);
                            } else if a < n {
                                assert(s[a].0@ != key);
                            } else {
                                assert(s[b].0@ != key);
                            }
                        }
                    }
                    lemma_entry_of(t, n);
                    assert forall|k: Seq<char>| k != key implies entry_of(t, k) == entry_of(s, k) by {
                        if entry_of(s, k) is Some {
                            let j = entry_of(s, k)->0;
                            assert(s[j].0@ == k);
                            assert(t[j] == s[j]);
                            lemma_entry_of(t, j);
                        }
                        if entry_of(t, k) is Some {
                            let j = entry_of(t, k)->0;
                            assert(t[j].0@ == k);
                            assert(j != n);
                            assert(s[j].0@ == k);
                        }
                    }
                }
                entries.push((ch, node));
                proof {
                    assert(entries@ == t);
                }
            },
        }
        self.entries = entries;
        proof {
            let m = old(self).producers().insert(key, node);
            assert(self.producers() =~= m) by {
                assert forall|k: Seq<char>| k != key && entry_of(self.entries@, k) is Some implies self.entries@[entry_of(
                    self.entries@,
                    k,
                )->0].1 == s[entry_of(s, k)->0].1 by {
                    let j = entry_of(self.entries@, k)->0;
                    assert(self.entries@[j].0@ == k);
                }
            }
        }
    }
}

/// Registering the first `k` nodes, in order, into channels `channels`,
/// stopping at the first failure: the channels afterwards, and whether every
/// registration succeeded.
pub open spec fn register_prefix<E, W: WeaveNode<E>>(
    nodes: Seq<W>,
    k: nat,
    channels: Map<Seq<char>, ChannelValue>,
) -> (Map<Seq<char>, ChannelValue>, bool)
    decreases k,
{
    if k == 0 {
        (channels, true)
    } else {
        let (m, ok) = register_prefix::<E, W>(nodes, (k - 1) as nat, channels);
        if !ok {
            (m, false)
        } else {
            (nodes[k - 1].registered(m), nodes[k - 1].register_ok(m))
        }
    }
}

/// After a failed registration, registering further nodes changes nothing.
proof fn lemma_register_prefix_stops<E, W: WeaveNode<E>>(
    nodes: Seq<W>,
    j: nat,
    k: nat,
    channels: Map<Seq<char>, ChannelValue>,
)
    requires
        j <= k,
        !register_prefix::<E, W>(nodes, j, channels).1,
    ensures
        register_prefix::<E, W>(nodes, k, channels) == register_prefix::<E, W>(nodes, j, channels),
    decreases k,
{
    if k > j {
        lemma_register_prefix_stops::<E, W>(nodes, j, (k - 1) as nat, channels);
    }
}

/// Registers the channels of every node, in order, stopping at the first error.
pub fn register_all_channels<E, W: WeaveNode<E>>(nodes: &[W], registry: &mut ChannelRegistry) -> (r:
    Result<(), RegistryError>)
    ensures
        (final(registry)@, r is Ok) == register_prefix::<E, W>(
            nodes@,
            nodes@.len(),
            old(registry)@,
        ),
{
    let n = nodes.len();
    for i in 0..n
        invariant
            n == nodes@.len(),
            register_prefix::<E, W>(nodes@, i as nat, old(registry)@) == (registry@, true),
    {
        let res = nodes[i].register_channels(registry);
        if res.is_err() {
            proof {
                lemma_register_prefix_stops::<E, W>(
                    nodes@,
                    (i + 1) as nat,
                    n as nat,
                    old(registry)@,
                );
            }
            return res;
        }
    }
    Ok(())
}

/// Maps each output channel to the last node that writes it.
pub fn producer_map<E, W: WeaveNode<E>>(nodes: &[W]) -> (r: ProducerMap)
    ensures
        forall|ch: Seq<char>|
            #![trigger r.producers().contains_key(ch)]
            r.producers().contains_key(ch) <==> producer(outputs_of(nodes@), ch) is Some,
        forall|ch: Seq<char>|
            #![trigger r.producers()[ch]]
            r.producers().contains_key(ch) ==> r.producers()[ch] == producer(
                outputs_of(nodes@),
                ch,
            )->0,
{
    let ghost outs = outputs_of(nodes@);
    let mut map = ProducerMap::new();
    let n = nodes.len();
    for i in 0..n
        invariant
            n == nodes@.len(),
            outs == outputs_of(nodes@),
            forall|ch: Seq<char>|
                #![trigger map.producers().contains_key(ch)]
                map.producers().contains_key(ch) <==> producer_among(outs, ch, i as int) is Some,
            forall|ch: Seq<char>|
                #![trigger map.producers()[ch]]
                map.producers().contains_key(ch) ==> map.producers()[ch] == producer_among(
                    outs,
                    ch,
                    i as int,
                )->0,
    {
        let chans = nodes[i].output_channels();
        let m = chans.len();
        assert(names_view(chans@) == outs[i as int]);
        for j in 0..m
            invariant
                n == nodes@.len(),
                0 <= i < n,
                outs == outputs_of(nodes@),
                m == chans@.len(),
                names_view(chans@) == outs[i as int],
                forall|ch: Seq<char>|
                    #![trigger map.producers().contains_key(ch)]
                    map.producers().contains_key(ch) <==> (producer_among(outs, ch, i as int) is Some
                        || names_view(chans@).take(j as int).contains(ch)),
                forall|ch: Seq<char>|
                    #![trigger map.producers()[ch]]
                    map.producers().contains_key(ch) ==> map.producers()[ch] == if names_view(
                        chans@,
                    ).take(j as int).contains(ch) {
                        i as int
                    } else {
                        producer_among(outs, ch, i as int)->0
                    },
        {
            let ch = chans[j].clone();
            let ghost name = ch@;
            assert(names_view(chans@)[j as int] == name);
            map.insert(ch, i);
            proof {
                let before = names_view(chans@).take(j as int);
                let after = names_view(chans@).take(j + 1);
                assert(after =~= before.push(name));
                assert forall|c: Seq<char>| after.contains(c) <==> (before.contains(c) || c == name) by {
                    if after.contains(c) {
                        let k = choose|k: int| 0 <= k < after.len() && after[k] == c;
                        if k < before.len() {
                            assert(before[k] == c);
                        }
                    }
                    if before.contains(c) {
                        let k = choose|k: int| 0 <= k < before.len() && before[k] == c;
                        assert(after[k] == c);
                    }
                    if c == name {
                        assert(after[j as int] == c);
                    }
                }
            }
        }
        proof {
            assert(names_view(chans@).take(m as int) =~= names_view(chans@));
        }
    }
    map
}

/// Input `j` of node `v` comes before input `j2` of node `v2` in the order
/// in which the nodes and their inputs are examined.
pub open spec fn examined_before(v: int, j: int, v2: int, j2: int) -> bool {
    v < v2 || (v == v2 && j < j2)
}

/// Output `j` of node `v` is also written by an earlier node.
pub open spec fn written_before(outs: Seq<Seq<Seq<char>>>, v: int, j: int) -> bool {
    0 <= v < outs.len() && 0 <= j < outs[v].len() && producer_among(outs, outs[v][j], v) is Some
}

/// Whether one of the channels `chans` is named `ch`.
fn names_contain(chans: &Vec<String>, ch: &String) -> (r: bool)
    ensures
        r == names_view(chans@).contains(ch@),
{
    let m = chans.len();
    for k in 0..m
        invariant
            m == chans@.len(),
            forall|i: int| 0 <= i < k ==> names_view(chans@)[i] != ch@,
    {
        if chans[k] == *ch {
            proof {
                assert(names_view(chans@)[k as int] == ch@);
            }
            return true;
        }
    }
    proof {
        if names_view(chans@).contains(ch@) {
            let i = choose|i: int| 0 <= i < names_view(chans@).len() && names_view(chans@)[i] == ch@;
        }
    }
    false
}

/// Whether one of the first `k` nodes writes channel `ch`.
fn written_by_first<E, W: WeaveNode<E>>(nodes: &[W], k: usize, ch: &String) -> (r: bool)
    requires
        k <= nodes@.len(),
    ensures
        r == producer_among(outputs_of(nodes@), ch@, k as int) is Some,
{
    let ghost outs = outputs_of(nodes@);
    let mut found = false;
    for v in 0..k
        invariant
            k <= nodes@.len(),
            outs == outputs_of(nodes@),
            found == producer_among(outs, ch@, v as int) is Some,
    {
        let chans = nodes[v].output_channels();
        let here = names_contain(&chans, ch);
        assert(outs[v as int] == names_view(chans@));
        found = found || here;
    }
    found
}

/// The first output channel (in node order, then output order) that an
/// earlier node also writes, if there is one.
pub fn first_duplicate_output<E, W: WeaveNode<E>>(nodes: &[W]) -> (r: Option<String>)
    ensures
        r is None <==> !exists|v: int, j: int| written_before(outputs_of(nodes@), v, j),
        r matches Some(ch) ==> exists|v: int, j: int|
            {
                &&& written_before(outputs_of(nodes@), v, j)
                &&& forall|v2: int, j2: int|
                    examined_before(v2, j2, v, j) ==> !written_before(outputs_of(nodes@), v2, j2)
                &&& ch@ == outputs_of(nodes@)[v][j]
            },
{
    let ghost outs = outputs_of(nodes@);
    let n = nodes.len();
    for i in 0..n
        invariant
            n == nodes@.len(),
            outs == outputs_of(nodes@),
            forall|v2: int, j2: int| v2 < i ==> !written_before(outs, v2, j2),
    {
        let chans = nodes[i].output_channels();
        assert(outs[i as int] == names_view(chans@));
        let m = chans.len();
        for j in 0..m
            invariant
                n == nodes@.len(),
                i < n,
                outs == outputs_of(nodes@),
                m == chans@.len(),
                outs[i as int] == names_view(chans@),
                forall|v2: int, j2: int| v2 < i ==> !written_before(outs, v2, j2),
                forall|j2: int| j2 < j ==> !written_before(outs, i as int, j2),
        {
            if written_by_first(nodes, i, &chans[j]) {
                let ch = chans[j].clone();
                proof {
                    assert(names_view(chans@)[j as int] == chans@[j as int]@);
                    assert(written_before(outs, i as int, j as int));
                    assert forall|v2: int, j2: int|
                        examined_before(v2, j2, i as int, j as int) implies !written_before(
                        outs,
                        v2,
                        j2,
                    ) by {}
                }
                return Some(ch);
            }
            proof {
                assert(names_view(chans@)[j as int] == chans@[j as int]@);
            }
        }
    }
    None
}

/// The producer that the map `m` gives channel `ch`, if any.
pub open spec fn lookup(m: Map<Seq<char>, usize>, ch: Seq<char>) -> Option<int> {
    if m.contains_key(ch) {
        Some(m[ch] as int)
    } else {
        None
    }
}

/// Node `v` depends on node `u` when producers are looked up in `m`.
pub open spec fn depends_via(
    ins: Seq<Seq<Seq<char>>>,
    m: Map<Seq<char>, usize>,
    u: int,
    v: int,
) -> bool {
    u != v && exists|j: int| 0 <= j < ins[v].len() && lookup(m, #[trigger] ins[v][j]) == Some(u)
}

/// Input `j` of node `v` has no producer in `m` and no channel.
pub open spec fn unproduced_via(
    ins: Seq<Seq<Seq<char>>>,
    m: Map<Seq<char>, usize>,
    channels: Map<Seq<char>, ChannelValue>,
    v: int,
    j: int,
) -> bool {
    0 <= v < ins.len() && 0 <= j < ins[v].len() && lookup(m, ins[v][j]) is None
        && !channels.contains_key(ins[v][j])
}

/// The dependency graph when producers are looked up in `m`.
pub open spec fn graph_via(
    ins: Seq<Seq<Seq<char>>>,
    m: Map<Seq<char>, usize>,
    e: Seq<Seq<usize>>,
) -> bool {
    &&& e.len() == ins.len()
    &&& forall|u: int| 0 <= u < e.len() ==> strictly_increasing(#[trigger] e[u])
    &&& forall|u: int, v: usize|
        0 <= u < e.len() ==> (#[trigger] e[u].contains(v) <==> (v < e.len() && depends_via(
            ins,
            m,
            u,
            v as int,
        )))
}

/// Builds the dependency graph of the nodes: an edge from `u` to `v` when `u`
/// produces one of `v`'s inputs.
///
/// Fails with `MissingProducer` at the first input (in node order, then input
/// order) that no node produces and that the registry does not hold either.
pub fn build_edges<E, W: WeaveNode<E>>(
    nodes: &[W],
    registry: &ChannelRegistry,
    producer_of: &ProducerMap,
) -> (r: Result<Vec<Vec<usize>>, RegistryError>)
    requires
        forall|ch: Seq<char>|
            #![trigger producer_of.producers()[ch]]
            producer_of.producers().contains_key(ch) ==> producer_of.producers()[ch] < nodes@.len(),
    ensures
        r is Ok <==> !exists|v: int, j: int|
            unproduced_via(inputs_of(nodes@), producer_of.producers(), registry@, v, j),
        r matches Ok(edges) ==> graph_via(
            inputs_of(nodes@),
            producer_of.producers(),
            adjacency(edges@),
        ) && edges_wf(adjacency(edges@)),
        r matches Err(err) ==> exists|v: int, j: int|
            {
                &&& unproduced_via(inputs_of(nodes@), producer_of.producers(), registry@, v, j)
                &&& forall|v2: int, j2: int|
                    examined_before(v2, j2, v, j) ==> !unproduced_via(
                        inputs_of(nodes@),
                        producer_of.producers(),
                        registry@,
                        v2,
                        j2,
                    )
                &&& err matches RegistryError::MissingProducer(m) && m@ == missing_producer_text(
                    inputs_of(nodes@)[v][j],
                    v as usize,
                )
            },
{
    let ghost ins = inputs_of(nodes@);
    let ghost outs = outputs_of(nodes@);
    let n = nodes.len();
    let mut edges: Vec<Vec<usize>> = Vec::new();
    for i in 0..n
        invariant
            edges@.len() == i,
            forall|k: int| 0 <= k < i ==> (#[trigger] edges@[k])@.len() == 0,
    {
        edges.push(Vec::new());
    }
    for v in 0..n
        invariant
            n == nodes@.len(),
            ins == inputs_of(nodes@),
            outs == outputs_of(nodes@),
            forall|ch: Seq<char>|
                #![trigger producer_of.producers()[ch]]
                producer_of.producers().contains_key(ch) ==> producer_of.producers()[ch] < n,
            edges@.len() == n,
            forall|u: int| 0 <= u < n ==> strictly_increasing(#[trigger] edges@[u]@),
            forall|u: int, w: usize|
                0 <= u < n ==> (#[trigger] edges@[u]@.contains(w) <==> (w < v && depends_via(
                    ins,
                    producer_of.producers(),
                    u,
                    w as int,
                ))),
            forall|v2: int, j2: int| v2 < v ==> !unproduced_via(ins, producer_of.producers(), registry@, v2, j2),
    {
        let chans = nodes[v].input_channels();
        let m = chans.len();
        assert(names_view(chans@) == ins[v as int]);
        for j in 0..m
            invariant
                n == nodes@.len(),
                0 <= v < n,
                ins == inputs_of(nodes@),
                outs == outputs_of(nodes@),
                m == chans@.len(),
                names_view(chans@) == ins[v as int],
                forall|ch: Seq<char>|
                    #![trigger producer_of.producers()[ch]]
                    producer_of.producers().contains_key(ch) ==> producer_of.producers()[ch] < n,
                edges@.len() == n,
                forall|u: int| 0 <= u < n ==> strictly_increasing(#[trigger] edges@[u]@),
                forall|u: int, w: usize|
                    0 <= u < n ==> (#[trigger] edges@[u]@.contains(w) <==> ((w < v && depends_via(
                        ins,
                        producer_of.producers(),
                        u,
                        w as int,
                    )) || (w == v && u != v && exists|j2: int|
                        0 <= j2 < j && lookup(producer_of.producers(), #[trigger] ins[v as int][j2]) == Some(u)))),
                forall|v2: int, j2: int| v2 < v ==> !unproduced_via(ins, producer_of.producers(), registry@, v2, j2),
                forall|j2: int| 0 <= j2 < j ==> !unproduced_via(ins, producer_of.producers(), registry@, v as int, j2),
        {
            let ch = &chans[j];
            assert(ch@ == ins[v as int][j as int]);
            let ghost old_edges = edges@;
            match producer_of.get(ch) {
                Some(p) => {
                    assert(p < n);
                    if p != v {
                        let row_len = edges[p].len();
                        let already = row_len > 0 && edges[p][row_len - 1] == v;
                        if !already {
                            proof {
                                assert(!edges@[p as int]@.contains(v)) by {
                                    if edges@[p as int]@.contains(v) {
                                        let k = choose|k: int|
                                            0 <= k < edges@[p as int]@.len() && edges@[p as int]@[k]
                                                == v;
                                        let last = edges@[p as int]@[row_len - 1];
                                        assert(edges@[p as int]@.contains(last));
                                        if k < row_len - 1 {
                                            assert(edges@[p as int]@[k] < last);
                                        }
                                    }
                                }
                            }
                            let mut row: Vec<usize> = Vec::new();
                            std::mem::swap(&mut row, &mut edges[p]);
                            row.push(v);
                            edges.set(p, row);
                            proof {
                                assert(edges@[p as int]@ == old_edges[p as int]@.push(v));
                                assert forall|u: int| 0 <= u < n implies strictly_increasing(
                                    #[trigger] edges@[u]@,
                                ) by {
                                    if u == p {
                                        assert forall|a: int, b: int|
                                            0 <= a < b < edges@[u]@.len() implies edges@[u]@[a]
                                            < edges@[u]@[b] by {
                                            if b == edges@[u]@.len() - 1 {
                                                assert(old_edges[u]@.contains(edges@[u]@[a]));
                                            }
                                        }
                                    } else {
                                        assert(edges@[u] == old_edges[u]);
                                    }
                                }
                                assert forall|u: int, w: usize|
                                    0 <= u < n implies (#[trigger] edges@[u]@.contains(w)
                                    <==> old_edges[u]@.contains(w) || (u == p && w == v)) by {
                                    if u == p {
                                        if edges@[u]@.contains(w) && w != v {
                                            let k = choose|k: int| 0 <= k < edges@[u]@.len() && edges@[u]@[k] == w;
                                            assert(old_edges[u]@[k] == w);
                                        }
                                        if old_edges[u]@.contains(w) {
                                            let k = choose|k: int| 0 <= k < old_edges[u]@.len() && old_edges[u]@[k] == w;
                                            assert(edges@[u]@[k] == w);
                                        }
                                        if w == v {
                                            assert(edges@[u]@[old_edges[u]@.len() as int] == w);
                                        }
                                    } else {
                                        assert(edges@[u] == old_edges[u]);
                                    }
                                }
                            }
                        } else {
                            proof {
                                assert(old_edges[p as int]@.contains(v)) by {
                                    assert(old_edges[p as int]@[row_len - 1] == v);
                                }
                            }
                        }
                    }
                },
                None => {
                    if !registry.has(ch.as_str()) {
                        let msg = missing_producer_message(ch.as_str(), v);
                        proof {
                            assert(unproduced_via(ins, producer_of.producers(), registry@, v as int, j as int));
                            assert forall|v2: int, j2: int|
                                examined_before(v2, j2, v as int, j as int) implies !unproduced_via(
                                ins,
                                producer_of.producers(),
                                registry@,
                                v2,
                                j2,
                            ) by {
                                if v2 == v {
                                    assert(j2 < j);
                                }
                            }
                        }
                        return Err(RegistryError::MissingProducer(msg));
                    }
                },
            }
            proof {
                let pj = lookup(producer_of.producers(), ins[v as int][j as int]);
                assert(!unproduced_via(ins, producer_of.producers(), registry@, v as int, j as int));
                assert forall|u: int, w: usize|
                    0 <= u < n implies (#[trigger] edges@[u]@.contains(w) <==> ((w < v
                    && depends_via(ins, producer_of.producers(), u, w as int)) || (w == v && u != v && exists|j2: int|
                    0 <= j2 < j + 1 && lookup(producer_of.producers(), #[trigger] ins[v as int][j2]) == Some(u)))) by {
                    let ex_old = exists|j2: int|
                        0 <= j2 < j && lookup(producer_of.producers(), #[trigger] ins[v as int][j2]) == Some(u);
                    let ex_new = exists|j2: int|
                        0 <= j2 < j + 1 && lookup(producer_of.producers(), #[trigger] ins[v as int][j2]) == Some(u);
                    assert(ex_new <==> (ex_old || pj == Some(u))) by {
                        if ex_new && !(pj == Some(u)) {
                            let j2 = choose|j2: int|
                                0 <= j2 < j + 1 && lookup(producer_of.producers(), #[trigger] ins[v as int][j2]) == Some(u);
                            assert(j2 != j);
                        }
                        if pj == Some(u) {
                            assert(lookup(producer_of.producers(), ins[v as int][j as int]) == Some(u));
                        }
                    }
                    if pj is Some && pj->0 != v as int {
                        if u == pj->0 {
                            assert(edges@[u]@.contains(v));
                        } else {
                            assert(edges@[u]@.contains(w) == old_edges[u]@.contains(w));
                        }
                    } else {
                        assert(edges@ == old_edges);
                    }
                }
            }
        }
        proof {
            assert(ins[v as int].len() == m);
            assert forall|u: int, w: usize|
                0 <= u < n implies (#[trigger] edges@[u]@.contains(w) <==> (w < v + 1 && depends_via(
                ins,
                producer_of.producers(),
                u,
                w as int,
            ))) by {
                if w == v {
                    if depends_via(ins, producer_of.producers(), u, w as int) {
                        let j2 = choose|j2: int|
                            0 <= j2 < ins[v as int].len() && lookup(producer_of.producers(), #[trigger] ins[v as int][j2])
                                == Some(u);
                        assert(0 <= j2 < m);
                    }
                }
            }
            assert forall|v2: int, j2: int| v2 < v + 1 implies !unproduced_via(ins, producer_of.producers(), registry@, v2, j2) by {
                if v2 == v && 0 <= j2 < m {
                    assert(!unproduced_via(ins, producer_of.producers(), registry@, v as int, j2));
                }
            }
        }
    }
    proof {
        assert(!exists|v: int, j: int| unproduced_via(ins, producer_of.producers(), registry@, v, j)) by {
            assert forall|v: int, j: int| !unproduced_via(ins, producer_of.producers(), registry@, v, j) by {
                if v < n {
                    assert(!unproduced_via(ins, producer_of.producers(), registry@, v, j));
                }
            }
        }
        let e = adjacency(edges@);
        assert(e.len() == n);
        assert forall|u: int| 0 <= u < e.len() implies e[u] == edges@[u]@ by {}
        assert(edges_wf(e)) by {
            assert forall|u: int, k: int| 0 <= u < e.len() && 0 <= k < e[u].len() implies (
            #[trigger] e[u][k]) < e.len() by {
                assert(edges@[u]@.contains(e[u][k]));
            }
            assert forall|u: int| 0 <= u < e.len() implies (#[trigger] e[u]).no_duplicates() by {
                assert(strictly_increasing(edges@[u]@));
            }
        }
        assert(graph_via(ins, producer_of.producers(), e));
    }
    Ok(edges)
}

/// Two dependency graphs of the same nodes are the same graph.
pub proof fn lemma_dependency_graph_unique(
    ins: Seq<Seq<Seq<char>>>,
    outs: Seq<Seq<Seq<char>>>,
    e1: Seq<Seq<usize>>,
    e2: Seq<Seq<usize>>,
)
    requires
        is_dependency_graph(ins, outs, e1),
        is_dependency_graph(ins, outs, e2),
    ensures
        e1 == e2,
{
    assert forall|u: int| 0 <= u < e1.len() implies e1[u] == e2[u] by {
        assert forall|v: usize| e1[u].contains(v) <==> e2[u].contains(v) by {
            assert(e1[u].contains(v) <==> (v < e1.len() && depends_on(ins, outs, u, v as int)));
            assert(e2[u].contains(v) <==> (v < e2.len() && depends_on(ins, outs, u, v as int)));
        }
        crate::graph::lemma_increasing_unique(e1[u], e2[u]);
    }
    assert(e1 =~= e2);
}

/// Where the map `m` gives every channel the producer that the outputs give
/// it, the dependencies, the unproduced inputs and the dependency graph seen
/// through `m` are those of the outputs.
proof fn lemma_lookup_agrees(
    ins: Seq<Seq<Seq<char>>>,
    outs: Seq<Seq<Seq<char>>>,
    m: Map<Seq<char>, usize>,
    channels: Map<Seq<char>, ChannelValue>,
)
    requires
        forall|ch: Seq<char>| lookup(m, ch) == producer(outs, ch),
    ensures
        forall|v: int, j: int|
            #![trigger unproduced_via(ins, m, channels, v, j)]
            #![trigger unproduced(ins, outs, channels, v, j)]
            unproduced_via(ins, m, channels, v, j) == unproduced(ins, outs, channels, v, j),
        forall|e: Seq<Seq<usize>>|
            #![trigger graph_via(ins, m, e)]
            #![trigger is_dependency_graph(ins, outs, e)]
            graph_via(ins, m, e) == is_dependency_graph(ins, outs, e),
{
    assert forall|u: int, v: int| #[trigger] depends_via(ins, m, u, v) == depends_on(ins, outs, u, v) by {
        if depends_via(ins, m, u, v) {
            let j = choose|j: int| 0 <= j < ins[v].len() && lookup(m, #[trigger] ins[v][j]) == Some(u);
            assert(lookup(m, ins[v][j]) == producer(outs, ins[v][j]));
        }
        if depends_on(ins, outs, u, v) {
            let j = choose|j: int| 0 <= j < ins[v].len() && producer(outs, #[trigger] ins[v][j]) == Some(u);
            assert(lookup(m, ins[v][j]) == producer(outs, ins[v][j]));
        }
    }
    assert forall|v: int, j: int|
        #[trigger] unproduced_via(ins, m, channels, v, j) == unproduced(ins, outs, channels, v, j) by {
        if 0 <= v < ins.len() && 0 <= j < ins[v].len() {
            assert(lookup(m, ins[v][j]) == producer(outs, ins[v][j]));
        }
    }
}

/// The order in which to weave the nodes against the channels of the
/// registry: every node comes after the producers of its inputs.
///
/// Fails with `MissingProducer` at the first input (in node order, then input
/// order) that no node produces and that the registry does not hold either;
/// otherwise fails with `CycleDetected`, naming the nodes on a cycle
/// in increasing order, exactly when the dependencies form a cycle.
#[verifier::rlimit(40)]
pub fn order_nodes<E, W: WeaveNode<E>>(nodes: &[W], registry: &ChannelRegistry) -> (r: Result<
    Vec<usize>,
    RegistryError,
>)
    ensures
        (exists|v: int, j: int| unproduced(inputs_of(nodes@), outputs_of(nodes@), registry@, v, j))
            ==> exists|v: int, j: int|
            {
                &&& unproduced(inputs_of(nodes@), outputs_of(nodes@), registry@, v, j)
                &&& forall|v2: int, j2: int|
                    examined_before(v2, j2, v, j) ==> !unproduced(
                        inputs_of(nodes@),
                        outputs_of(nodes@),
                        registry@,
                        v2,
                        j2,
                    )
                &&& r matches Err(RegistryError::MissingProducer(m)) && m@ == missing_producer_text(
                    inputs_of(nodes@)[v][j],
                    v as usize,
                )
            },
        !(exists|v: int, j: int| unproduced(inputs_of(nodes@), outputs_of(nodes@), registry@, v, j))
            ==> forall|e: Seq<Seq<usize>>|
            #![trigger is_dependency_graph(inputs_of(nodes@), outputs_of(nodes@), e)]
            is_dependency_graph(inputs_of(nodes@), outputs_of(nodes@), e) ==> {
                &&& r is Ok <==> acyclic(e)
                &&& r matches Ok(order) ==> is_topological_order(e, order@)
                &&& r matches Err(err) ==> exists|cyclic: Seq<usize>|
                    {
                        &&& strictly_increasing(cyclic)
                        &&& forall|v: usize|
                            #![trigger cyclic.contains(v)]
                            cyclic.contains(v) <==> (v < e.len() && on_cycle(e, v as int))
                        &&& err matches RegistryError::CycleDetected(m) && m@ == index_list_text(
                            cyclic,
                        )
                    }
            },
        r matches Ok(order) ==> exists|e: Seq<Seq<usize>>|
            #![trigger is_dependency_graph(inputs_of(nodes@), outputs_of(nodes@), e)]
            {
                &&& is_dependency_graph(inputs_of(nodes@), outputs_of(nodes@), e)
                &&& is_topological_order(e, order@)
                &&& acyclic(e)
            },
{
    let producer_of = producer_map(nodes);
    let ghost ins = inputs_of(nodes@);
    let ghost outs = outputs_of(nodes@);
    let ghost pm = producer_of.producers();
    proof {
        assert forall|ch: Seq<char>| lookup(pm, ch) == producer(outs, ch) by {
            if pm.contains_key(ch) {
                assert(pm[ch] == producer(outs, ch)->0);
            }
        }
        assert forall|ch: Seq<char>| #[trigger] pm[ch] < nodes@.len() || !pm.contains_key(ch) by {
            lemma_producer_among_bound(outs, ch, outs.len() as int);
        }
        lemma_lookup_agrees(ins, outs, pm, registry@);
    }
    let edges = match build_edges(nodes, registry, &producer_of) {
        Ok(e) => e,
        Err(err) => {
            return Err(err);
        },
    };
    proof {
        assert(is_dependency_graph(ins, outs, adjacency(edges@)));
    }
    let r = topo_order_or_cycle(edges.as_slice());
    proof {
        let ae = adjacency(edges@);
        assert forall|e: Seq<Seq<usize>>|
            #![trigger is_dependency_graph(inputs_of(nodes@), outputs_of(nodes@), e)]
            is_dependency_graph(inputs_of(nodes@), outputs_of(nodes@), e) implies e == ae by {
            lemma_dependency_graph_unique(inputs_of(nodes@), outputs_of(nodes@), e, ae);
        }
    }
    r
}

/// Weaving the nodes at positions `order[0..k]`, in that order, against
/// channels `channels`, stopping at the first failure: the channels
/// afterwards, and whether every weave succeeded.
pub open spec fn weave_prefix<E, W: WeaveNode<E>>(
    nodes: Seq<W>,
    order: Seq<usize>,
    k: nat,
    channels: Map<Seq<char>, ChannelValue>,
) -> (Map<Seq<char>, ChannelValue>, bool)
    decreases k,
{
    if k == 0 {
        (channels, true)
    } else {
        let (m, ok) = weave_prefix::<E, W>(nodes, order, (k - 1) as nat, channels);
        if !ok {
            (m, false)
        } else {
            (nodes[order[k - 1] as int].woven(m), nodes[order[k - 1] as int].weave_ok(m))
        }
    }
}

/// After a failed weave, weaving further nodes changes nothing.
proof fn lemma_weave_prefix_stops<E, W: WeaveNode<E>>(
    nodes: Seq<W>,
    order: Seq<usize>,
    j: nat,
    k: nat,
    channels: Map<Seq<char>, ChannelValue>,
)
    requires
        j <= k,
        !weave_prefix::<E, W>(nodes, order, j, channels).1,
    ensures
        weave_prefix::<E, W>(nodes, order, k, channels) == weave_prefix::<E, W>(
            nodes,
            order,
            j,
            channels,
        ),
    decreases k,
{
    if k > j {
        lemma_weave_prefix_stops::<E, W>(nodes, order, j, (k - 1) as nat, channels);
    }
}

/// Registering every node, in order, into channels `channels` (see
/// `register_prefix`).
pub open spec fn register_all<E, W: WeaveNode<E>>(
    nodes: Seq<W>,
    channels: Map<Seq<char>, ChannelValue>,
) -> (Map<Seq<char>, ChannelValue>, bool) {
    register_prefix::<E, W>(nodes, nodes.len(), channels)
}

/// Some input of some node has no producer among the nodes and no channel.
pub open spec fn some_unproduced<E, W: WeaveNode<E>>(
    nodes: Seq<W>,
    channels: Map<Seq<char>, ChannelValue>,
) -> bool {
    exists|v: int, j: int| unproduced(inputs_of(nodes), outputs_of(nodes), channels, v, j)
}

/// Some output channel is written by two nodes.
pub open spec fn some_duplicate<E, W: WeaveNode<E>>(nodes: Seq<W>) -> bool {
    exists|v: int, j: int| written_before(outputs_of(nodes), v, j)
}

/// Registers the nodes' channels, orders the nodes so that every node comes
/// after the producers of its inputs, and weaves them in that order.
///
/// Fails, in this order of checks: where a registration fails; where two
/// nodes write the same output channel (`DuplicateOutputKey`, naming the
/// first such channel in node order, then output order); where, after the
/// registrations, an input has neither a producer nor a channel
/// (`MissingProducer`, as `order_nodes` says); where the dependencies form a
/// cycle (`CycleDetected`, as `order_nodes` says); where weaving a node fails.
/// The nodes are woven in a topological order of the dependency graph, and
/// the weave stops at the first failure.
pub fn weave_nodes<E, W: WeaveNode<E>>(nodes: &[W], registry: &mut ChannelRegistry) -> (r: Result<
    TopoOrdered<E>,
    RegistryError,
>)
    ensures
        r matches Ok(t) ==> t.0@.len() == nodes@.len(),
        forall|e: Seq<Seq<usize>>|
            #![trigger is_dependency_graph(inputs_of(nodes@), outputs_of(nodes@), e)]
            is_dependency_graph(inputs_of(nodes@), outputs_of(nodes@), e) ==> (r is Ok ==> acyclic(
                e,
            )),
        !register_all::<E, W>(nodes@, old(registry)@).1 ==> {
            &&& r is Err
            &&& final(registry)@ == register_all::<E, W>(nodes@, old(registry)@).0
        },
        register_all::<E, W>(nodes@, old(registry)@).1 && some_duplicate::<E, W>(nodes@) ==> {
            &&& final(registry)@ == register_all::<E, W>(nodes@, old(registry)@).0
            &&& exists|v: int, j: int|
                {
                    &&& written_before(outputs_of(nodes@), v, j)
                    &&& forall|v2: int, j2: int|
                        examined_before(v2, j2, v, j) ==> !written_before(
                            outputs_of(nodes@),
                            v2,
                            j2,
                        )
                    &&& r matches Err(RegistryError::DuplicateOutputKey(m)) && m@ == outputs_of(
                        nodes@,
                    )[v][j]
                }
        },
        register_all::<E, W>(nodes@, old(registry)@).1 && !some_duplicate::<E, W>(nodes@)
            && some_unproduced::<E, W>(
            nodes@,
            register_all::<E, W>(nodes@, old(registry)@).0,
        ) ==> {
            &&& final(registry)@ == register_all::<E, W>(nodes@, old(registry)@).0
            &&& exists|v: int, j: int|
                {
                    &&& unproduced(
                        inputs_of(nodes@),
                        outputs_of(nodes@),
                        register_all::<E, W>(nodes@, old(registry)@).0,
                        v,
                        j,
                    )
                    &&& forall|v2: int, j2: int|
                        examined_before(v2, j2, v, j) ==> !unproduced(
                            inputs_of(nodes@),
                            outputs_of(nodes@),
                            register_all::<E, W>(nodes@, old(registry)@).0,
                            v2,
                            j2,
                        )
                    &&& r matches Err(RegistryError::MissingProducer(m)) && m@
                        == missing_producer_text(inputs_of(nodes@)[v][j], v as usize)
                }
        },
        register_all::<E, W>(nodes@, old(registry)@).1 && !some_duplicate::<E, W>(nodes@)
            && !some_unproduced::<E, W>(
            nodes@,
            register_all::<E, W>(nodes@, old(registry)@).0,
        ) ==> forall|e: Seq<Seq<usize>>|
            #![trigger is_dependency_graph(inputs_of(nodes@), outputs_of(nodes@), e)]
            is_dependency_graph(inputs_of(nodes@), outputs_of(nodes@), e) ==> {
                &&& !acyclic(e) ==> {
                    &&& final(registry)@ == register_all::<E, W>(nodes@, old(registry)@).0
                    &&& exists|cyclic: Seq<usize>|
                        {
                            &&& strictly_increasing(cyclic)
                            &&& forall|v: usize|
                                #![trigger cyclic.contains(v)]
                                cyclic.contains(v) <==> (v < e.len() && on_cycle(e, v as int))
                            &&& r matches Err(RegistryError::CycleDetected(m)) && m@
                                == index_list_text(cyclic)
                        }
                }
                &&& acyclic(e) ==> exists|order: Seq<usize>|
                    {
                        &&& is_topological_order(e, order)
                        &&& (final(registry)@, r is Ok) == weave_prefix::<E, W>(
                            nodes@,
                            order,
                            nodes@.len(),
                            register_all::<E, W>(nodes@, old(registry)@).0,
                        )
                        &&& r matches Ok(t) ==> forall|k: int|
                            0 <= k < nodes@.len() ==> nodes@[order[k] as int].weaves_to(
                                weave_prefix::<E, W>(
                                    nodes@,
                                    order,
                                    k as nat,
                                    register_all::<E, W>(nodes@, old(registry)@).0,
                                ).0,
                                #[trigger] t.0@[k],
                            )
                    }
            },
{
    match register_all_channels(nodes, registry) {
        Ok(_) => {},
        Err(err) => {
            return Err(err);
        },
    }
    match first_duplicate_output(nodes) {
        Some(ch) => {
            return Err(RegistryError::DuplicateOutputKey(ch));
        },
        None => {},
    }
    let ghost m = registry@;
    let topo = order_nodes(nodes, registry);
    let topo = match topo {
        Ok(t) => t,
        Err(err) => {
            return Err(err);
        },
    };
    let ghost order = topo@;
    let ghost ins = inputs_of(nodes@);
    let ghost outs = outputs_of(nodes@);
    let ghost e0 = choose|e: Seq<Seq<usize>>|
        #![trigger is_dependency_graph(ins, outs, e)]
        {
            &&& is_dependency_graph(ins, outs, e)
            &&& is_topological_order(e, order)
            &&& acyclic(e)
        };
    let n = nodes.len();
    proof {
        assert(e0.len() == n);
        assert forall|e: Seq<Seq<usize>>|
            #![trigger is_dependency_graph(inputs_of(nodes@), outputs_of(nodes@), e)]
            is_dependency_graph(inputs_of(nodes@), outputs_of(nodes@), e) implies e == e0 by {
            lemma_dependency_graph_unique(ins, outs, e, e0);
        }
    }
    let mut out: Vec<E> = Vec::new();
    for k in 0..n
        invariant
            n == nodes@.len(),
            topo@ == order,
            order.len() == n,
            forall|i: int| 0 <= i < order.len() ==> (#[trigger] order[i]) < n,
            out@.len() == k,
            weave_prefix::<E, W>(nodes@, order, k as nat, m) == (registry@, true),
            forall|k2: int|
                0 <= k2 < k ==> nodes@[order[k2] as int].weaves_to(
                    weave_prefix::<E, W>(nodes@, order, k2 as nat, m).0,
                    #[trigger] out@[k2],
                ),
            register_all::<E, W>(nodes@, old(registry)@) == (m, true),
            !some_unproduced::<E, W>(nodes@, m),
            !some_duplicate::<E, W>(nodes@),
            ins == inputs_of(nodes@),
            outs == outputs_of(nodes@),
            is_topological_order(e0, order),
            acyclic(e0),
            forall|e: Seq<Seq<usize>>|
                #![trigger is_dependency_graph(ins, outs, e)]
                is_dependency_graph(ins, outs, e) ==> e == e0,
    {
        let idx = topo[k];
        match nodes[idx].weave(registry) {
            Ok(woven) => {
                let ghost before = out@;
                out.push(woven);
                proof {
                    assert forall|k2: int|
                        0 <= k2 < k + 1 implies nodes@[order[k2] as int].weaves_to(
                        weave_prefix::<E, W>(nodes@, order, k2 as nat, m).0,
                        #[trigger] out@[k2],
                    ) by {
                        if k2 < k {
                            assert(out@[k2] == before[k2]);
                        }
                    }
                }
            },
            Err(err) => {
                proof {
                    lemma_weave_prefix_stops::<E, W>(nodes@, order, (k + 1) as nat, n as nat, m);
                }
                return Err(err);
            },
        }
    }
    Ok(TopoOrdered(out))
}

} // verus!
