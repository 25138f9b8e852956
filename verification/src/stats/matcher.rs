use vstd::prelude::*;

use crate::common::SharedStr;
use crate::data_structures::key_index::KeyIndex;
use crate::metadata::same_category;
use crate::traits::Metadata;

verus! {

/// How alike two markets are. A similarity is 1 for alike and 0 for not;
/// the aggregate is the sum of both similarities, a missing one counting 0,
/// so it counts in halves of the mean.
#[derive(Debug, Clone, Copy, PartialEq, Eq, Structural)]
pub struct StructuralCorrelation {
    pub categorical_similarity: Option<u8>,
    pub semantic_similarity: Option<u8>,
    pub agg_similarity_halves: u8,
}

/// 1 when alike, 0 when not.
pub open spec fn similarity(alike: bool) -> u8 {
    if alike {
        1
    } else {
        0
    }
}

/// The correlation of two markets: same category; same context, when both
/// have one.
pub open spec fn correlation_of<M: Metadata>(x: M, y: M) -> StructuralCorrelation {
    let cat = similarity(same_category(x.spec_category(), y.spec_category()));
    let sem = match (x.spec_context(), y.spec_context()) {
        (Some(a), Some(b)) => Some(similarity(a == b)),
        _ => None,
    };
    StructuralCorrelation {
        categorical_similarity: Some(cat),
        semantic_similarity: sem,
        agg_similarity_halves: (cat + match sem {
            Some(s) => s,
            None => 0u8,
        }) as u8,
    }
}

/// The correlation does not depend on the order of the two markets.
pub proof fn lemma_correlation_symmetric<M: Metadata>(x: M, y: M)
    ensures
        correlation_of(x, y) == correlation_of(y, x),
{
}

/// What a correlation says of two markets: the categorical similarity is 1
/// when they share a category and 0 when not; whenever both have a
/// context, the semantic similarity is 1 when the contexts are equal and 0
/// when not, whatever their categories; it is missing when either has no
/// context; and the aggregate is the sum of the two, a missing one counting
/// 0.
pub proof fn lemma_correlation_parts<M: Metadata>(x: M, y: M)
    ensures
        correlation_of(x, y).categorical_similarity == Some(
            if same_category(x.spec_category(), y.spec_category()) {
                1u8
            } else {
                0u8
            },
        ),
        x.spec_context() is Some && y.spec_context() is Some ==> correlation_of(
            x,
            y,
        ).semantic_similarity == Some(
            if x.spec_context()->0 == y.spec_context()->0 {
                1u8
            } else {
                0u8
            },
        ),
        x.spec_context() is None || y.spec_context() is None ==> correlation_of(
            x,
            y,
        ).semantic_similarity is None,
        correlation_of(x, y).agg_similarity_halves == correlation_of(
            x,
            y,
        ).categorical_similarity->0 + match correlation_of(x, y).semantic_similarity {
            Some(s) => s as int,
            None => 0int,
        },
{
}

impl StructuralCorrelation {
    /// 1 for alike, 0 for not.
    fn compare(alike: bool) -> (r: Option<u8>)
        ensures
            r == Some(similarity(alike)),
    {
        if alike {
            return Some(1);
        }
        Some(0)
    }

    /// The correlation of two markets.
    pub fn compute<M: Metadata>(x: &M, y: &M) -> (r: Self)
        ensures
            r == correlation_of(*x, *y),
    {
        let categorical_similarity = Self::compare(x.category().same(&y.category()));

        let semantic_similarity = match (x.context(), y.context()) {
            (Some(a), Some(b)) => Self::compare(a == b),
            _ => None,
        };

        let cat = match categorical_similarity {
            Some(c) => c,
            None => 0,
        };
        let sem = match semantic_similarity {
            Some(s) => s,
            None => 0,
        };
        Self { categorical_similarity, semantic_similarity, agg_similarity_halves: cat + sem }
    }
}

/// A stable handle on a node.
#[derive(Debug, Clone, Copy, PartialEq, Eq, Structural)]
pub struct NodeKey {
    pub index: usize,
}

/// A link from one market to another, with their correlation.
#[derive(Debug, Clone, Copy, PartialEq, Eq, Structural)]
pub struct Edge {
    pub target: NodeKey,
    pub correlation: StructuralCorrelation,
}

/// A market with its links; kept together so they cannot drift apart.
struct Node<M> {
    data: M,
    edges: Vec<Edge>,
}

/// The arena behind the graph: the index from id to slot, the slots, and
/// the slots that are free again.
struct GraphState<M> {
    entries: KeyIndex<NodeKey>,
    nodes: Vec<Option<Node<M>>>,
    free: Vec<usize>,
}

/// A message for the matcher.
pub enum MetadataTransportMsg<O> {
    Insert(O),
    Update(O),
    Remove(String),
}

impl<M: Metadata> From<M> for MetadataTransportMsg<M> {
    fn from(value: M) -> (r: Self) {
        Self::Insert(value)
    }
}

impl<M: Metadata> vstd::std_specs::convert::FromSpecImpl<M> for MetadataTransportMsg<M> {
    open spec fn obeys_from_spec() -> bool {
        true
    }

    open spec fn from_spec(v: M) -> Self {
        MetadataTransportMsg::Insert(v)
    }
}

/// Drops the first link to `target`; returns where it stood.
fn unlink(edges: &mut Vec<Edge>, target: usize) -> (r: Option<usize>)
    ensures
        r matches Some(p) ==> p < old(edges)@.len() && old(edges)@[p as int].target.index
            == target && final(edges)@ == old(edges)@.remove(p as int),
        r is None ==> final(edges)@ == old(edges)@ && forall|q: int|
            0 <= q < old(edges)@.len() ==> #[trigger] old(edges)@[q].target.index != target,
{
    let n = edges.len();
    let mut p: usize = 0;
    while p < n
        invariant
            n == edges@.len(),
            edges@ == old(edges)@,
            p <= n,
            forall|q: int| 0 <= q < p ==> #[trigger] edges@[q].target.index != target,
        decreases n - p,
    {
        if edges[p].target.index == target {
            edges.remove(p);
            return Some(p);
        }
        p = p + 1;
    }
    None
}

impl<M: Metadata> GraphState<M> {
    spec fn live(&self, k: int) -> bool {
        0 <= k < self.nodes@.len() && self.nodes@[k] is Some
    }

    spec fn data(&self, k: int) -> M {
        self.nodes@[k]->0.data
    }

    spec fn edges(&self, k: int) -> Seq<Edge> {
        self.nodes@[k]->0.edges@
    }

    /// The markets linked from the market `id`, each with its correlation,
    /// in the order of the links.
    closed spec fn links(&self, id: Seq<char>) -> Seq<(Seq<char>, StructuralCorrelation)> {
        self.edges(self.entries@[id].index as int).map_values(
            |e: Edge| (self.data(e.target.index as int).spec_id(), e.correlation),
        )
    }

    /// The markets, by id.
    closed spec fn markets(&self) -> Map<Seq<char>, M> {
        Map::new(
            |id: Seq<char>| self.entries@.contains_key(id),
            |id: Seq<char>| self.data(self.entries@[id].index as int),
        )
    }

    /// The invariant that `new` establishes and every method keeps.
    closed spec fn wf(&self) -> bool {
        &&& self.entries.wf()
        &&& forall|id: Seq<char>|
            #[trigger] self.entries@.contains_key(id) ==> self.live(self.entries@[id].index as int)
                && self.data(self.entries@[id].index as int).spec_id() == id
        &&& forall|k: int|
            #[trigger] self.live(k) ==> self.entries@.contains_key(self.data(k).spec_id())
                && self.entries@[self.data(k).spec_id()].index == k
        &&& forall|k: int, i: int|
            #![trigger self.edges(k)[i]]
            self.live(k) && 0 <= i < self.edges(k).len() ==> {
                let t = self.edges(k)[i].target.index as int;
                &&& self.live(t)
                &&& t != k
                &&& self.edges(k)[i].correlation == correlation_of(self.data(k), self.data(t))
            }
        &&& forall|k: int, i: int, j: int|
            #![trigger self.edges(k)[i], self.edges(k)[j]]
            self.live(k) && 0 <= i < j < self.edges(k).len() ==> self.edges(k)[i].target
                != self.edges(k)[j].target
        &&& forall|k: int, j: int|
            #![trigger self.live(k), self.live(j)]
            self.live(k) && self.live(j) && k != j ==> exists|i: int|
                0 <= i < self.edges(k).len() && #[trigger] self.edges(k)[i].target.index == j
        &&& forall|i: int|
            0 <= i < self.free@.len() ==> #[trigger] self.free@[i] < self.nodes@.len()
                && !self.live(self.free@[i] as int)
        &&& forall|i: int, j: int|
            0 <= i < j < self.free@.len() ==> #[trigger] self.free@[i] != #[trigger] self.free@[j]
    }

    fn new() -> (r: Self)
        ensures
            r.wf(),
            r.markets() == Map::<Seq<char>, M>::empty(),
    {
        let r = Self { entries: KeyIndex::new(), nodes: Vec::new(), free: Vec::new() };
        assert(r.markets() =~= Map::<Seq<char>, M>::empty());
        r
    }

    /// What `insert` leaves behind, from the facts its loops establish.
    proof fn lemma_insert_done(
        g0: Self,
        g3: Self,
        g2: Self,
        entry: M,
        key: int,
        edge_data: Seq<(NodeKey, StructuralCorrelation)>,
        forward: Seq<Edge>,
    )
        requires
            g0.wf(),
            !g0.live(key),
            0 <= key < g3.nodes@.len(),
            key <= usize::MAX,
            g0.nodes@.len() <= g3.nodes@.len(),
            !g0.entries@.contains_key(entry.spec_id()),
            g2.entries.wf(),
            g2.entries@ == g0.entries@.insert(entry.spec_id(), NodeKey { index: key as usize }),
            g2.free == g3.free,
            g2.nodes@.len() == g3.nodes@.len(),
            g2.live(key),
            g2.data(key) == entry,
            g2.edges(key) == forward,
            forall|k: int| 0 <= k < g3.nodes@.len() && k != key ==> #[trigger] g2.nodes@[k] == g3.nodes@[k],
            forall|x: int|
                0 <= x < g3.free@.len() ==> #[trigger] g3.free@[x] < g3.nodes@.len()
                    && !g0.live(g3.free@[x] as int) && g3.free@[x] != key,
            forall|x: int, y: int|
                0 <= x < y < g3.free@.len() ==> #[trigger] g3.free@[x] != #[trigger] g3.free@[y],
            forall|k: int|
                0 <= k < g3.nodes@.len() && k != key ==> (g3.nodes@[k] is Some <==> g0.live(k)),
            forall|k: int|
                0 <= k < g3.nodes@.len() && k != key && g0.live(k) ==> #[trigger] g3.data(k)
                    == g0.data(k),
            forall|a: int|
                0 <= a < edge_data.len() ==> #[trigger] g3.edges(edge_data[a].0.index as int)
                    == g0.edges(edge_data[a].0.index as int).push(
                    Edge { target: NodeKey { index: key as usize }, correlation: edge_data[a].1 },
                ),
            forall|a: int|
                0 <= a < edge_data.len() ==> g0.live(#[trigger] edge_data[a].0.index as int)
                    && edge_data[a].0.index != key && edge_data[a].1 == correlation_of(
                    entry,
                    g0.data(edge_data[a].0.index as int),
                ),
            forall|a: int, b: int|
                0 <= a < b < edge_data.len() ==> #[trigger] edge_data[a].0.index
                    < #[trigger] edge_data[b].0.index,
            forall|j: int|
                0 <= j < g0.nodes@.len() && #[trigger] g0.live(j) ==> exists|a: int|
                    0 <= a < edge_data.len() && #[trigger] edge_data[a].0.index == j,
            forward.len() == edge_data.len(),
            forall|a: int|
                0 <= a < forward.len() ==> #[trigger] forward[a] == (Edge {
                    target: edge_data[a].0,
                    correlation: edge_data[a].1,
                }),
        ensures
            g2.wf(),
            g2.markets() == g0.markets().insert(entry.spec_id(), entry),
            forall|id: Seq<char>|
                #[trigger] g0.markets().contains_key(id) ==> g2.links(id) == g0.links(id).push(
                    (entry.spec_id(), correlation_of(g0.markets()[id], entry)),
                ),
    {
        let nn = g2.nodes@.len();
        let eid = entry.spec_id();
        let back = |k: int|
            Edge {
                target: NodeKey { index: key as usize },
                correlation: correlation_of(entry, g0.data(k)),
            };
        assert forall|k: int| #[trigger] g2.live(k) <==> (g0.live(k) || k == key) by {
            if 0 <= k < nn && k != key {
                assert(g2.nodes@[k] == g3.nodes@[k]);
            }
        }
        assert forall|k: int| g0.live(k) implies #[trigger] g2.data(k) == g0.data(k)
            && g2.edges(k) == g0.edges(k).push(back(k)) by {
            assert(k < g0.nodes@.len() && k != key);
            assert(g2.nodes@[k] == g3.nodes@[k]);
            assert(g3.data(k) == g0.data(k));
            let a = choose|a: int| 0 <= a < edge_data.len() && #[trigger] edge_data[a].0.index == k;
            assert(g0.live(edge_data[a].0.index as int));
            assert(edge_data[a].1 == correlation_of(entry, g0.data(k)));
            assert(g3.edges(edge_data[a].0.index as int) == g0.edges(k).push(
                Edge { target: NodeKey { index: key as usize }, correlation: edge_data[a].1 },
            ));
            assert(g2.edges(k) == g3.edges(k));
        }
        // every market still has its id in the index, and only it
        assert forall|id: Seq<char>| #[trigger] g2.entries@.contains_key(id) implies g2.live(
            g2.entries@[id].index as int,
        ) && g2.data(g2.entries@[id].index as int).spec_id() == id by {
            if id != eid {
                assert(g0.entries@.contains_key(id));
                let x = g0.entries@[id].index as int;
                assert(g0.live(x));
                assert(g2.entries@[id] == g0.entries@[id]);
                assert(g2.data(x) == g0.data(x));
                assert(g2.live(x));
            }
        }
        assert forall|k: int| #[trigger] g2.live(k) implies g2.entries@.contains_key(
            g2.data(k).spec_id(),
        ) && g2.entries@[g2.data(k).spec_id()].index == k by {
            if k != key {
                assert(g0.live(k));
                assert(g0.entries@.contains_key(g0.data(k).spec_id()));
            }
        }
        // links go to live markets with their correlation
        assert forall|k: int, i: int|
            #![trigger g2.edges(k)[i]]
            g2.live(k) && 0 <= i < g2.edges(k).len() implies {
            let t = g2.edges(k)[i].target.index as int;
            &&& g2.live(t)
            &&& t != k
            &&& g2.edges(k)[i].correlation == correlation_of(g2.data(k), g2.data(t))
        } by {
            if k == key {
                assert(g2.edges(k)[i] == forward[i]);
                let t = edge_data[i].0.index as int;
                assert(g0.live(t));
                assert(g2.data(t) == g0.data(t));
            } else {
                assert(g0.live(k));
                if i < g0.edges(k).len() {
                    assert(g2.edges(k)[i] == g0.edges(k)[i]);
                    let t = g0.edges(k)[i].target.index as int;
                    assert(g0.live(t));
                    assert(g2.data(t) == g0.data(t));
                } else {
                    assert(g2.edges(k)[i] == back(k));
                    lemma_correlation_symmetric(entry, g0.data(k));
                }
            }
        }
        // no market is linked twice from one
        assert forall|k: int, i: int, j: int|
            #![trigger g2.edges(k)[i], g2.edges(k)[j]]
            g2.live(k) && 0 <= i < j < g2.edges(k).len() implies g2.edges(k)[i].target
            != g2.edges(k)[j].target by {
            if k == key {
                assert(g2.edges(k)[i] == forward[i]);
                assert(g2.edges(k)[j] == forward[j]);
            } else {
                assert(g0.live(k));
                assert(g2.edges(k)[i] == g0.edges(k)[i]);
                if j < g0.edges(k).len() {
                    assert(g2.edges(k)[j] == g0.edges(k)[j]);
                } else {
                    assert(g0.live(g0.edges(k)[i].target.index as int));
                }
            }
        }
        // every market is linked to every other
        assert forall|k: int, j: int|
            #![trigger g2.live(k), g2.live(j)]
            g2.live(k) && g2.live(j) && k != j implies exists|i: int|
            0 <= i < g2.edges(k).len() && #[trigger] g2.edges(k)[i].target.index == j by {
            if k == key {
                assert(g0.live(j));
                let a = choose|a: int| 0 <= a < edge_data.len() && #[trigger] edge_data[a].0.index == j;
                assert(g2.edges(k)[a] == forward[a]);
            } else if j == key {
                assert(g0.live(k));
                let last = g0.edges(k).len() as int;
                assert(g2.edges(k)[last] == back(k));
            } else {
                assert(g0.live(k) && g0.live(j));
                assert(g0.live(k) && g0.live(j) && k != j);
                let i = choose|i: int|
                    0 <= i < g0.edges(k).len() && #[trigger] g0.edges(k)[i].target.index == j;
                assert(g2.edges(k)[i] == g0.edges(k)[i]);
            }
        }
        assert forall|x: int| 0 <= x < g2.free@.len() implies #[trigger] g2.free@[x] < g2.nodes@.len()
            && !g2.live(g2.free@[x] as int) by {}
        assert(g2.wf());
        assert(g2.markets() =~= g0.markets().insert(eid, entry)) by {
            assert forall|id: Seq<char>| #[trigger] g2.markets().contains_key(id) implies g2.markets()[id]
                == g0.markets().insert(eid, entry)[id] by {
                if id != eid {
                    assert(g0.live(g0.entries@[id].index as int));
                }
            }
        }
        assert forall|id: Seq<char>| #[trigger] g0.markets().contains_key(id) implies g2.links(
            id,
        ) == g0.links(id).push((eid, correlation_of(g0.markets()[id], entry))) by {
            let k = g0.entries@[id].index as int;
            assert(g0.live(k));
            assert(id != eid);
            assert(g2.entries@[id] == g0.entries@[id]);
            assert(g2.data(k) == g0.data(k));
            assert(g2.edges(k) == g0.edges(k).push(back(k)));
            assert(g2.data(key) == entry);
            lemma_correlation_symmetric(entry, g0.data(k));
            let e0 = g0.edges(k);
            assert forall|i: int| 0 <= i < e0.len() implies g2.data(
                #[trigger] e0[i].target.index as int,
            ) == g0.data(e0[i].target.index as int) by {
                assert(g0.live(e0[i].target.index as int));
            }
            assert(g2.links(id) =~= g0.links(id).push((eid, correlation_of(g0.markets()[id], entry))));
        }
    }

    /// Adds a market, linked to every market already there, unless a
    /// market with its id is there already.
    fn insert(&mut self, entry: M)
        requires
            old(self).wf(),
        ensures
            final(self).wf(),
            old(self).markets().contains_key(entry.spec_id()) ==> *final(self) == *old(self),
            !old(self).markets().contains_key(entry.spec_id()) ==> final(self).markets() == old(
                self,
            ).markets().insert(entry.spec_id(), entry),
            !old(self).markets().contains_key(entry.spec_id()) ==> forall|id: Seq<char>|
                #[trigger] old(self).markets().contains_key(id) ==> final(self).links(id) == old(
                    self,
                ).links(id).push((entry.spec_id(), correlation_of(old(self).markets()[id], entry))),
    {
        let ticker = String::from_str(entry.id());
        if self.entries.get(&ticker).is_some() {
            return ;
        }
        let ghost g0 = *self;
        let ghost eid = entry.spec_id();
        let n = self.nodes.len();

        // correlations with every market already there, by increasing slot
        let mut edge_data: Vec<(NodeKey, StructuralCorrelation)> = Vec::new();
        let mut k: usize = 0;
        while k < n
            invariant
                *self == g0,
                g0.wf(),
                n == g0.nodes@.len(),
                k <= n,
                forall|i: int|
                    0 <= i < edge_data@.len() ==> g0.live(#[trigger] edge_data@[i].0.index as int)
                        && edge_data@[i].0.index < k && edge_data@[i].1 == correlation_of(
                        entry,
                        g0.data(edge_data@[i].0.index as int),
                    ),
                forall|i: int, j: int|
                    0 <= i < j < edge_data@.len() ==> #[trigger] edge_data@[i].0.index
                        < #[trigger] edge_data@[j].0.index,
                forall|j: int|
                    0 <= j < k && #[trigger] g0.live(j) ==> exists|i: int|
                        0 <= i < edge_data@.len() && #[trigger] edge_data@[i].0.index == j,
            decreases n - k,
        {
            let ghost e0 = edge_data@;
            match &self.nodes[k] {
                Some(node) => {
                    let corr = StructuralCorrelation::compute(&entry, &node.data);
                    edge_data.push((NodeKey { index: k }, corr));
                    assert(edge_data@[edge_data@.len() - 1].0.index == k);
                },
                None => {},
            }
            assert forall|j: int| 0 <= j < k + 1 && #[trigger] g0.live(j) implies exists|i: int|
                0 <= i < edge_data@.len() && #[trigger] edge_data@[i].0.index == j by {
                if j < k {
                    let w = choose|i: int| 0 <= i < e0.len() && #[trigger] e0[i].0.index == j;
                    assert(edge_data@[w] == e0[w]);
                } else {
                    assert(edge_data@[edge_data@.len() - 1].0.index == k);
                }
            }
            k = k + 1;
        }

        // a free slot, or a new one
        let key: usize = match self.free.pop() {
            Some(f) => f,
            None => {
                self.nodes.push(None);
                n
            },
        };
        assert(!g0.live(key as int));
        assert(forall|x: int|
            0 <= x < self.free@.len() ==> #[trigger] self.free@[x] < self.nodes@.len()
                && !g0.live(self.free@[x] as int) && self.free@[x] != key) by {
            assert(forall|x: int|
                0 <= x < self.free@.len() ==> #[trigger] self.free@[x] == g0.free@[x]);
            if g0.free@.len() > 0 && self.free@.len() < g0.free@.len() {
                assert(key == g0.free@[g0.free@.len() - 1]);
            }
        }
        assert(forall|x: int, y: int|
            0 <= x < y < self.free@.len() ==> #[trigger] self.free@[x] != #[trigger] self.free@[y])
            by {
            assert(forall|x: int|
                0 <= x < self.free@.len() ==> #[trigger] self.free@[x] == g0.free@[x]);
        }
        self.nodes.set(key, Some(Node { data: entry, edges: Vec::new() }));
        let ghost g1 = *self;

        // back links from every market to the new one
        let m = edge_data.len();
        let mut forward: Vec<Edge> = Vec::new();
        let mut i: usize = 0;
        while i < m
            invariant
                g0.wf(),
                n == g0.nodes@.len(),
                n <= self.nodes@.len(),
                !g0.live(key as int),
                !g0.entries@.contains_key(eid),
                eid == entry.spec_id(),
                ticker@ == eid,
                forall|j: int|
                    0 <= j < n && #[trigger] g0.live(j) ==> exists|a: int|
                        0 <= a < m && #[trigger] edge_data@[a].0.index == j,
                forall|x: int|
                    0 <= x < self.free@.len() ==> #[trigger] self.free@[x] < self.nodes@.len()
                        && !g0.live(self.free@[x] as int) && self.free@[x] != key,
                forall|x: int, y: int|
                    0 <= x < y < self.free@.len() ==> #[trigger] self.free@[x]
                        != #[trigger] self.free@[y],
                m == edge_data@.len(),
                i <= m,
                self.entries == g0.entries,
                self.free == g1.free,
                self.nodes@.len() == g1.nodes@.len(),
                key < self.nodes@.len(),
                self.nodes@[key as int] == g1.nodes@[key as int],
                g1.nodes@[key as int] matches Some(nd) && nd.data == entry && nd.edges@.len() == 0,
                forall|k: int|
                    0 <= k < self.nodes@.len() && k != key ==> (self.nodes@[k] is Some
                        <==> g0.live(k)),
                forall|k: int|
                    0 <= k < self.nodes@.len() && k != key && g0.live(k) ==> #[trigger] self.data(k)
                        == g0.data(k),
                forall|a: int|
                    0 <= a < i ==> #[trigger] self.edges(edge_data@[a].0.index as int)
                        == g0.edges(edge_data@[a].0.index as int).push(
                        Edge { target: NodeKey { index: key }, correlation: edge_data@[a].1 },
                    ),
                forall|k: int|
                    0 <= k < self.nodes@.len() && k != key && g0.live(k) && (forall|a: int|
                        0 <= a < i ==> #[trigger] edge_data@[a].0.index != k) ==> self.edges(k)
                        == g0.edges(k),
                forall|a: int|
                    0 <= a < edge_data@.len() ==> g0.live(#[trigger] edge_data@[a].0.index as int)
                        && edge_data@[a].0.index != key && edge_data@[a].1 == correlation_of(
                        entry,
                        g0.data(edge_data@[a].0.index as int),
                    ),
                forall|a: int, b: int|
                    0 <= a < b < edge_data@.len() ==> #[trigger] edge_data@[a].0.index
                        < #[trigger] edge_data@[b].0.index,
                forward@.len() == i,
                forall|a: int|
                    0 <= a < i ==> #[trigger] forward@[a] == (Edge {
                        target: edge_data@[a].0,
                        correlation: edge_data@[a].1,
                    }),
            decreases m - i,
        {
            let ghost s0 = *self;
            let (t, corr) = edge_data[i];
            let ghost ti = t.index as int;
            assert(g0.live(ti) && ti != key);
            assert(forall|a: int| 0 <= a < i ==> #[trigger] edge_data@[a].0.index < ti);
            assert(s0.nodes@[ti] is Some);
            let mut slot: Option<Node<M>> = None;
            std::mem::swap(&mut slot, &mut self.nodes[t.index]);
            match slot {
                Some(mut node) => {
                    node.edges.push(Edge { target: NodeKey { index: key }, correlation: corr });
                    self.nodes.set(t.index, Some(node));
                },
                None => {},
            }
            assert(self.nodes@.len() == s0.nodes@.len());
            assert(forall|x: int|
                0 <= x < self.nodes@.len() && x != ti ==> #[trigger] self.nodes@[x]
                    == s0.nodes@[x]);
            assert(self.live(ti) && self.data(ti) == s0.data(ti));
            assert(self.edges(ti) == s0.edges(ti).push(
                Edge { target: NodeKey { index: key }, correlation: corr },
            ));
            assert(s0.edges(ti) == g0.edges(ti)) by {
                assert(forall|a: int| 0 <= a < i ==> #[trigger] edge_data@[a].0.index != ti);
            }
            forward.push(Edge { target: t, correlation: corr });
            i = i + 1;
            assert forall|a: int| 0 <= a < i implies #[trigger] self.edges(
                edge_data@[a].0.index as int,
            ) == g0.edges(edge_data@[a].0.index as int).push(
                Edge { target: NodeKey { index: key }, correlation: edge_data@[a].1 },
            ) by {
                let x = edge_data@[a].0.index as int;
                if a < i - 1 {
                    assert(x < ti);
                    assert(self.nodes@[x] == s0.nodes@[x]);
                    assert(s0.edges(x) == g0.edges(x).push(
                        Edge { target: NodeKey { index: key }, correlation: edge_data@[a].1 },
                    ));
                }
            }
            assert forall|k: int|
                0 <= k < self.nodes@.len() && k != key && g0.live(k) implies #[trigger] self.data(k)
                == g0.data(k) by {
                if k != ti {
                    assert(self.nodes@[k] == s0.nodes@[k]);
                    assert(s0.data(k) == g0.data(k));
                } else {
                    assert(s0.data(k) == g0.data(k));
                }
            }
            assert forall|k: int|
                0 <= k < self.nodes@.len() && k != key && g0.live(k) && (forall|a: int|
                    0 <= a < i ==> #[trigger] edge_data@[a].0.index != k) implies self.edges(k)
                == g0.edges(k) by {
                assert(edge_data@[i - 1].0.index != k);
                assert(self.nodes@[k] == s0.nodes@[k]);
                assert(forall|a: int| 0 <= a < i - 1 ==> #[trigger] edge_data@[a].0.index != k);
            }
        }

        let ghost g3 = *self;

        // forward links from the new market
        let mut slot: Option<Node<M>> = None;
        std::mem::swap(&mut slot, &mut self.nodes[key]);
        match slot {
            Some(mut node) => {
                node.edges = forward;
                self.nodes.set(key, Some(node));
            },
            None => {},
        }
        self.entries.insert(ticker, NodeKey { index: key });
        proof {
            Self::lemma_insert_done(g0, g3, *self, entry, key as int, edge_data@, forward@);
        }
    }

    /// Drops a market and every link to it.
    fn remove(&mut self, ticker: &str)
        requires
            old(self).wf(),
        ensures
            final(self).wf(),
            final(self).markets() == old(self).markets().remove(ticker@),
            !old(self).markets().contains_key(ticker@) ==> *final(self) == *old(self),
            old(self).markets().contains_key(ticker@) ==> forall|id: Seq<char>|
                #[trigger] final(self).markets().contains_key(id) ==> exists|p: int|
                    0 <= p < old(self).links(id).len() && old(self).links(id)[p].0 == ticker@
                        && final(self).links(id) == old(self).links(id).remove(p),
    {
        let ghost g0 = *self;
        let key = match self.entries.remove(&String::from_str(ticker)) {
            Some(k) => k.index,
            None => {
                assert(self.entries@ =~= g0.entries@);
                assert(self.markets() =~= g0.markets().remove(ticker@));
                return ;
            },
        };
        assert(g0.live(key as int));
        let n = self.nodes.len();
        let mut k: usize = 0;
        while k < n
            invariant
                g0.wf(),
                n == self.nodes@.len(),
                n == g0.nodes@.len(),
                k <= n,
                g0.live(key as int),
                self.entries@ == g0.entries@.remove(ticker@),
                self.entries.wf(),
                self.free == g0.free,
                forall|j: int| 0 <= j < n ==> (#[trigger] self.live(j) <==> g0.live(j)),
                forall|j: int| #[trigger] self.live(j) ==> self.data(j) == g0.data(j),
                forall|j: int| k <= j < n ==> #[trigger] self.nodes@[j] == g0.nodes@[j],
                forall|j: int|
                    0 <= j < k && j != key && #[trigger] self.live(j) ==> exists|p: int|
                        0 <= p < g0.edges(j).len() && g0.edges(j)[p].target.index == key
                            && self.edges(j) == g0.edges(j).remove(p),
                self.live(key as int) && self.edges(key as int) == g0.edges(key as int),
            decreases n - k,
        {
            let ghost s0 = *self;
            if k != key && self.nodes[k].is_some() {
                let mut slot: Option<Node<M>> = None;
                std::mem::swap(&mut slot, &mut self.nodes[k]);
                match slot {
                    Some(mut node) => {
                        let _ = unlink(&mut node.edges, key);
                        self.nodes.set(k, Some(node));
                    },
                    None => {},
                }
                proof {
                    assert(forall|x: int|
                        0 <= x < n && x != k ==> #[trigger] self.nodes@[x] == s0.nodes@[x]);
                    assert(self.live(k as int) && self.data(k as int) == s0.data(k as int));
                    assert(s0.live(k as int));
                    assert forall|j: int| #[trigger] self.live(j) == s0.live(j) && (self.live(j)
                        ==> self.data(j) == s0.data(j)) by {
                        if 0 <= j < n && j != k {
                            assert(self.nodes@[j] == s0.nodes@[j]);
                        }
                    }
                    assert(g0.live(k as int) && g0.live(key as int));
                    let w = choose|i: int|
                        0 <= i < g0.edges(k as int).len() && #[trigger] g0.edges(
                            k as int,
                        )[i].target.index == key;
                    assert(s0.edges(k as int) == g0.edges(k as int));
                    let e = g0.edges(k as int);
                    assert forall|q: int| 0 <= q < e.len() && e[q].target.index == key implies q
                        == w by {
                        if q < w {
                            assert(e[q].target != e[w].target);
                        } else if w < q {
                            assert(e[w].target != e[q].target);
                        }
                    }
                }
            }
            proof {
                assert forall|j: int|
                    0 <= j < k + 1 && j != key && #[trigger] self.live(j) implies exists|p: int|
                    0 <= p < g0.edges(j).len() && g0.edges(j)[p].target.index == key
                        && self.edges(j) == g0.edges(j).remove(p) by {
                    if j < k {
                        assert(self.nodes@[j] == s0.nodes@[j]);
                        assert(s0.live(j));
                    }
                }
            }
            k = k + 1;
        }
        let ghost g3 = *self;
        self.nodes.set(key, None);
        self.free.push(key);
        proof {
            Self::lemma_remove_done(g0, g3, *self, ticker@, key);
        }
    }

    /// What `remove` leaves behind, from the facts its loop establishes.
    #[verifier::rlimit(60)]
    proof fn lemma_remove_done(g0: Self, g3: Self, g2: Self, ticker: Seq<char>, key: usize)
        requires
            g0.wf(),
            g0.entries@.contains_key(ticker),
            g0.entries@[ticker].index == key,
            g2.entries.wf(),
            g2.entries@ == g0.entries@.remove(ticker),
            g2.free@ == g0.free@.push(key),
            g2.nodes@ == g3.nodes@.update(key as int, None),
            g3.nodes@.len() == g0.nodes@.len(),
            forall|j: int| 0 <= j < g0.nodes@.len() ==> (#[trigger] g3.live(j) <==> g0.live(j)),
            forall|j: int| #[trigger] g3.live(j) ==> g3.data(j) == g0.data(j),
            forall|j: int|
                0 <= j < g0.nodes@.len() && j != key && #[trigger] g3.live(j) ==> exists|p: int|
                    0 <= p < g0.edges(j).len() && g0.edges(j)[p].target.index == key
                        && g3.edges(j) == g0.edges(j).remove(p),
        ensures
            g2.wf(),
            g2.markets() == g0.markets().remove(ticker),
            forall|id: Seq<char>|
                #[trigger] g2.markets().contains_key(id) ==> exists|p: int|
                    0 <= p < g0.links(id).len() && g0.links(id)[p].0 == ticker && g2.links(id)
                        == g0.links(id).remove(p),
    {
        let n = g0.nodes@.len();
        assert(g0.live(key as int));
        assert(g0.data(key as int).spec_id() == ticker);
        assert forall|j: int| #[trigger] g2.live(j) <==> (g0.live(j) && j != key) by {
            if 0 <= j < n && j != key {
                assert(g2.nodes@[j] == g3.nodes@[j]);
                assert(g3.live(j) <==> g0.live(j));
            }
        }
        assert forall|j: int| #[trigger] g2.live(j) implies g2.data(j) == g0.data(j) by {
            assert(g2.nodes@[j] == g3.nodes@[j]);
            assert(g3.live(j));
        }
        // the one link to the dropped market is gone from every other
        assert forall|j: int| #[trigger] g2.live(j) implies exists|p: int|
            0 <= p < g0.edges(j).len() && g0.edges(j)[p].target.index == key && g2.edges(j)
                == g0.edges(j).remove(p) && forall|q: int|
                0 <= q < g0.edges(j).len() && #[trigger] g0.edges(j)[q].target.index == key ==> q
                    == p by {
            assert(g2.nodes@[j] == g3.nodes@[j]);
            assert(g3.live(j));
            let p = choose|p: int|
                0 <= p < g0.edges(j).len() && g0.edges(j)[p].target.index == key && g3.edges(j)
                    == g0.edges(j).remove(p);
            let e = g0.edges(j);
            assert forall|q: int| 0 <= q < e.len() && #[trigger] e[q].target.index == key implies q
                == p by {
                if q < p {
                    assert(e[q].target != e[p].target);
                } else if p < q {
                    assert(e[p].target != e[q].target);
                }
            }
        }
        assert forall|id: Seq<char>| #[trigger] g2.entries@.contains_key(id) implies g2.live(
            g2.entries@[id].index as int,
        ) && g2.data(g2.entries@[id].index as int).spec_id() == id by {
            let x = g0.entries@[id].index as int;
            assert(g0.live(x));
            if x == key {
                assert(g0.data(x).spec_id() == id);
            }
            assert(g2.live(x));
        }
        assert forall|k: int| #[trigger] g2.live(k) implies g2.entries@.contains_key(
            g2.data(k).spec_id(),
        ) && g2.entries@[g2.data(k).spec_id()].index == k by {
            assert(g0.live(k));
            assert(g0.entries@.contains_key(g0.data(k).spec_id()));
        }
        assert forall|k: int, i: int|
            #![trigger g2.edges(k)[i]]
            g2.live(k) && 0 <= i < g2.edges(k).len() implies {
            let t = g2.edges(k)[i].target.index as int;
            &&& g2.live(t)
            &&& t != k
            &&& g2.edges(k)[i].correlation == correlation_of(g2.data(k), g2.data(t))
        } by {
            let p = choose|p: int|
                0 <= p < g0.edges(k).len() && g0.edges(k)[p].target.index == key && g2.edges(k)
                    == g0.edges(k).remove(p) && forall|q: int|
                    0 <= q < g0.edges(k).len() && #[trigger] g0.edges(k)[q].target.index == key
                        ==> q == p;
            let oi = if i < p {
                i
            } else {
                i + 1
            };
            assert(g2.edges(k)[i] == g0.edges(k)[oi]);
            let t = g0.edges(k)[oi].target.index as int;
            assert(g0.live(t));
            assert(t != key);
            assert(g2.live(t));
        }
        assert forall|k: int, i: int, j: int|
            #![trigger g2.edges(k)[i], g2.edges(k)[j]]
            g2.live(k) && 0 <= i < j < g2.edges(k).len() implies g2.edges(k)[i].target
            != g2.edges(k)[j].target by {
            let p = choose|p: int|
                0 <= p < g0.edges(k).len() && g0.edges(k)[p].target.index == key && g2.edges(k)
                    == g0.edges(k).remove(p) && forall|q: int|
                    0 <= q < g0.edges(k).len() && #[trigger] g0.edges(k)[q].target.index == key
                        ==> q == p;
            let oi = if i < p {
                i
            } else {
                i + 1
            };
            let oj = if j < p {
                j
            } else {
                j + 1
            };
            assert(g2.edges(k)[i] == g0.edges(k)[oi]);
            assert(g2.edges(k)[j] == g0.edges(k)[oj]);
            assert(g0.edges(k)[oi].target != g0.edges(k)[oj].target);
        }
        assert forall|k: int, j: int|
            #![trigger g2.live(k), g2.live(j)]
            g2.live(k) && g2.live(j) && k != j implies exists|i: int|
            0 <= i < g2.edges(k).len() && #[trigger] g2.edges(k)[i].target.index == j by {
            assert(g0.live(k) && g0.live(j));
            let w = choose|i: int|
                0 <= i < g0.edges(k).len() && #[trigger] g0.edges(k)[i].target.index == j;
            let p = choose|p: int|
                0 <= p < g0.edges(k).len() && g0.edges(k)[p].target.index == key && g2.edges(k)
                    == g0.edges(k).remove(p) && forall|q: int|
                    0 <= q < g0.edges(k).len() && #[trigger] g0.edges(k)[q].target.index == key
                        ==> q == p;
            assert(w != p);
            let ni = if w < p {
                w
            } else {
                w - 1
            };
            assert(g2.edges(k)[ni] == g0.edges(k)[w]);
        }
        assert forall|x: int| 0 <= x < g2.free@.len() implies #[trigger] g2.free@[x]
            < g2.nodes@.len() && !g2.live(g2.free@[x] as int) by {
            if x < g0.free@.len() {
                assert(g2.free@[x] == g0.free@[x]);
            }
        }
        assert forall|x: int, y: int| 0 <= x < y < g2.free@.len() implies #[trigger] g2.free@[x]
            != #[trigger] g2.free@[y] by {
            assert(g2.free@[x] == g0.free@[x]);
            if y < g0.free@.len() {
                assert(g2.free@[y] == g0.free@[y]);
            } else {
                assert(!g0.live(g0.free@[x] as int));
            }
        }
        assert(g2.wf());
        assert(g2.markets() =~= g0.markets().remove(ticker)) by {
            assert forall|id: Seq<char>| #[trigger] g2.markets().contains_key(id) implies g2.markets()[id]
                == g0.markets()[id] by {
                let x = g0.entries@[id].index as int;
                assert(g0.live(x));
                if x == key {
                    assert(g0.data(x).spec_id() == id);
                }
            }
        }
        assert forall|id: Seq<char>| #[trigger] g2.markets().contains_key(id) implies exists|p: int|
            0 <= p < g0.links(id).len() && g0.links(id)[p].0 == ticker && g2.links(id)
                == g0.links(id).remove(p) by {
            let j = g0.entries@[id].index as int;
            assert(g2.entries@[id] == g0.entries@[id]);
            assert(g2.live(j));
            let p = choose|p: int|
                0 <= p < g0.edges(j).len() && g0.edges(j)[p].target.index == key && g2.edges(j)
                    == g0.edges(j).remove(p) && forall|q: int|
                    0 <= q < g0.edges(j).len() && #[trigger] g0.edges(j)[q].target.index == key
                        ==> q == p;
            let e0 = g0.edges(j);
            assert(g0.live(j));
            assert forall|i: int| 0 <= i < e0.len() && i != p implies g2.data(
                #[trigger] e0[i].target.index as int,
            ) == g0.data(e0[i].target.index as int) by {
                let t = e0[i].target.index as int;
                assert(g0.live(t));
                assert(t != key);
                assert(g2.live(t));
            }
            assert(g0.links(id)[p].0 == ticker);
            assert(g2.links(id) =~= g0.links(id).remove(p));
        }
    }

    /// Every other market with its correlation to the one named, or
    /// `None` when that one is not there.
    /// The links of a market name every other market once, each with its
    /// correlation; so there is one fewer link than there are markets.
    proof fn lemma_links_shape(&self, t: Seq<char>)
        requires
            self.wf(),
            self.markets().contains_key(t),
        ensures
            forall|a: int|
                0 <= a < self.links(t).len() ==> {
                    let id = (#[trigger] self.links(t)[a]).0;
                    &&& self.markets().contains_key(id)
                    &&& id != t
                    &&& self.links(t)[a].1 == correlation_of(self.markets()[t], self.markets()[id])
                },
            forall|a: int, b: int|
                0 <= a < b < self.links(t).len() ==> (#[trigger] self.links(t)[a]).0 != (
                #[trigger] self.links(t)[b]).0,
            forall|id: Seq<char>|
                #[trigger] self.markets().contains_key(id) && id != t ==> exists|a: int|
                    0 <= a < self.links(t).len() && (#[trigger] self.links(t)[a]).0 == id,
            self.links(t).len() + 1 == self.markets().dom().len(),
    {
        let key = self.entries@[t].index as int;
        let e = self.edges(key);
        let l = self.links(t);
        assert(self.live(key));
        assert(self.data(key).spec_id() == t);
        assert forall|a: int| 0 <= a < l.len() implies {
            let id = (#[trigger] l[a]).0;
            &&& self.markets().contains_key(id)
            &&& id != t
            &&& l[a].1 == correlation_of(self.markets()[t], self.markets()[id])
        } by {
            let x = e[a].target.index as int;
            assert(self.live(x) && x != key);
            assert(self.entries@.contains_key(self.data(x).spec_id()));
        }
        assert forall|a: int, b: int| 0 <= a < b < l.len() implies (#[trigger] l[a]).0 != (
        #[trigger] l[b]).0 by {
            let x = e[a].target.index as int;
            let y = e[b].target.index as int;
            assert(e[a].target != e[b].target);
            assert(self.live(x) && self.live(y));
            assert(self.entries@[self.data(x).spec_id()].index == x);
            assert(self.entries@[self.data(y).spec_id()].index == y);
        }
        assert forall|id: Seq<char>| #[trigger]
            self.markets().contains_key(id) && id != t implies exists|a: int|
            0 <= a < l.len() && (#[trigger] l[a]).0 == id by {
            let j = self.entries@[id].index as int;
            assert(self.live(j));
            assert(j != key);
            assert(self.live(key) && self.live(j));
            let a = choose|a: int| 0 <= a < e.len() && #[trigger] e[a].target.index == j;
            assert(l[a].0 == id);
        }
        let ids = l.map_values(|p: (Seq<char>, StructuralCorrelation)| p.0);
        assert(ids.no_duplicates()) by {
            assert forall|a: int, b: int| 0 <= a < ids.len() && 0 <= b < ids.len() && a != b
                implies ids[a] != ids[b] by {
                if a < b {
                    assert(l[a].0 != l[b].0);
                } else {
                    assert(l[b].0 != l[a].0);
                }
            }
        }
        ids.unique_seq_to_set();
        self.entries.lemma_finite();
        assert(self.markets().dom() =~= self.entries@.dom());
        assert(ids.to_set() =~= self.markets().dom().remove(t)) by {
            assert forall|id: Seq<char>| ids.to_set().contains(id) implies self.markets().dom().remove(
                t,
            ).contains(id) by {
                let a = choose|a: int| 0 <= a < ids.len() && ids[a] == id;
                assert(l[a].0 == id);
            }
            assert forall|id: Seq<char>| self.markets().dom().remove(t).contains(id) implies ids.to_set().contains(
                id,
            ) by {
                assert(self.markets().contains_key(id) && id != t);
                let a = choose|a: int| 0 <= a < l.len() && (#[trigger] l[a]).0 == id;
                assert(ids[a] == id);
            }
        }
    }

    fn similarities(&self, ticker: &str) -> (r: Option<Vec<(&str, &StructuralCorrelation)>>)
        requires
            self.wf(),
        ensures
            self.markets().contains_key(ticker@) <==> r is Some,
            r matches Some(v) ==> {
                &&& forall|i: int|
                    0 <= i < v@.len() ==> {
                        let id = (#[trigger] v@[i]).0@;
                        &&& self.markets().contains_key(id)
                        &&& id != ticker@
                        &&& *v@[i].1 == correlation_of(
                            self.markets()[ticker@],
                            self.markets()[id],
                        )
                    }
                &&& forall|i: int, j: int|
                    0 <= i < j < v@.len() ==> (#[trigger] v@[i]).0@ != (#[trigger] v@[j]).0@
                &&& forall|id: Seq<char>|
                    #[trigger] self.markets().contains_key(id) && id != ticker@ ==> exists|i: int|
                        0 <= i < v@.len() && (#[trigger] v@[i]).0@ == id
                &&& v@.map_values(|p: (&str, &StructuralCorrelation)| (p.0@, *p.1)) == self.links(
                    ticker@,
                )
            },
    {
        let key = match self.entries.get(&String::from_str(ticker)) {
            Some(k) => k.index,
            None => {
                return None;
            },
        };
        let node = match &self.nodes[key] {
            Some(nd) => nd,
            None => {
                return None;
            },
        };
        let ghost t = ticker@;
        let n = node.edges.len();
        let mut out: Vec<(&str, &StructuralCorrelation)> = Vec::new();
        let mut i: usize = 0;
        while i < n
            invariant
                self.wf(),
                self.entries@.contains_key(t),
                key == self.entries@[t].index,
                self.live(key as int),
                node == self.nodes@[key as int]->0,
                n == node.edges@.len(),
                i <= n,
                out@.len() == i,
                forall|a: int|
                    0 <= a < i ==> (#[trigger] out@[a]).0@ == self.data(
                        node.edges@[a].target.index as int,
                    ).spec_id() && *out@[a].1 == node.edges@[a].correlation,
            decreases n - i,
        {
            let edge = &node.edges[i];
            assert(self.edges(key as int)[i as int] == *edge);
            match &self.nodes[edge.target.index] {
                Some(other) => {
                    out.push((other.data.id(), &edge.correlation));
                },
                None => {},
            }
            i = i + 1;
        }
        proof {
            let e = self.edges(key as int);
            assert(self.data(key as int).spec_id() == t);
            assert forall|a: int| 0 <= a < out@.len() implies {
                let id = (#[trigger] out@[a]).0@;
                &&& self.markets().contains_key(id)
                &&& id != t
                &&& *out@[a].1 == correlation_of(self.markets()[t], self.markets()[id])
            } by {
                let x = e[a].target.index as int;
                assert(self.live(x) && x != key);
                assert(self.entries@.contains_key(self.data(x).spec_id()));
            }
            assert forall|a: int, b: int| 0 <= a < b < out@.len() implies (#[trigger] out@[a]).0@
                != (#[trigger] out@[b]).0@ by {
                let x = e[a].target.index as int;
                let y = e[b].target.index as int;
                assert(e[a].target != e[b].target);
                assert(self.live(x) && self.live(y));
                assert(self.entries@[self.data(x).spec_id()].index == x);
                assert(self.entries@[self.data(y).spec_id()].index == y);
            }
            assert forall|id: Seq<char>|
                #[trigger] self.markets().contains_key(id) && id != t implies exists|a: int|
                0 <= a < out@.len() && (#[trigger] out@[a]).0@ == id by {
                let j = self.entries@[id].index as int;
                assert(self.live(j));
                assert(j != key);
                assert(self.live(key as int) && self.live(j));
                let a = choose|a: int| 0 <= a < e.len() && #[trigger] e[a].target.index == j;
                assert(out@[a].0@ == id);
            }
        }
        proof {
            assert(out@.map_values(|p: (&str, &StructuralCorrelation)| (p.0@, *p.1)) =~= self.links(
                t,
            ));
        }
        Some(out)
    }
}

/// The markets, each linked to every other with their correlation.
pub struct StructuralCorrelationGraph<M: Metadata> {
    state: GraphState<M>,
}

impl<M: Metadata> StructuralCorrelationGraph<M> {
    /// The markets, by id.
    pub closed spec fn markets(&self) -> Map<Seq<char>, M> {
        self.state.markets()
    }

    /// The markets linked from the market `id`, each with its correlation,
    /// in the order `similarities` lists them.
    pub closed spec fn links(&self, id: Seq<char>) -> Seq<(Seq<char>, StructuralCorrelation)> {
        self.state.links(id)
    }

    /// The arena is well formed, from `new` on.
    #[verifier::type_invariant]
    closed spec fn wf(&self) -> bool {
        self.state.wf()
    }

    pub fn new() -> (r: Self)
        ensures
            r.markets() == Map::<Seq<char>, M>::empty(),
    {
        Self { state: GraphState::new() }
    }

    /// Adds a market, linked to every market already there, unless a
    /// market with its id is there already.
    pub fn insert(&mut self, entry: M)
        ensures
            old(self).markets().contains_key(entry.spec_id()) ==> *final(self) == *old(self),
            !old(self).markets().contains_key(entry.spec_id()) ==> final(self).markets() == old(
                self,
            ).markets().insert(entry.spec_id(), entry),
            !old(self).markets().contains_key(entry.spec_id()) ==> forall|id: Seq<char>|
                #[trigger] old(self).markets().contains_key(id) ==> final(self).links(id) == old(
                    self,
                ).links(id).push((entry.spec_id(), correlation_of(old(self).markets()[id], entry))),
            !old(self).markets().contains_key(entry.spec_id()) ==> final(self).links(
                entry.spec_id(),
            ).len() == old(self).markets().dom().len(),
            !old(self).markets().contains_key(entry.spec_id()) ==> forall|a: int|
                0 <= a < final(self).links(entry.spec_id()).len() ==> {
                    let id = (#[trigger] final(self).links(entry.spec_id())[a]).0;
                    &&& old(self).markets().contains_key(id)
                    &&& final(self).links(entry.spec_id())[a].1 == correlation_of(
                        entry,
                        old(self).markets()[id],
                    )
                },
            !old(self).markets().contains_key(entry.spec_id()) ==> forall|a: int, b: int|
                0 <= a < b < final(self).links(entry.spec_id()).len()
                    ==> (#[trigger] final(self).links(entry.spec_id())[a]).0
                    != (#[trigger] final(self).links(entry.spec_id())[b]).0,
    {
        proof {
            use_type_invariant(&*self);
            self.state.entries.lemma_finite();
            assert(self.markets().dom() =~= self.state.entries@.dom());
        }
        let mut state = GraphState::new();
        std::mem::swap(&mut state, &mut self.state);
        state.insert(entry);
        self.state = state;
        proof {
            let e = entry.spec_id();
            if !old(self).markets().contains_key(e) {
                self.state.lemma_links_shape(e);
                assert(old(self).markets().dom().insert(e) =~= self.markets().dom());
                assert(old(self).markets().dom().insert(e).len() == old(self).markets().dom().len()
                    + 1);
                assert forall|a: int| 0 <= a < self.links(e).len() implies {
                    let id = (#[trigger] self.links(e)[a]).0;
                    &&& old(self).markets().contains_key(id)
                    &&& self.links(e)[a].1 == correlation_of(entry, old(self).markets()[id])
                } by {
                    let id = self.links(e)[a].0;
                    assert(self.state.markets().contains_key(id) && id != e);
                }
            }
        }
    }

    /// Drops a market and every link to it.
    pub fn remove(&mut self, ticker: &str)
        ensures
            final(self).markets() == old(self).markets().remove(ticker@),
            !old(self).markets().contains_key(ticker@) ==> *final(self) == *old(self),
            old(self).markets().contains_key(ticker@) ==> forall|id: Seq<char>|
                #[trigger] final(self).markets().contains_key(id) ==> exists|p: int|
                    0 <= p < old(self).links(id).len() && old(self).links(id)[p].0 == ticker@
                        && final(self).links(id) == old(self).links(id).remove(p),
    {
        proof {
            use_type_invariant(&*self);
        }
        let mut state = GraphState::new();
        std::mem::swap(&mut state, &mut self.state);
        let ghost before = state;
        assert(before == old(self).state);
        state.remove(ticker);
        self.state = state;
        proof {
            if before.markets().contains_key(ticker@) {
                assert forall|id: Seq<char>| #[trigger]
                    self.markets().contains_key(id) implies exists|p: int|
                    0 <= p < old(self).links(id).len() && old(self).links(id)[p].0 == ticker@
                        && self.links(id) == old(self).links(id).remove(p) by {
                    assert(self.state.markets().contains_key(id));
                    assert(old(self).links(id) == before.links(id));
                    let p = choose|p: int|
                        0 <= p < before.links(id).len() && before.links(id)[p].0 == ticker@
                            && self.state.links(id) == before.links(id).remove(p);
                    assert(self.links(id) == old(self).links(id).remove(p));
                }
            }
        }
    }

    /// Every other market with its correlation to the one named, or
    /// `None` when that one is not there.
    pub fn similarities(&self, ticker: &str) -> (r: Option<Vec<(&str, &StructuralCorrelation)>>)
        ensures
            self.markets().contains_key(ticker@) <==> r is Some,
            r matches Some(v) ==> {
                &&& forall|i: int|
                    0 <= i < v@.len() ==> {
                        let id = (#[trigger] v@[i]).0@;
                        &&& self.markets().contains_key(id)
                        &&& id != ticker@
                        &&& *v@[i].1 == correlation_of(
                            self.markets()[ticker@],
                            self.markets()[id],
                        )
                    }
                &&& forall|i: int, j: int|
                    0 <= i < j < v@.len() ==> (#[trigger] v@[i]).0@ != (#[trigger] v@[j]).0@
                &&& forall|id: Seq<char>|
                    #[trigger] self.markets().contains_key(id) && id != ticker@ ==> exists|i: int|
                        0 <= i < v@.len() && (#[trigger] v@[i]).0@ == id
                &&& v@.map_values(|p: (&str, &StructuralCorrelation)| (p.0@, *p.1)) == self.links(
                    ticker@,
                )
                &&& v@.len() + 1 == self.markets().dom().len()
            },
    {
        proof {
            use_type_invariant(self);
            if self.markets().contains_key(ticker@) {
                self.state.lemma_links_shape(ticker@);
            }
        }
        self.state.similarities(ticker)
    }

    /// Acts on one message: `Insert` adds a market, `Update` drops the
    /// market with its id and adds it anew, so its links are computed
    /// afresh, and `Remove` drops a market.
    pub fn handle(&mut self, msg: MetadataTransportMsg<M>)
        ensures
            msg matches MetadataTransportMsg::Insert(m) ==> inserted(*old(self), *final(self), m),
            msg matches MetadataTransportMsg::Update(m) ==> exists|g: Self|
                removed(*old(self), g, m.spec_id()) && inserted(g, *final(self), m),
            msg matches MetadataTransportMsg::Remove(id) ==> removed(*old(self), *final(self), id@),
    {
        match msg {
            MetadataTransportMsg::Insert(m) => self.insert(m),
            MetadataTransportMsg::Update(m) => {
                let id = String::from_str(m.id());
                self.remove(id.as_str());
                let ghost g = *self;
                self.insert(m);
                assert(removed(*old(self), g, m.spec_id()) && inserted(g, *self, m));
            },
            MetadataTransportMsg::Remove(id) => self.remove(id.as_str()),
        }
    }
}

/// `g1` is `g0` after `insert(entry)`: nothing changes when a market with
/// its id is there; else the market is added, every market there gains a
/// link to it at the end of its links, and it is linked to each of them
/// once, with their correlation.
pub open spec fn inserted<M: Metadata>(
    g0: StructuralCorrelationGraph<M>,
    g1: StructuralCorrelationGraph<M>,
    entry: M,
) -> bool {
    let e = entry.spec_id();
    if g0.markets().contains_key(e) {
        g1 == g0
    } else {
        &&& g1.markets() == g0.markets().insert(e, entry)
        &&& forall|id: Seq<char>|
            #[trigger] g0.markets().contains_key(id) ==> g1.links(id) == g0.links(id).push(
                (e, correlation_of(g0.markets()[id], entry)),
            )
        &&& g1.links(e).len() == g0.markets().dom().len()
        &&& forall|a: int|
            0 <= a < g1.links(e).len() ==> {
                let id = (#[trigger] g1.links(e)[a]).0;
                &&& g0.markets().contains_key(id)
                &&& g1.links(e)[a].1 == correlation_of(entry, g0.markets()[id])
            }
        &&& forall|a: int, b: int|
            0 <= a < b < g1.links(e).len() ==> (#[trigger] g1.links(e)[a]).0 != (
            #[trigger] g1.links(e)[b]).0
    }
}

/// `g1` is `g0` after `remove(t)`: the market `t` is gone, and every other
/// market loses its link to `t`, the rest keeping their order.
pub open spec fn removed<M: Metadata>(
    g0: StructuralCorrelationGraph<M>,
    g1: StructuralCorrelationGraph<M>,
    t: Seq<char>,
) -> bool {
    &&& g1.markets() == g0.markets().remove(t)
    &&& !g0.markets().contains_key(t) ==> g1 == g0
    &&& g0.markets().contains_key(t) ==> forall|id: Seq<char>|
        #[trigger] g1.markets().contains_key(id) ==> exists|p: int|
            0 <= p < g0.links(id).len() && g0.links(id)[p].0 == t && g1.links(id) == g0.links(
                id,
            ).remove(p)
}

/// Dropping a market that was just added gives back the markets there were.
pub proof fn lemma_remove_undoes_insert<M: Metadata>(
    g0: StructuralCorrelationGraph<M>,
    g1: StructuralCorrelationGraph<M>,
    g2: StructuralCorrelationGraph<M>,
    entry: M,
)
    requires
        !g0.markets().contains_key(entry.spec_id()),
        g1.markets() == g0.markets().insert(entry.spec_id(), entry),
        g2.markets() == g1.markets().remove(entry.spec_id()),
    ensures
        g2.markets() == g0.markets(),
{
    assert(g2.markets() =~= g0.markets());
}

} // verus!
