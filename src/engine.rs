//! The engine: a registry of modules, the connection graph over them, the
//! processing order derived from it, and the routing of buffers along it.

use vstd::prelude::*;
use vstd::arithmetic::div_mod::{lemma_fundamental_div_mod, lemma_fundamental_div_mod_converse, lemma_mod_bound};
use crate::graph::{
    add_edge, add_node, edge_at, edge_count, empty_graph, graph_edges, graph_nodes, is_acyclic,
    is_topological_order, lemma_topological_order_places_sources_first, remove_last_edge,
    toposort, PatchGraph,
};
use crate::module::{ModuleBase, ModuleId};

verus! {

/// Why a topology operation was refused. A refused operation leaves the
/// engine as it was.
#[derive(Clone, Copy, Debug, PartialEq, Eq, Structural)]
pub enum EngineError {
    /// The connection would close a cycle.
    GraphCycle,
    /// An identity names no registered module.
    UnknownModule,
    /// A port index is not below the module's declared port count.
    PortIndexOutOfRange,
    /// A module with this identity is already registered.
    DuplicateModule,
}

/// A directed connection from one module's output port to another module's
/// input port.
#[derive(Clone, Copy, Debug, PartialEq, Eq, Structural)]
pub struct Connection {
    pub source: ModuleId,
    pub source_output: usize,
    pub destination: ModuleId,
    pub dest_input: usize,
}

/// The module in `slot` has produced its buffer in the current cycle.
pub open spec fn has_produced<S>(produced: Seq<Option<Vec<S>>>, slot: usize) -> bool {
    slot < produced.len() && produced[slot as int] is Some
}

/// Among the first `k` edges, the index of the last one that enters input
/// `port` of the module in `dest` and whose source has produced its buffer.
pub open spec fn feeding_edge<S>(
    edges: Seq<(usize, usize, usize, usize)>,
    k: int,
    dest: usize,
    port: int,
    produced: Seq<Option<Vec<S>>>,
) -> Option<int>
    decreases k,
{
    if k <= 0 {
        None
    } else if edges[k - 1].1 == dest && edges[k - 1].3 == port && has_produced(
        produced,
        edges[k - 1].0,
    ) {
        Some(k - 1)
    } else {
        feeding_edge(edges, k - 1, dest, port, produced)
    }
}

/// Sample `t` of input `port` of the module in `dest`, when the first `k`
/// edges have been routed: taken from the feeding edge's source buffer, and
/// `zero` where there is no feeding edge or the source buffer is too short.
pub open spec fn routed_sample<S>(
    edges: Seq<(usize, usize, usize, usize)>,
    k: int,
    dest: usize,
    port: int,
    t: int,
    produced: Seq<Option<Vec<S>>>,
    zero: S,
) -> S {
    match feeding_edge(edges, k, dest, port, produced) {
        Some(e) => {
            let buf = produced[edges[e].0 as int]->Some_0@;
            if t < buf.len() {
                buf[t]
            } else {
                zero
            }
        },
        None => zero,
    }
}

/// The cycle's output: the buffer of the last module in the processing order
/// if it has produced one, else `buffer_size` samples of `zero`.
pub open spec fn sink_output<S>(
    order: Seq<usize>,
    produced: Seq<Option<Vec<S>>>,
    buffer_size: nat,
    zero: S,
) -> Seq<S> {
    if order.len() > 0 && has_produced(produced, order.last()) {
        produced[order.last() as int]->Some_0@
    } else {
        Seq::new(buffer_size, |i: int| zero)
    }
}

/// The modules, kept in the order in which they were registered (a module's
/// place there is its slot, and its node index in the graph), the graph over
/// them and the cached processing order, a list of slots.
pub struct AudioEngine {
    sample_rate: u32,
    buffer_size: usize,
    modules: Vec<ModuleBase>,
    module_graph: PatchGraph,
    processing_order: Vec<usize>,
}

impl AudioEngine {
    pub closed spec fn spec_sample_rate(&self) -> nat {
        self.sample_rate as nat
    }

    pub closed spec fn spec_buffer_size(&self) -> nat {
        self.buffer_size as nat
    }

    /// The registered modules, by slot.
    pub closed spec fn modules(&self) -> Seq<ModuleBase> {
        self.modules@
    }

    /// The connections, in the order they were made, as
    /// `(source slot, destination slot, source_output, dest_input)`.
    pub closed spec fn edges(&self) -> Seq<(usize, usize, usize, usize)> {
        graph_edges(self.module_graph)
    }

    /// The processing order, as a list of slots.
    pub closed spec fn order(&self) -> Seq<usize> {
        self.processing_order@
    }

    pub open spec fn has_module(&self, id: ModuleId) -> bool {
        exists|i: int| 0 <= i < self.modules().len() && (#[trigger] self.modules()[i]).spec_id() == id
    }

    /// The slot of a registered module.
    pub open spec fn slot_of(&self, id: ModuleId) -> int {
        choose|i: int| 0 <= i < self.modules().len() && (#[trigger] self.modules()[i]).spec_id() == id
    }

    /// The edge that a connection between two registered modules becomes.
    pub open spec fn edge_for(
        &self,
        source: ModuleId,
        source_output: usize,
        destination: ModuleId,
        dest_input: usize,
    ) -> (usize, usize, usize, usize) {
        (self.slot_of(source) as usize, self.slot_of(destination) as usize, source_output, dest_input)
    }

    /// Each edge joins two registered modules through ports that they declare.
    pub open spec fn edges_in_range(
        modules: Seq<ModuleBase>,
        edges: Seq<(usize, usize, usize, usize)>,
    ) -> bool {
        forall|k: int|
            0 <= k < edges.len() ==> {
                let e = #[trigger] edges[k];
                &&& e.0 < modules.len()
                &&& e.1 < modules.len()
                &&& e.2 < modules[e.0 as int].spec_output_count()
                &&& e.3 < modules[e.1 as int].spec_input_count()
            }
    }

    pub closed spec fn wf(&self) -> bool {
        &&& graph_nodes(self.module_graph).len() == self.modules@.len()
        &&& forall|i: int|
            0 <= i < self.modules@.len() ==> graph_nodes(self.module_graph)[i]
                == (#[trigger] self.modules@[i]).spec_id().value
        &&& forall|i: int, j: int|
            0 <= i < j < self.modules@.len() ==> (#[trigger] self.modules@[i]).spec_id()
                != (#[trigger] self.modules@[j]).spec_id()
        &&& forall|i: int|
            0 <= i < self.modules@.len() ==> (#[trigger] self.modules@[i]).spec_input_count()
                * self.buffer_size <= usize::MAX
        &&& Self::edges_in_range(self.modules@, graph_edges(self.module_graph))
        &&& is_topological_order(
            self.processing_order@,
            self.modules@.len(),
            graph_edges(self.module_graph),
        )
        &&& self.modules@.len() < u32::MAX
        &&& graph_edges(self.module_graph).len() < u32::MAX
    }

    /// An engine with no modules and no connections.
    pub fn new(sample_rate: u32, buffer_size: usize) -> (r: AudioEngine)
        ensures
            r.wf(),
            r.spec_sample_rate() == sample_rate,
            r.spec_buffer_size() == buffer_size,
            r.modules().len() == 0,
            r.edges().len() == 0,
            r.order().len() == 0,
            is_topological_order(r.order(), r.modules().len(), r.edges()),
    {
        AudioEngine {
            sample_rate,
            buffer_size,
            modules: Vec::new(),
            module_graph: empty_graph(),
            processing_order: Vec::new(),
        }
    }

    pub fn sample_rate(&self) -> (r: u32)
        ensures
            r == self.spec_sample_rate(),
    {
        self.sample_rate
    }

    pub fn buffer_size(&self) -> (r: usize)
        ensures
            r == self.spec_buffer_size(),
    {
        self.buffer_size
    }

    pub fn module_count(&self) -> (r: usize)
        ensures
            r == self.modules().len(),
    {
        self.modules.len()
    }

    /// The slot of the module with this identity, if one is registered.
    pub fn module_slot(&self, id: ModuleId) -> (r: Option<usize>)
        requires
            self.wf(),
        ensures
            match r {
                Some(i) => self.has_module(id) && i == self.slot_of(id),
                None => !self.has_module(id),
            },
    {
        let mut i: usize = 0;
        while i < self.modules.len()
            invariant
                self.wf(),
                i <= self.modules@.len(),
                forall|j: int| 0 <= j < i ==> (#[trigger] self.modules@[j]).spec_id() != id,
            decreases self.modules@.len() - i,
        {
            if self.modules[i].id() == id {
                proof {
                    let k = self.slot_of(id);
                    assert(self.modules()[i as int].spec_id() == id);
                    if k != i as int {
                        if k < i {
                            assert(self.modules@[k].spec_id() != self.modules@[i as int].spec_id());
                        } else {
                            assert(self.modules@[i as int].spec_id() != self.modules@[k].spec_id());
                        }
                    }
                }
                return Some(i);
            }
            i = i + 1;
        }
        None
    }

    /// Registers a module under its identity, as a new node with no
    /// connections, and recomputes the processing order.
    pub fn add_module(&mut self, module: ModuleBase) -> (r: Result<ModuleId, EngineError>)
        requires
            old(self).wf(),
            old(self).modules().len() + 1 < u32::MAX,
            module.spec_input_count() * old(self).spec_buffer_size() <= usize::MAX,
        ensures
            final(self).wf(),
            final(self).spec_sample_rate() == old(self).spec_sample_rate(),
            final(self).spec_buffer_size() == old(self).spec_buffer_size(),
            final(self).edges() == old(self).edges(),
            is_topological_order(final(self).order(), final(self).modules().len(), final(self).edges()),
            old(self).has_module(module.spec_id()) ==> {
                &&& r == Err::<ModuleId, EngineError>(EngineError::DuplicateModule)
                &&& final(self).modules() == old(self).modules()
                &&& final(self).order() == old(self).order()
            },
            !old(self).has_module(module.spec_id()) ==> {
                &&& r == Ok::<ModuleId, EngineError>(module.spec_id())
                &&& final(self).modules() == old(self).modules().push(module)
            },
    {
        let id = module.id();
        if self.module_slot(id).is_some() {
            return Err(EngineError::DuplicateModule);
        }
        let ghost old_order = self.processing_order@;
        let ghost n = self.modules@.len();
        add_node(&mut self.module_graph, id.value);
        self.modules.push(module);
        proof {
            let edges = graph_edges(self.module_graph);
            let grown = old_order.push(n as usize);
            assert forall|i: int| 0 <= i < grown.len() implies (#[trigger] grown[i]) < n + 1 by {}
            assert forall|s: usize| s < n + 1 implies #[trigger] grown.contains(s) by {
                if s < n {
                    assert(old_order.contains(s));
                    let i = choose|i: int| 0 <= i < old_order.len() && old_order[i] == s;
                    assert(grown[i] == s);
                } else {
                    assert(grown[n as int] == s);
                }
            }
            assert forall|k: int, i: int, j: int|
                0 <= k < edges.len() && 0 <= i < grown.len() && 0 <= j < grown.len()
                    && (#[trigger] grown[i]) == (#[trigger] edges[k]).0 && (#[trigger] grown[j])
                    == edges[k].1 implies i < j by {
                assert(edges[k].0 < n && edges[k].1 < n);
                assert(i < n && j < n);
                assert(old_order[i] == grown[i] && old_order[j] == grown[j]);
            }
            assert(is_topological_order(grown, n + 1, edges));
            assert(is_acyclic(n + 1, edges));
            assert forall|i: int, j: int|
                0 <= i < j < self.modules@.len() implies (#[trigger] self.modules@[i]).spec_id()
                    != (#[trigger] self.modules@[j]).spec_id() by {
                if j == n {
                    assert(old(self).modules()[i].spec_id() == self.modules@[i].spec_id());
                }
            }
            assert forall|i: int|
                0 <= i < self.modules@.len() implies graph_nodes(self.module_graph)[i]
                    == (#[trigger] self.modules@[i]).spec_id().value by {}
            assert forall|i: int|
                0 <= i < self.modules@.len() implies (#[trigger] self.modules@[i]).spec_input_count()
                    * self.buffer_size <= usize::MAX by {}
            assert(Self::edges_in_range(self.modules@, edges)) by {
                assert forall|k: int| 0 <= k < edges.len() implies {
                    let e = #[trigger] edges[k];
                    &&& e.0 < self.modules@.len()
                    &&& e.1 < self.modules@.len()
                    &&& e.2 < self.modules@[e.0 as int].spec_output_count()
                    &&& e.3 < self.modules@[e.1 as int].spec_input_count()
                } by {
                    let e = edges[k];
                    assert(old(self).modules()[e.0 as int] == self.modules@[e.0 as int]);
                    assert(old(self).modules()[e.1 as int] == self.modules@[e.1 as int]);
                }
            }
        }
        match toposort(&self.module_graph) {
            Some(order) => {
                self.processing_order = order;
            },
            None => {
                proof {
                    assert(false);
                }
            },
        }
        Ok(id)
    }

    /// The source's output port and the destination's input port both exist.
    pub open spec fn ports_in_range(
        &self,
        source: ModuleId,
        source_output: usize,
        destination: ModuleId,
        dest_input: usize,
    ) -> bool {
        &&& source_output < self.modules()[self.slot_of(source)].spec_output_count()
        &&& dest_input < self.modules()[self.slot_of(destination)].spec_input_count()
    }

    /// Connects `source`'s output port `source_output` to `destination`'s
    /// input port `dest_input` and recomputes the processing order. Refused,
    /// with the engine left as it was, when either module is unknown, when a
    /// port index is out of range, or when the connection would close a cycle.
    pub fn connect_modules(
        &mut self,
        source: ModuleId,
        source_output: usize,
        destination: ModuleId,
        dest_input: usize,
    ) -> (r: Result<(), EngineError>)
        requires
            old(self).wf(),
            old(self).edges().len() + 1 < u32::MAX,
        ensures
            final(self).wf(),
            final(self).spec_sample_rate() == old(self).spec_sample_rate(),
            final(self).spec_buffer_size() == old(self).spec_buffer_size(),
            final(self).modules() == old(self).modules(),
            is_topological_order(final(self).order(), final(self).modules().len(), final(self).edges()),
            (r == Err::<(), EngineError>(EngineError::UnknownModule)) <==> !(old(self).has_module(
                source,
            ) && old(self).has_module(destination)),
            (r == Err::<(), EngineError>(EngineError::PortIndexOutOfRange)) <==> (old(
                self,
            ).has_module(source) && old(self).has_module(destination) && !old(
                self,
            ).ports_in_range(source, source_output, destination, dest_input)),
            (r == Err::<(), EngineError>(EngineError::GraphCycle)) <==> (old(self).has_module(
                source,
            ) && old(self).has_module(destination) && old(self).ports_in_range(
                source,
                source_output,
                destination,
                dest_input,
            ) && !is_acyclic(
                old(self).modules().len(),
                old(self).edges().push(
                    old(self).edge_for(source, source_output, destination, dest_input),
                ),
            )),
            r != Err::<(), EngineError>(EngineError::DuplicateModule),
            r is Err ==> final(self).edges() == old(self).edges() && final(self).order() == old(
                self,
            ).order(),
            r is Ok ==> final(self).edges() == old(self).edges().push(
                old(self).edge_for(source, source_output, destination, dest_input),
            ),
    {
        let s = match self.module_slot(source) {
            Some(s) => s,
            None => return Err(EngineError::UnknownModule),
        };
        let d = match self.module_slot(destination) {
            Some(d) => d,
            None => return Err(EngineError::UnknownModule),
        };
        if source_output >= self.modules[s].output_count() || dest_input
            >= self.modules[d].input_count() {
            return Err(EngineError::PortIndexOutOfRange);
        }
        let ghost old_edges = graph_edges(self.module_graph);
        let e = add_edge(&mut self.module_graph, s, d, source_output, dest_input);
        match toposort(&self.module_graph) {
            Some(order) => {
                self.processing_order = order;
                proof {
                    let edges = graph_edges(self.module_graph);
                    assert(Self::edges_in_range(self.modules@, edges)) by {
                        assert forall|k: int| 0 <= k < edges.len() implies {
                            let e = #[trigger] edges[k];
                            &&& e.0 < self.modules@.len()
                            &&& e.1 < self.modules@.len()
                            &&& e.2 < self.modules@[e.0 as int].spec_output_count()
                            &&& e.3 < self.modules@[e.1 as int].spec_input_count()
                        } by {
                            if k < old_edges.len() {
                                assert(edges[k] == old_edges[k]);
                            }
                        }
                    }
                }
                Ok(())
            },
            None => {
                remove_last_edge(&mut self.module_graph, e);
                proof {
                    assert(graph_edges(self.module_graph) =~= old_edges);
                }
                Err(EngineError::GraphCycle)
            },
        }
    }

    /// The processing order, as a list of slots.
    pub fn processing_slots(&self) -> (r: Vec<usize>)
        ensures
            r@ == self.order(),
    {
        self.processing_order.clone()
    }

    /// The processing order, as a list of module identities.
    pub fn processing_order(&self) -> (r: Vec<ModuleId>)
        requires
            self.wf(),
        ensures
            r@.len() == self.order().len(),
            forall|i: int|
                0 <= i < r@.len() ==> #[trigger] r@[i] == self.modules()[self.order()[i] as int].spec_id(),
    {
        let mut r: Vec<ModuleId> = Vec::new();
        let mut i: usize = 0;
        while i < self.processing_order.len()
            invariant
                self.wf(),
                i <= self.processing_order@.len(),
                r@.len() == i,
                forall|j: int|
                    0 <= j < i ==> #[trigger] r@[j] == self.modules()[self.order()[j] as int].spec_id(),
            decreases self.processing_order@.len() - i,
        {
            let slot = self.processing_order[i];
            r.push(self.modules[slot].id());
            i = i + 1;
        }
        r
    }

    /// The connections, in the order they were made.
    pub fn connections(&self) -> (r: Vec<Connection>)
        requires
            self.wf(),
        ensures
            r@.len() == self.edges().len(),
            forall|k: int|
                0 <= k < r@.len() ==> {
                    let e = self.edges()[k];
                    &&& (#[trigger] r@[k]).source == self.modules()[e.0 as int].spec_id()
                    &&& r@[k].destination == self.modules()[e.1 as int].spec_id()
                    &&& r@[k].source_output == e.2
                    &&& r@[k].dest_input == e.3
                },
    {
        let mut r: Vec<Connection> = Vec::new();
        let n = edge_count(&self.module_graph);
        let mut k: usize = 0;
        while k < n
            invariant
                self.wf(),
                n == self.edges().len(),
                k <= n,
                r@.len() == k,
                forall|j: int|
                    0 <= j < k ==> {
                        let e = self.edges()[j];
                        &&& (#[trigger] r@[j]).source == self.modules()[e.0 as int].spec_id()
                        &&& r@[j].destination == self.modules()[e.1 as int].spec_id()
                        &&& r@[j].source_output == e.2
                        &&& r@[j].dest_input == e.3
                    },
            decreases n - k,
        {
            let (s, d, so, di) = edge_at(&self.module_graph, k);
            proof {
                assert(self.edges()[k as int] == (s, d, so, di));
            }
            r.push(
                Connection {
                    source: self.modules[s].id(),
                    source_output: so,
                    destination: self.modules[d].id(),
                    dest_input: di,
                },
            );
            k = k + 1;
        }
        r
    }

    /// The input buffer of the module in `slot` for this cycle: one block of
    /// `buffer_size` samples per declared input port, one after another. Each
    /// block is copied from the source of the last connection into that port
    /// whose source has produced its buffer (`produced`, by slot), and is
    /// `zero` where there is none.
    pub fn assemble_inputs<S: Copy>(
        &self,
        slot: usize,
        produced: &Vec<Option<Vec<S>>>,
        zero: S,
    ) -> (r: Vec<S>)
        requires
            self.wf(),
            slot < self.modules().len(),
        ensures
            r@.len() == self.modules()[slot as int].spec_input_count() * self.spec_buffer_size(),
            forall|idx: int|
                0 <= idx < r@.len() ==> #[trigger] r@[idx] == routed_sample(
                    self.edges(),
                    self.edges().len() as int,
                    slot,
                    idx / self.spec_buffer_size() as int,
                    idx % self.spec_buffer_size() as int,
                    produced@,
                    zero,
                ),
    {
        let b = self.buffer_size;
        let count = self.modules[slot].input_count();
        proof {
            assert(self.modules@[slot as int].spec_input_count() * self.buffer_size <= usize::MAX);
        }
        let total = count * b;
        let mut inputs: Vec<S> = Vec::new();
        while inputs.len() < total
            invariant
                inputs@.len() <= total,
                forall|idx: int| 0 <= idx < inputs@.len() ==> #[trigger] inputs@[idx] == zero,
            decreases total - inputs@.len(),
        {
            inputs.push(zero);
        }
        let n = edge_count(&self.module_graph);
        let mut k: usize = 0;
        while k < n
            invariant
                self.wf(),
                slot < self.modules().len(),
                b == self.spec_buffer_size(),
                count == self.modules()[slot as int].spec_input_count(),
                total == count * b,
                n == self.edges().len(),
                k <= n,
                inputs@.len() == total,
                forall|idx: int|
                    0 <= idx < total ==> #[trigger] inputs@[idx] == routed_sample(
                        self.edges(),
                        k as int,
                        slot,
                        idx / b as int,
                        idx % b as int,
                        produced@,
                        zero,
                    ),
            decreases n - k,
        {
            let (src, dst, _so, di) = edge_at(&self.module_graph, k);
            let ghost edges = self.edges();
            proof {
                assert(edges[k as int] == (src, dst, _so, di));
            }
            let feeds = dst == slot && src < produced.len() && produced[src].is_some();
            if feeds {
                let buf = produced[src].as_ref().unwrap();
                proof {
                    assert(di < count);
                    assert((di + 1) * b <= count * b) by (nonlinear_arith)
                        requires di + 1 <= count;
                }
                let mut t: usize = 0;
                proof {
                    assert forall|idx: int| 0 <= idx < total implies #[trigger] (idx % (b as int)) >= 0 by {
                        if b == 0 {
                            assert(total == 0) by (nonlinear_arith)
                                requires total == count * b, b == 0;
                        } else {
                            lemma_mod_bound(idx, b as int);
                        }
                    }
                }
                while t < b
                    invariant
                        self.wf(),
                        edges == self.edges(),
                        b == self.spec_buffer_size(),
                        total == count * b,
                        (di + 1) * b <= count * b,
                        n == edges.len(),
                        k < n,
                        edges[k as int] == (src, dst, _so, di),
                        dst == slot,
                        has_produced(produced@, src),
                        *buf == produced@[src as int]->Some_0,
                        t <= b,
                        inputs@.len() == total,
                        forall|idx: int|
                            0 <= idx < total ==> #[trigger] inputs@[idx] == (if idx / b as int
                                == di && (idx % (b as int)) < t {
                                routed_sample(
                                    edges,
                                    k + 1,
                                    slot,
                                    idx / b as int,
                                    idx % b as int,
                                    produced@,
                                    zero,
                                )
                            } else {
                                routed_sample(
                                    edges,
                                    k as int,
                                    slot,
                                    idx / b as int,
                                    idx % b as int,
                                    produced@,
                                    zero,
                                )
                            }),
                    decreases b - t,
                {
                    let v = if t < buf.len() {
                        buf[t]
                    } else {
                        zero
                    };
                    proof {
                        assert(di * b + t < (di + 1) * b) by (nonlinear_arith)
                            requires t < b;
                        lemma_fundamental_div_mod_converse(
                            (di * b + t) as int,
                            b as int,
                            di as int,
                            t as int,
                        );
                    }
                    let ghost before = inputs@;
                    inputs.set(di * b + t, v);
                    proof {
                        let p = (di * b + t) as int;
                        assert(feeding_edge(edges, k + 1, slot, di as int, produced@) == Some(k as int));
                        assert forall|idx: int| 0 <= idx < total implies #[trigger] inputs@[idx]
                            == (if idx / b as int == di && (idx % (b as int)) < t + 1 {
                            routed_sample(
                                edges,
                                k + 1,
                                slot,
                                idx / b as int,
                                idx % b as int,
                                produced@,
                                zero,
                            )
                        } else {
                            routed_sample(
                                edges,
                                k as int,
                                slot,
                                idx / b as int,
                                idx % b as int,
                                produced@,
                                zero,
                            )
                        }) by {
                            if idx != p {
                                assert(inputs@[idx] == before[idx]);
                                lemma_fundamental_div_mod(idx, b as int);
                                if idx / b as int == di && (idx % (b as int)) == t {
                                    assert(idx == b * di + t);
                                    assert(b * di == di * b) by (nonlinear_arith);
                                }
                            }
                        }
                    }
                    t = t + 1;
                }
                proof {
                    assert forall|idx: int| 0 <= idx < total implies #[trigger] inputs@[idx]
                        == routed_sample(
                        edges,
                        k + 1,
                        slot,
                        idx / b as int,
                        idx % b as int,
                        produced@,
                        zero,
                    ) by {
                        if b == 0 {
                            assert(total == 0) by (nonlinear_arith)
                                requires total == count * b, b == 0;
                        } else {
                            lemma_mod_bound(idx, b as int);
                            if idx / b as int != di {
                                assert(feeding_edge(edges, k + 1, slot, idx / b as int, produced@)
                                    == feeding_edge(edges, k as int, slot, idx / b as int, produced@));
                            }
                        }
                    }
                }
            } else {
                proof {
                    assert forall|idx: int| 0 <= idx < total implies #[trigger] inputs@[idx]
                        == routed_sample(
                        edges,
                        k + 1,
                        slot,
                        idx / b as int,
                        idx % b as int,
                        produced@,
                        zero,
                    ) by {
                        assert(feeding_edge(edges, k + 1, slot, idx / b as int, produced@)
                            == feeding_edge(edges, k as int, slot, idx / b as int, produced@));
                    }
                }
            }
            k = k + 1;
        }
        inputs
    }

    /// The cycle's output once the modules have produced their buffers
    /// (`produced`, by slot): the buffer of the last module in the processing
    /// order, the implicit sink.
    pub fn cycle_output<S: Copy>(&self, produced: &Vec<Option<Vec<S>>>, zero: S) -> (r: Vec<S>)
        ensures
            r@ == sink_output(self.order(), produced@, self.spec_buffer_size(), zero),
    {
        let len = self.processing_order.len();
        if len > 0 {
            let last = self.processing_order[len - 1];
            if last < produced.len() {
                match &produced[last] {
                    Some(buf) => {
                        let mut r: Vec<S> = Vec::new();
                        let mut i: usize = 0;
                        while i < buf.len()
                            invariant
                                i <= buf@.len(),
                                r@ == buf@.subrange(0, i as int),
                            decreases buf@.len() - i,
                        {
                            r.push(buf[i]);
                            i = i + 1;
                            proof {
                                assert(r@ =~= buf@.subrange(0, i as int));
                            }
                        }
                        proof {
                            assert(r@ =~= buf@);
                        }
                        return r;
                    },
                    None => {},
                }
            }
        }
        let mut r: Vec<S> = Vec::new();
        while r.len() < self.buffer_size
            invariant
                r@.len() <= self.buffer_size,
                forall|i: int| 0 <= i < r@.len() ==> #[trigger] r@[i] == zero,
            decreases self.buffer_size - r@.len(),
        {
            r.push(zero);
        }
        proof {
            assert(r@ =~= Seq::new(self.spec_buffer_size(), |i: int| zero));
        }
        r
    }

    /// In the processing order, every connection's source stands before its
    /// destination.
    pub proof fn lemma_order_respects_connections(&self, k: int)
        requires
            self.wf(),
            0 <= k < self.edges().len(),
        ensures
            exists|i: int, j: int|
                0 <= i < j < self.order().len() && #[trigger] self.order()[i] == self.edges()[k].0
                    && #[trigger] self.order()[j] == self.edges()[k].1,
    {
        lemma_topological_order_places_sources_first(
            self.order(),
            self.modules().len(),
            self.edges(),
            k,
        );
    }

    /// Run in processing order, a module finds every connection's source
    /// ready: when the modules before position `p` have produced their
    /// buffers, so has the source of each connection into the module at `p`.
    pub proof fn lemma_sources_ready<S>(&self, p: int, produced: Seq<Option<Vec<S>>>, k: int)
        requires
            self.wf(),
            0 <= p < self.order().len(),
            produced.len() == self.modules().len(),
            forall|q: int| 0 <= q < p ==> produced[#[trigger] self.order()[q] as int] is Some,
            0 <= k < self.edges().len(),
            self.edges()[k].1 == self.order()[p],
        ensures
            has_produced(produced, self.edges()[k].0),
    {
        let order = self.order();
        let e = self.edges()[k];
        assert(order.contains(e.0));
        let i = choose|i: int| 0 <= i < order.len() && order[i] == e.0;
        assert(i < p);
        assert(produced[order[i] as int] is Some);
    }

    /// The module with this identity, if one is registered.
    pub fn get_module(&self, id: ModuleId) -> (r: Option<&ModuleBase>)
        requires
            self.wf(),
        ensures
            match r {
                Some(m) => self.has_module(id) && *m == self.modules()[self.slot_of(id)],
                None => !self.has_module(id),
            },
    {
        match self.module_slot(id) {
            Some(i) => Some(&self.modules[i]),
            None => None,
        }
    }
}

} // verus!
