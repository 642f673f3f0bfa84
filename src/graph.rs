//! The schematic graph: nodes with indexed ports, and edges from output ports to input
//! ports. Node 0 is the input boundary and the last node the output boundary.
use vstd::prelude::*;

use crate::default_value::DefaultValue;
use crate::definition::{SchematicDefinition, SCHEMATIC_INPUT, SCHEMATIC_OUTPUT};
use crate::text::{copy_string, str_eq};

verus! {

/// Whether a port receives packets (an input) or sends them (an output).
#[derive(Debug, Clone, Copy, PartialEq, Eq, Structural)]
pub enum PortDirection {
    In,
    Out,
}

/// A port by node, direction and position among that node's ports of that direction.
#[derive(Debug, Clone, Copy, PartialEq, Eq, Structural)]
pub struct PortRef {
    pub node: usize,
    pub direction: PortDirection,
    pub index: usize,
}

/// An operation instance. `inputs` and `outputs` hold schematic-wide port ids.
#[derive(Debug)]
pub struct Node {
    pub name: String,
    pub namespace: String,
    pub operation: String,
    pub inputs: Vec<usize>,
    pub outputs: Vec<usize>,
}

/// A port: the node it belongs to, its position among that node's ports of its
/// direction, and its name.
#[derive(Debug)]
pub struct PortInfo {
    pub node: usize,
    pub index: usize,
    pub name: String,
}

/// An edge from an output port (or from nothing, for an edge fed by its default alone) to
/// an input port, with the default delivered in place of an upstream error.
#[derive(Debug)]
pub struct Edge {
    pub from: Option<usize>,
    pub to: usize,
    pub default: Option<DefaultValue>,
}

/// Errors in building a schematic from its definition.
#[derive(Debug, PartialEq, Eq)]
pub enum GraphError {
    /// A connection names an instance that is not declared.
    MissingInstance(String),
    /// A connection has neither an upstream port nor a default.
    MissingUpstream(usize),
    /// A connection has no downstream port, or its downstream is the input boundary,
    /// or its upstream is the output boundary.
    InvalidEndpoint(usize),
    /// A second connection into the same input port.
    DuplicateInput(usize),
}

/// An immutable dataflow graph.
#[derive(Debug)]
pub struct Schematic {
    pub name: String,
    pub nodes: Vec<Node>,
    pub in_ports: Vec<PortInfo>,
    pub out_ports: Vec<PortInfo>,
    pub edges: Vec<Edge>,
}

impl Schematic {
    pub open spec fn input_node(&self) -> int {
        0
    }

    pub open spec fn output_node(&self) -> int {
        self.nodes.len() - 1
    }

    /// Whether every port id a node lists is a port of that node.
    pub open spec fn ports_consistent(&self) -> bool {
        &&& forall|v: int, k: int|
            0 <= v < self.nodes.len() && 0 <= k < self.nodes@[v].inputs.len() ==> {
                let id = #[trigger] self.nodes@[v].inputs@[k];
                id < self.in_ports.len() && self.in_ports@[id as int].node == v && self.in_ports@[id as int].index == k
            }
        &&& forall|v: int, k: int|
            0 <= v < self.nodes.len() && 0 <= k < self.nodes@[v].outputs.len() ==> {
                let id = #[trigger] self.nodes@[v].outputs@[k];
                id < self.out_ports.len() && self.out_ports@[id as int].node == v && self.out_ports@[id as int].index == k
            }
        &&& forall|id: int|
            0 <= id < self.in_ports.len() ==> {
                let p = #[trigger] self.in_ports@[id];
                &&& p.node < self.nodes.len()
                &&& p.index < self.nodes@[p.node as int].inputs.len()
                &&& self.nodes@[p.node as int].inputs@[p.index as int] == id
            }
        &&& forall|id: int|
            0 <= id < self.out_ports.len() ==> {
                let p = #[trigger] self.out_ports@[id];
                &&& p.node < self.nodes.len()
                &&& p.index < self.nodes@[p.node as int].outputs.len()
                &&& self.nodes@[p.node as int].outputs@[p.index as int] == id
            }
    }

    /// Whether the edges join existing ports, each input port is fed by at most one
    /// edge, and an edge without an upstream port has a default.
    pub open spec fn edges_consistent(&self) -> bool {
        &&& forall|e: int|
            0 <= e < self.edges.len() ==> {
                let edge = #[trigger] self.edges@[e];
                &&& edge.to < self.in_ports.len()
                &&& edge.from is Some ==> edge.from->Some_0 < self.out_ports.len()
                &&& edge.from is None ==> edge.default is Some
            }
        &&& forall|e1: int, e2: int|
            0 <= e1 < self.edges.len() && 0 <= e2 < self.edges.len() && e1 != e2
                ==> #[trigger] self.edges@[e1].to != #[trigger] self.edges@[e2].to
    }

    /// The schematic's well-formedness.
    pub open spec fn wf(&self) -> bool {
        &&& 2 <= self.nodes.len() < usize::MAX
        &&& self.in_ports.len() < usize::MAX
        &&& self.out_ports.len() < usize::MAX
        &&& self.edges.len() < usize::MAX
        &&& self.nodes@[0].inputs.len() == 0
        &&& self.nodes@[self.nodes.len() - 1].outputs.len() == 0
        &&& forall|id: int|
            0 <= id < self.in_ports.len() ==> #[trigger] self.in_ports@[id].node != 0
        &&& forall|id: int|
            0 <= id < self.out_ports.len() ==> #[trigger] self.out_ports@[id].node
                != self.nodes.len() - 1
        &&& self.ports_consistent()
        &&& self.edges_consistent()
    }

    /// The index of the input boundary.
    pub fn input(&self) -> (r: usize)
        ensures
            r == self.input_node(),
    {
        0
    }

    /// The index of the output boundary.
    pub fn output(&self) -> (r: usize)
        requires
            self.wf(),
        ensures
            r == self.output_node(),
    {
        self.nodes.len() - 1
    }

    /// The schematic's name.
    pub fn name(&self) -> (r: &str)
        ensures
            r@ == self.name@,
    {
        self.name.as_str()
    }

    /// The schematic-wide id of the port `port` refers to, if it exists.
    pub open spec fn port_id(&self, port: PortRef) -> Option<usize> {
        if port.node < self.nodes.len() {
            match port.direction {
                PortDirection::In => if port.index < self.nodes@[port.node as int].inputs.len() {
                    Some(self.nodes@[port.node as int].inputs@[port.index as int])
                } else {
                    None
                },
                PortDirection::Out => if port.index
                    < self.nodes@[port.node as int].outputs.len() {
                    Some(self.nodes@[port.node as int].outputs@[port.index as int])
                } else {
                    None
                },
            }
        } else {
            None
        }
    }

    /// The name of the port `port` refers to, if it exists.
    pub fn get_port_name(&self, port: PortRef) -> (r: Option<&str>)
        requires
            self.wf(),
        ensures
            r is Some <==> self.port_id(port) is Some,
            r is Some ==> r->Some_0@ == (match port.direction {
                PortDirection::In => self.in_ports@[self.port_id(port)->Some_0 as int].name@,
                PortDirection::Out => self.out_ports@[self.port_id(port)->Some_0 as int].name@,
            }),
    {
        if port.node >= self.nodes.len() {
            return None;
        }
        let node = &self.nodes[port.node];
        match port.direction {
            PortDirection::In => {
                if port.index >= node.inputs.len() {
                    return None;
                }
                Some(self.in_ports[node.inputs[port.index]].name.as_str())
            },
            PortDirection::Out => {
                if port.index >= node.outputs.len() {
                    return None;
                }
                Some(self.out_ports[node.outputs[port.index]].name.as_str())
            },
        }
    }

    /// Whether edge `e` touches node `node` on the given side: leaving it for `Out`,
    /// entering it for `In`.
    pub open spec fn edge_at(&self, e: int, node: int, direction: PortDirection) -> bool {
        let edge = self.edges@[e];
        match direction {
            PortDirection::Out => edge.from is Some && self.out_ports@[edge.from->Some_0 as int].node
                == node,
            PortDirection::In => self.in_ports@[edge.to as int].node == node,
        }
    }

    /// The edges that leave (`Out`) or enter (`In`) node `node`, in edge order.
    pub fn connections(&self, node: usize, direction: PortDirection) -> (r: Vec<usize>)
        requires
            self.wf(),
        ensures
            forall|k: int| 0 <= k < r.len() ==> r@[k] < self.edges.len(),
            forall|k: int| 0 <= k < r.len() ==> self.edge_at(r@[k] as int, node as int, direction),
            forall|e: int|
                0 <= e < self.edges.len() && self.edge_at(e, node as int, direction) ==> r@.contains(
                    e as usize,
                ),
            forall|k1: int, k2: int| 0 <= k1 < k2 < r.len() ==> r@[k1] < r@[k2],
    {
        let mut r: Vec<usize> = Vec::new();
        let mut e: usize = 0;
        while e < self.edges.len()
            invariant
                self.wf(),
                e <= self.edges.len(),
                forall|k: int| 0 <= k < r.len() ==> r@[k] < e,
                forall|k: int| 0 <= k < r.len() ==> self.edge_at(r@[k] as int, node as int, direction),
                forall|j: int|
                    0 <= j < e && self.edge_at(j, node as int, direction) ==> r@.contains(j as usize),
                forall|k1: int, k2: int| 0 <= k1 < k2 < r.len() ==> r@[k1] < r@[k2],
            decreases self.edges.len() - e,
        {
            let edge = &self.edges[e];
            let hit = match direction {
                PortDirection::Out => match edge.from {
                    Some(f) => self.out_ports[f].node == node,
                    None => false,
                },
                PortDirection::In => self.in_ports[edge.to].node == node,
            };
            let ghost r0 = r@;
            if hit {
                r.push(e);
                assert(r@[r.len() - 1] == e);
            }
            proof {
                assert forall|j: int|
                    0 <= j < e + 1 && self.edge_at(j, node as int, direction) implies r@.contains(
                    j as usize,
                ) by {
                    if j < e {
                        assert(r0.contains(j as usize));
                        let w = choose|w: int| 0 <= w < r0.len() && r0[w] == j as usize;
                        assert(r@[w] == j as usize);
                    } else {
                        assert(r@[r.len() - 1] == e);
                    }
                }
            }
            e = e + 1;
        }
        r
    }
}


/// The node an instance name resolves to in the schematic built from `def`: the two
/// boundaries first, then the first instance of that name.
pub open spec fn resolve(def: &SchematicDefinition, name: Seq<char>) -> Option<int> {
    if name == "<input>"@ {
        Some(0)
    } else if name == "<output>"@ {
        Some(def.instances.len() + 1)
    } else {
        match def.instance_position(name) {
            Some(k) => Some(k + 1),
            None => None,
        }
    }
}

/// The node and port name a connection's downstream end resolves to.
pub open spec fn resolved_target(def: &SchematicDefinition, c: int) -> Option<(int, Seq<char>)> {
    let t = def.connections@[c].to.names();
    if t is Some && resolve(def, t->Some_0.0) is Some {
        Some((resolve(def, t->Some_0.0)->Some_0, t->Some_0.1))
    } else {
        None
    }
}

/// Whether connection `c` has a usable upstream end: a port on a declared node other than
/// the output boundary, or no port and a default.
pub open spec fn source_ok(def: &SchematicDefinition, c: int) -> bool {
    let f = def.connections@[c].from.names();
    match f {
        Some(names) => resolve(def, names.0) is Some && resolve(def, names.0)->Some_0
            != def.instances.len() + 1,
        None => def.connections@[c].default is Some,
    }
}

/// Whether connection `c` has a downstream port on a declared node other than the input
/// boundary.
pub open spec fn target_ok(def: &SchematicDefinition, c: int) -> bool {
    resolved_target(def, c) is Some && resolved_target(def, c)->Some_0.0 != 0
}

fn resolve_name(def: &SchematicDefinition, name: &str) -> (r: Option<usize>)
    requires
        def.instances.len() + 2 < usize::MAX,
    ensures
        r is Some <==> resolve(def, name@) is Some,
        r is Some ==> r->Some_0 as int == resolve(def, name@)->Some_0,
        r is Some ==> r->Some_0 < def.instances.len() + 2,
{
    if str_eq(name, SCHEMATIC_INPUT) {
        proof { reveal_strlit("<input>"); }
        return Some(0);
    }
    if str_eq(name, SCHEMATIC_OUTPUT) {
        proof { reveal_strlit("<output>"); }
        return Some(def.instances.len() + 1);
    }
    match def.find_instance(name) {
        Some(k) => Some(k + 1),
        None => None,
    }
}

impl Schematic {
    /// The id of the port of `node` named `name` on the given side, if there is one.
    pub fn find_port(&self, direction: PortDirection, node: usize, name: &str) -> (r: Option<usize>)
        ensures
            r is Some ==> match direction {
                PortDirection::In => r->Some_0 < self.in_ports.len() && self.in_ports@[r->Some_0 as int].node == node
                    && self.in_ports@[r->Some_0 as int].name@ == name@,
                PortDirection::Out => r->Some_0 < self.out_ports.len() && self.out_ports@[r->Some_0 as int].node == node
                    && self.out_ports@[r->Some_0 as int].name@ == name@,
            },
            r is None ==> match direction {
                PortDirection::In => forall|id: int| 0 <= id < self.in_ports.len() ==> !(self.in_ports@[id].node == node
                    && self.in_ports@[id].name@ == name@),
                PortDirection::Out => forall|id: int| 0 <= id < self.out_ports.len() ==> !(self.out_ports@[id].node == node
                    && self.out_ports@[id].name@ == name@),
            },
    {
        let ports = match direction {
            PortDirection::In => &self.in_ports,
            PortDirection::Out => &self.out_ports,
        };
        let mut id: usize = 0;
        while id < ports.len()
            invariant
                ports == (match direction {
                    PortDirection::In => &self.in_ports,
                    PortDirection::Out => &self.out_ports,
                }),
                id <= ports.len(),
                forall|j: int| 0 <= j < id ==> !(ports@[j].node == node && ports@[j].name@ == name@),
            decreases ports.len() - id,
        {
            if ports[id].node == node && str_eq(ports[id].name.as_str(), name) {
                return Some(id);
            }
            id = id + 1;
        }
        None
    }
}


impl Schematic {
    /// Adds a port named `name` to `node` on the given side, and returns its id.
    fn add_port(&mut self, direction: PortDirection, node: usize, name: &str) -> (r: usize)
        requires
            old(self).ports_consistent(),
            node < old(self).nodes.len(),
            old(self).in_ports.len() + 1 < usize::MAX,
            old(self).out_ports.len() + 1 < usize::MAX,
        ensures
            final(self).ports_consistent(),
            final(self).name == old(self).name,
            final(self).edges == old(self).edges,
            final(self).nodes.len() == old(self).nodes.len(),
            forall|v: int| 0 <= v < final(self).nodes.len() ==> {
                &&& #[trigger] final(self).nodes@[v].name == old(self).nodes@[v].name
                &&& final(self).nodes@[v].namespace == old(self).nodes@[v].namespace
                &&& final(self).nodes@[v].operation == old(self).nodes@[v].operation
            },
            direction == PortDirection::In ==> {
                &&& r == old(self).in_ports.len()
                &&& final(self).in_ports.len() == old(self).in_ports.len() + 1
                &&& forall|id: int| 0 <= id < old(self).in_ports.len() ==> #[trigger] final(self).in_ports@[id]
                    == old(self).in_ports@[id]
                &&& final(self).in_ports@[r as int].node == node
                &&& final(self).in_ports@[r as int].name@ == name@
                &&& final(self).out_ports == old(self).out_ports
                &&& forall|v: int| 0 <= v < final(self).nodes.len() ==> #[trigger] final(self).nodes@[v].outputs
                    == old(self).nodes@[v].outputs
                &&& forall|v: int| 0 <= v < final(self).nodes.len() && v != node ==> #[trigger] final(self).nodes@[v].inputs
                    == old(self).nodes@[v].inputs
                &&& final(self).nodes@[node as int].inputs@ == old(self).nodes@[node as int].inputs@.push(r)
            },
            direction == PortDirection::Out ==> {
                &&& r == old(self).out_ports.len()
                &&& final(self).out_ports.len() == old(self).out_ports.len() + 1
                &&& forall|id: int| 0 <= id < old(self).out_ports.len() ==> #[trigger] final(self).out_ports@[id]
                    == old(self).out_ports@[id]
                &&& final(self).out_ports@[r as int].node == node
                &&& final(self).out_ports@[r as int].name@ == name@
                &&& final(self).in_ports == old(self).in_ports
                &&& forall|v: int| 0 <= v < final(self).nodes.len() ==> #[trigger] final(self).nodes@[v].inputs
                    == old(self).nodes@[v].inputs
                &&& forall|v: int| 0 <= v < final(self).nodes.len() && v != node ==> #[trigger] final(self).nodes@[v].outputs
                    == old(self).nodes@[v].outputs
                &&& final(self).nodes@[node as int].outputs@ == old(self).nodes@[node as int].outputs@.push(r)
            },
    {
        match direction {
            PortDirection::In => {
                let id = self.in_ports.len();
                let info = PortInfo { node, index: self.nodes[node].inputs.len(), name: name.to_owned() };
                self.in_ports.push(info);
                self.nodes[node].inputs.push(id);
                proof {
                    assert forall|v: int, k: int|
                        0 <= v < self.nodes.len() && 0 <= k < self.nodes@[v].inputs.len() implies {
                            let pid = #[trigger] self.nodes@[v].inputs@[k];
                            pid < self.in_ports.len() && self.in_ports@[pid as int].node == v && self.in_ports@[pid as int].index == k
                        } by {
                        if v == node as int && k == self.nodes@[v].inputs.len() - 1 {
                        } else {
                            assert(self.nodes@[v].inputs@[k] == old(self).nodes@[v].inputs@[k]);
                        }
                    }
                    assert forall|v: int, k: int|
                        0 <= v < self.nodes.len() && 0 <= k < self.nodes@[v].outputs.len() implies {
                            let pid = #[trigger] self.nodes@[v].outputs@[k];
                            pid < self.out_ports.len() && self.out_ports@[pid as int].node == v && self.out_ports@[pid as int].index == k
                        } by {
                        assert(self.nodes@[v].outputs@[k] == old(self).nodes@[v].outputs@[k]);
                    }
                }
                id
            },
            PortDirection::Out => {
                let id = self.out_ports.len();
                let info = PortInfo { node, index: self.nodes[node].outputs.len(), name: name.to_owned() };
                self.out_ports.push(info);
                self.nodes[node].outputs.push(id);
                proof {
                    assert forall|v: int, k: int|
                        0 <= v < self.nodes.len() && 0 <= k < self.nodes@[v].outputs.len() implies {
                            let pid = #[trigger] self.nodes@[v].outputs@[k];
                            pid < self.out_ports.len() && self.out_ports@[pid as int].node == v && self.out_ports@[pid as int].index == k
                        } by {
                        if v == node as int && k == self.nodes@[v].outputs.len() - 1 {
                        } else {
                            assert(self.nodes@[v].outputs@[k] == old(self).nodes@[v].outputs@[k]);
                        }
                    }
                    assert forall|v: int, k: int|
                        0 <= v < self.nodes.len() && 0 <= k < self.nodes@[v].inputs.len() implies {
                            let pid = #[trigger] self.nodes@[v].inputs@[k];
                            pid < self.in_ports.len() && self.in_ports@[pid as int].node == v && self.in_ports@[pid as int].index == k
                        } by {
                        assert(self.nodes@[v].inputs@[k] == old(self).nodes@[v].inputs@[k]);
                    }
                }
                id
            },
        }
    }
}


/// Whether edge `e` of `g` is connection `e` of `def`: same ends, resolved to nodes, and
/// the same default.
pub open spec fn edge_matches(g: &Schematic, def: &SchematicDefinition, e: int) -> bool {
    let edge = g.edges@[e];
    let conn = def.connections@[e];
    &&& resolved_target(def, e) == Some(
        (g.in_ports@[edge.to as int].node as int, g.in_ports@[edge.to as int].name@),
    )
    &&& (conn.from.names() is None <==> edge.from is None)
    &&& conn.from.names() is Some ==> {
        let names = conn.from.names()->Some_0;
        &&& resolve(def, names.0) == Some(g.out_ports@[edge.from->Some_0 as int].node as int)
        &&& g.out_ports@[edge.from->Some_0 as int].name@ == names.1
    }
    &&& (conn.default is Some <==> edge.default is Some)
    &&& conn.default is Some ==> conn.default->Some_0@ == edge.default->Some_0@
}

/// Whether the nodes of `g` are the two boundaries around the instances of `def`, in order.
pub open spec fn nodes_match(g: &Schematic, def: &SchematicDefinition) -> bool {
    &&& g.nodes.len() == def.instances.len() + 2
    &&& g.nodes@[0].name@ == "<input>"@
    &&& g.nodes@[def.instances.len() + 1].name@ == "<output>"@
    &&& forall|k: int|
        0 <= k < def.instances.len() ==> {
            &&& #[trigger] g.nodes@[k + 1].name@ == def.instances@[k].0@
            &&& g.nodes@[k + 1].namespace@ == def.instances@[k].1.namespace@
            &&& g.nodes@[k + 1].operation@ == def.instances@[k].1.name@
        }
}

fn boundary_node(name: &str) -> (r: Node)
    ensures
        r.name@ == name@,
        r.namespace@.len() == 0,
        r.operation@.len() == 0,
        r.inputs.len() == 0,
        r.outputs.len() == 0,
{
    Node {
        name: name.to_owned(),
        namespace: String::new(),
        operation: String::new(),
        inputs: Vec::new(),
        outputs: Vec::new(),
    }
}


/// The state of the builder after the first `c` connections of `def`.
pub open spec fn built(g: &Schematic, def: &SchematicDefinition, c: int) -> bool {
    &&& def.instances.len() + 3 < usize::MAX
    &&& def.connections.len() + 2 < usize::MAX
    &&& c <= def.connections.len()
    &&& g.wf()
    &&& g.name@ == def.name@
    &&& nodes_match(g, def)
    &&& g.edges.len() == c
    &&& g.in_ports.len() == c
    &&& g.out_ports.len() <= c
    &&& forall|e: int| 0 <= e < c ==> #[trigger] g.edges@[e].to == e
    &&& forall|e: int| 0 <= e < c ==> edge_matches(g, def, e)
    &&& forall|j: int| 0 <= j < c ==> source_ok(def, j) && target_ok(def, j)
    &&& forall|c1: int, c2: int|
        0 <= c1 < c2 < c ==> resolved_target(def, c1) != resolved_target(def, c2)
}

#[verifier::rlimit(50)]
fn build_edge(g: &mut Schematic, def: &SchematicDefinition, c: usize) -> (r: Result<(), GraphError>)
    requires
        c < def.connections.len(),
        built(old(g), def, c as int),
    ensures
        r is Ok ==> built(final(g), def, c + 1),
        r matches Err(GraphError::MissingInstance(n)) ==> resolve(def, n@) is None && (
            def.connections@[c as int].to.names() == Some((n@, def.connections@[c as int].to.names()->Some_0.1))
            || def.connections@[c as int].from.names() == Some((n@, def.connections@[c as int].from.names()->Some_0.1))),
        r matches Err(GraphError::MissingUpstream(k)) ==> k == c && !source_ok(def, c as int),
        r matches Err(GraphError::InvalidEndpoint(k)) ==> k == c && (!source_ok(def, c as int)
            || !target_ok(def, c as int)),
        r matches Err(GraphError::DuplicateInput(k)) ==> k == c && exists|c0: int|
            0 <= c0 < c && resolved_target(def, c0) == resolved_target(def, c as int) && target_ok(def, c as int),
        r is Err ==> !source_ok(def, c as int) || !target_ok(def, c as int) || exists|c0: int|
            0 <= c0 < c && resolved_target(def, c0) == resolved_target(def, c as int),
{
    let n = def.instances.len();
    let conn = &def.connections[c];
    if conn.to.is_none() {
        return Err(GraphError::InvalidEndpoint(c));
    }
    let to_node = match resolve_name(def, conn.to.get_instance()) {
        Some(v) => v,
        None => return Err(GraphError::MissingInstance(conn.to.get_instance_owned())),
    };
    if to_node == 0 {
        return Err(GraphError::InvalidEndpoint(c));
    }
    let from_node: Option<usize> = if conn.from.is_none() {
        if !conn.has_default() {
            return Err(GraphError::MissingUpstream(c));
        }
        None
    } else {
        match resolve_name(def, conn.from.get_instance()) {
            Some(u) => {
                if u == n + 1 {
                    return Err(GraphError::InvalidEndpoint(c));
                }
                Some(u)
            },
            None => return Err(GraphError::MissingInstance(conn.from.get_instance_owned())),
        }
    };
    let to_port = conn.to.get_port();
    if let Some(existing) = g.find_port(PortDirection::In, to_node, to_port) {
        proof {
            assert(edge_matches(g, def, existing as int));
            assert(g.edges@[existing as int].to == existing);
        }
        return Err(GraphError::DuplicateInput(c));
    }
    let ghost g0 = *g;
    let from = match from_node {
        Some(u) => {
            let from_port = conn.from.get_port();
            match g.find_port(PortDirection::Out, u, from_port) {
                Some(id) => Some(id),
                None => Some(g.add_port(PortDirection::Out, u, from_port)),
            }
        },
        None => None,
    };
    let to = g.add_port(PortDirection::In, to_node, to_port);
    let default = match &conn.default {
        Some(d) => Some(d.duplicate()),
        None => None,
    };
    g.edges.push(Edge { from, to, default });
    proof {
        assert forall|e: int| 0 <= e < c + 1 implies edge_matches(g, def, e) by {
            if e < c {
                assert(edge_matches(&g0, def, e));
                assert(g.edges@[e] == g0.edges@[e]);
            }
        }
        assert forall|c1: int, c2: int|
            0 <= c1 < c2 < c + 1 implies resolved_target(def, c1) != resolved_target(def, c2) by {
            if c2 == c {
                assert(edge_matches(&g0, def, c1));
                assert(g0.edges@[c1].to == c1);
            }
        }
        assert(g.edges_consistent());
    }
    Ok(())
}

impl Schematic {
    /// Builds the graph of a schematic definition. Node 0 is the input boundary, node
    /// `k + 1` is instance `k`, and the last node is the output boundary. Each connection
    /// becomes the edge of the same position; ports are created as connections name them.
    pub fn from_definition(def: &SchematicDefinition) -> (r: Result<Schematic, GraphError>)
        requires
            def.instances.len() + 3 < usize::MAX,
            def.connections.len() + 2 < usize::MAX,
        ensures
            r is Ok ==> {
                let g = r->Ok_0;
                &&& g.wf()
                &&& g.name@ == def.name@
                &&& nodes_match(&g, def)
                &&& g.edges.len() == def.connections.len()
                &&& forall|e: int| 0 <= e < g.edges.len() ==> edge_matches(&g, def, e)
                &&& forall|c: int| 0 <= c < def.connections.len() ==> source_ok(def, c) && target_ok(def, c)
                &&& forall|c1: int, c2: int|
                    0 <= c1 < c2 < def.connections.len() ==> resolved_target(def, c1) != resolved_target(def, c2)
            },
            r matches Err(GraphError::MissingInstance(n)) ==> exists|c: int|
                0 <= c < def.connections.len() && resolve(def, n@) is None && (
                def.connections@[c].to.names() == Some((n@, def.connections@[c].to.names()->Some_0.1))
                || def.connections@[c].from.names() == Some((n@, def.connections@[c].from.names()->Some_0.1))),
            r matches Err(GraphError::MissingUpstream(c)) ==> c < def.connections.len() && !source_ok(def, c as int),
            r matches Err(GraphError::InvalidEndpoint(c)) ==> c < def.connections.len() && (!source_ok(def, c as int)
                || !target_ok(def, c as int)),
            r matches Err(GraphError::DuplicateInput(c)) ==> c < def.connections.len() && exists|c0: int|
                0 <= c0 < c && resolved_target(def, c0) == resolved_target(def, c as int) && target_ok(def, c as int),
            (forall|c: int| 0 <= c < def.connections.len() ==> source_ok(def, c) && target_ok(def, c))
                && (forall|c1: int, c2: int|
                    0 <= c1 < c2 < def.connections.len() ==> resolved_target(def, c1) != resolved_target(def, c2))
                ==> r is Ok,
    {
        let n = def.instances.len();
        let mut nodes: Vec<Node> = Vec::new();
        nodes.push(boundary_node(SCHEMATIC_INPUT));
        let mut k: usize = 0;
        while k < n
            invariant
                n == def.instances.len(),
                n + 3 < usize::MAX,
                k <= n,
                nodes.len() == k + 1,
                nodes@[0].name@ == "<input>"@,
                forall|j: int| 0 <= j < nodes.len() ==> #[trigger] nodes@[j].inputs.len() == 0 && nodes@[j].outputs.len() == 0,
                forall|j: int|
                    0 <= j < k ==> {
                        &&& #[trigger] nodes@[j + 1].name@ == def.instances@[j].0@
                        &&& nodes@[j + 1].namespace@ == def.instances@[j].1.namespace@
                        &&& nodes@[j + 1].operation@ == def.instances@[j].1.name@
                    },
            decreases n - k,
        {
            let (instance, component) = &def.instances[k];
            nodes.push(
                Node {
                    name: copy_string(instance),
                    namespace: copy_string(&component.namespace),
                    operation: copy_string(&component.name),
                    inputs: Vec::new(),
                    outputs: Vec::new(),
                },
            );
            proof { reveal_strlit("<input>"); }
            k = k + 1;
        }
        nodes.push(boundary_node(SCHEMATIC_OUTPUT));
        proof { reveal_strlit("<input>"); reveal_strlit("<output>"); }
        let mut g = Schematic {
            name: copy_string(&def.name),
            nodes,
            in_ports: Vec::new(),
            out_ports: Vec::new(),
            edges: Vec::new(),
        };
        proof {
            assert(g.nodes@[0].inputs.len() == 0);
            assert(g.nodes@[n as int + 1].outputs.len() == 0);
            assert forall|v: int| 0 <= v < g.nodes.len() implies #[trigger] g.nodes@[v].inputs.len() == 0
                && g.nodes@[v].outputs.len() == 0 by {
                if v < n + 1 {
                    assert(nodes@[v].inputs.len() == 0);
                }
            }
            assert forall|v: int, j: int|
                0 <= v < g.nodes.len() && 0 <= j < g.nodes@[v].inputs.len() implies {
                    let id = #[trigger] g.nodes@[v].inputs@[j];
                    id < g.in_ports.len() && g.in_ports@[id as int].node == v && g.in_ports@[id as int].index == j
                } by {
                assert(g.nodes@[v].inputs.len() == 0);
            }
            assert forall|v: int, j: int|
                0 <= v < g.nodes.len() && 0 <= j < g.nodes@[v].outputs.len() implies {
                    let id = #[trigger] g.nodes@[v].outputs@[j];
                    id < g.out_ports.len() && g.out_ports@[id as int].node == v && g.out_ports@[id as int].index == j
                } by {
                assert(g.nodes@[v].inputs.len() == 0);
                assert(g.nodes@[v].outputs.len() == 0);
            }
            assert(g.ports_consistent());
        }
        let mut c: usize = 0;
        while c < def.connections.len()
            invariant
                c <= def.connections.len(),
                built(&g, def, c as int),
            decreases def.connections.len() - c,
        {
            match build_edge(&mut g, def, c) {
                Ok(()) => {},
                Err(e) => {
                    proof {
                        if (forall|j: int| 0 <= j < def.connections.len() ==> source_ok(def, j) && target_ok(def, j))
                            && (forall|c1: int, c2: int|
                                0 <= c1 < c2 < def.connections.len() ==> resolved_target(def, c1) != resolved_target(def, c2)) {
                            assert(source_ok(def, c as int) && target_ok(def, c as int));
                        }
                    }
                    return Err(e);
                },
            }
            c = c + 1;
        }
        Ok(g)
    }
}


/// Whether `def` is the canonical definition of `g`: the instances are the nodes between
/// the two boundaries, in order, and the connections are the edges, in order, with their
/// ends named by node and port.
pub open spec fn canonical(g: &Schematic, def: &SchematicDefinition) -> bool {
    &&& def.name@ == g.name@
    &&& def.instances.len() + 2 == g.nodes.len()
    &&& forall|k: int|
        0 <= k < def.instances.len() ==> {
            &&& #[trigger] def.instances@[k].0@ == g.nodes@[k + 1].name@
            &&& def.instances@[k].1.namespace@ == g.nodes@[k + 1].namespace@
            &&& def.instances@[k].1.name@ == g.nodes@[k + 1].operation@
        }
    &&& def.connections.len() == g.edges.len()
    &&& forall|e: int|
        0 <= e < g.edges.len() ==> {
            let edge = #[trigger] g.edges@[e];
            let conn = def.connections@[e];
            let to = g.in_ports@[edge.to as int];
            &&& conn.to.names() == Some((g.nodes@[to.node as int].name@, to.name@))
            &&& (conn.from.names() is None <==> edge.from is None)
            &&& edge.from is Some ==> {
                let from = g.out_ports@[edge.from->Some_0 as int];
                conn.from.names() == Some((g.nodes@[from.node as int].name@, from.name@))
            }
            &&& (conn.default is Some <==> edge.default is Some)
            &&& conn.default is Some ==> conn.default->Some_0@ == edge.default->Some_0@
        }
}

impl Schematic {
    /// The canonical definition of this schematic, from which it can be built again.
    pub fn to_definition(&self) -> (r: SchematicDefinition)
        requires
            self.wf(),
        ensures
            canonical(self, &r),
    {
        let mut def = SchematicDefinition::new(self.name.as_str());
        let n = self.nodes.len();
        let mut v: usize = 1;
        while v + 1 < n
            invariant
                self.wf(),
                n == self.nodes.len(),
                1 <= v < n,
                def.name@ == self.name@,
                def.instances.len() == v - 1,
                def.connections.len() == 0,
                forall|k: int|
                    0 <= k < def.instances.len() ==> {
                        &&& #[trigger] def.instances@[k].0@ == self.nodes@[k + 1].name@
                        &&& def.instances@[k].1.namespace@ == self.nodes@[k + 1].namespace@
                        &&& def.instances@[k].1.name@ == self.nodes@[k + 1].operation@
                    },
            decreases n - v,
        {
            let node = &self.nodes[v];
            let component = crate::definition::ComponentDefinition::new(node.namespace.as_str(), node.operation.as_str());
            def.add_instance(node.name.as_str(), component);
            v = v + 1;
        }
        assert(def.instances.len() + 2 == self.nodes.len());
        let mut e: usize = 0;
        while e < self.edges.len()
            invariant
                self.wf(),
                e <= self.edges.len(),
                def.name@ == self.name@,
                def.instances.len() + 2 == self.nodes.len(),
                forall|k: int|
                    0 <= k < def.instances.len() ==> {
                        &&& #[trigger] def.instances@[k].0@ == self.nodes@[k + 1].name@
                        &&& def.instances@[k].1.namespace@ == self.nodes@[k + 1].namespace@
                        &&& def.instances@[k].1.name@ == self.nodes@[k + 1].operation@
                    },
                def.connections.len() == e,
                forall|j: int|
                    0 <= j < e ==> {
                        let edge = #[trigger] self.edges@[j];
                        let conn = def.connections@[j];
                        let to = self.in_ports@[edge.to as int];
                        &&& conn.to.names() == Some((self.nodes@[to.node as int].name@, to.name@))
                        &&& (conn.from.names() is None <==> edge.from is None)
                        &&& edge.from is Some ==> {
                            let from = self.out_ports@[edge.from->Some_0 as int];
                            conn.from.names() == Some((self.nodes@[from.node as int].name@, from.name@))
                        }
                        &&& (conn.default is Some <==> edge.default is Some)
                        &&& conn.default is Some ==> conn.default->Some_0@ == edge.default->Some_0@
                    },
            decreases self.edges.len() - e,
        {
            let edge = &self.edges[e];
            let to_port = &self.in_ports[edge.to];
            let to = crate::definition::ConnectionTargetDefinition::new(
                self.nodes[to_port.node].name.as_str(),
                to_port.name.as_str(),
            );
            let from = match edge.from {
                Some(f) => {
                    let from_port = &self.out_ports[f];
                    crate::definition::ConnectionTargetDefinition::new(
                        self.nodes[from_port.node].name.as_str(),
                        from_port.name.as_str(),
                    )
                },
                None => crate::definition::ConnectionTargetDefinition::none(),
            };
            let mut conn = crate::definition::ConnectionDefinition::new(from, to);
            conn.default = match &edge.default {
                Some(d) => Some(d.duplicate()),
                None => None,
            };
            let ghost before = def.connections@;
            def.add_connection(conn);
            proof {
                assert forall|j: int| 0 <= j < e + 1 implies {
                    let edge = #[trigger] self.edges@[j];
                    let conn = def.connections@[j];
                    let to = self.in_ports@[edge.to as int];
                    &&& conn.to.names() == Some((self.nodes@[to.node as int].name@, to.name@))
                    &&& (conn.from.names() is None <==> edge.from is None)
                    &&& edge.from is Some ==> {
                        let from = self.out_ports@[edge.from->Some_0 as int];
                        conn.from.names() == Some((self.nodes@[from.node as int].name@, from.name@))
                    }
                    &&& (conn.default is Some <==> edge.default is Some)
                    &&& conn.default is Some ==> conn.default->Some_0@ == edge.default->Some_0@
                } by {
                    if j < e {
                        assert(def.connections@[j] == before[j]);
                    }
                }
            }
            e = e + 1;
        }
        def
    }
}

} // verus!
