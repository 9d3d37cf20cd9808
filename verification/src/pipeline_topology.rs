//! Connections between pipelines: a `proxysink` (or `shmsink`) of one
//! pipeline feeds the `proxysrc` (or `shmsrc`) of the same suffix in
//! another.
use vstd::prelude::*;
use vstd::string::StrSliceExecFns;
use crate::libcamera_modes::strip_prefix_spec;
use crate::text::{chars_of, range_eq, str_eq};

verus! {

/// An element of a pipeline, by name and factory type.
pub struct TopologyElement {
    pub name: String,
    pub element_type: String,
}

/// A link from an element of one pipeline into another pipeline.
pub struct PipelineConnection {
    pub to_pipeline: String,
    pub bridge_type: String,
    pub from_element: String,
    pub to_element: String,
}

/// A pipeline: its name, its elements in visiting order (nested bins
/// included), and its connections to other pipelines.
pub struct PipelineTopology {
    pub name: String,
    pub elements: Vec<TopologyElement>,
    pub connections: Vec<PipelineConnection>,
}

/// A connection as text: target pipeline, bridge, source and target element.
pub type ConnectionView = (Seq<char>, Seq<char>, Seq<char>, Seq<char>);

pub open spec fn connection_view(c: PipelineConnection) -> ConnectionView {
    (c.to_pipeline@, c.bridge_type@, c.from_element@, c.to_element@)
}

pub open spec fn connection_view_fn() -> spec_fn(PipelineConnection) -> ConnectionView {
    |c: PipelineConnection| connection_view(c)
}

/// The peer prefix and bridge kind of a sink element type.
pub open spec fn bridge_of(element_type: Seq<char>) -> Option<(Seq<char>, Seq<char>)> {
    if element_type == "proxysink"@ {
        Some(("proxysrc"@, "proxy"@))
    } else if element_type == "shmsink"@ {
        Some(("shmsrc"@, "shm"@))
    } else {
        None
    }
}

/// The name of the element a bridge sink feeds: the peer prefix and what
/// follows the sink's type in its name (nothing when its name does not start
/// with its type).
pub open spec fn peer_name(name: Seq<char>, element_type: Seq<char>, peer_prefix: Seq<char>) -> Seq<char> {
    peer_prefix + match strip_prefix_spec(name, element_type) {
        Some(rest) => rest,
        None => Seq::empty(),
    }
}

pub open spec fn has_element_named(p: PipelineTopology, name: Seq<char>) -> bool {
    exists|k: int| 0 <= k < p.elements@.len() && (#[trigger] p.elements@[k]).name@ == name
}

/// The last pipeline of `pipes` with an element named `name`.
pub open spec fn owner_of(pipes: Seq<PipelineTopology>, name: Seq<char>) -> Option<int>
    decreases pipes.len(),
{
    if pipes.len() == 0 {
        None
    } else if has_element_named(pipes.last(), name) {
        Some(pipes.len() - 1)
    } else {
        owner_of(pipes.drop_last(), name)
    }
}

/// The connections that the first `n` elements of pipeline `pi` open.
pub open spec fn connections_from(pipes: Seq<PipelineTopology>, pi: int, n: int) -> Seq<ConnectionView>
    decreases n,
{
    if n <= 0 {
        Seq::empty()
    } else {
        let rest = connections_from(pipes, pi, n - 1);
        let e = pipes[pi].elements@[n - 1];
        match bridge_of(e.element_type@) {
            Some((prefix, bridge)) => {
                let peer = peer_name(e.name@, e.element_type@, prefix);
                match owner_of(pipes, peer) {
                    Some(t) => if t != pi {
                        rest.push((pipes[t].name@, bridge, e.name@, peer))
                    } else {
                        rest
                    },
                    None => rest,
                }
            },
            None => rest,
        }
    }
}

/// The connections pipeline `pi` opens.
pub open spec fn pipeline_connections(pipes: Seq<PipelineTopology>, pi: int) -> Seq<ConnectionView> {
    connections_from(pipes, pi, pipes[pi].elements@.len() as int)
}

fn names_element(p: &PipelineTopology, name: &str) -> (r: bool)
    ensures
        r == has_element_named(*p, name@),
{
    let mut k: usize = 0;
    while k < p.elements.len()
        invariant
            k <= p.elements@.len(),
            forall|m: int| 0 <= m < k ==> (#[trigger] p.elements@[m]).name@ != name@,
        decreases p.elements@.len() - k,
    {
        if str_eq(p.elements[k].name.as_str(), name) {
            return true;
        }
        k = k + 1;
    }
    false
}

fn find_owner(pipes: &Vec<PipelineTopology>, name: &str) -> (r: Option<usize>)
    ensures
        match r {
            Some(t) => t < pipes@.len() && owner_of(pipes@, name@) == Some(t as int),
            None => owner_of(pipes@, name@) is None,
        },
{
    let mut n: usize = pipes.len();
    assert(pipes@.take(n as int) =~= pipes@);
    while n > 0
        invariant
            n <= pipes@.len(),
            owner_of(pipes@, name@) == owner_of(pipes@.take(n as int), name@),
        decreases n,
    {
        proof {
            assert(pipes@.take(n as int).drop_last() =~= pipes@.take(n - 1));
            assert(pipes@.take(n as int).last() == pipes@[n - 1]);
        }
        if names_element(&pipes[n - 1], name) {
            return Some(n - 1);
        }
        n = n - 1;
    }
    None
}

/// The peer element name of a bridge sink.
fn peer_of(name: &str, element_type: &str, peer_prefix: &str) -> (r: String)
    ensures
        r@ == peer_name(name@, element_type@, peer_prefix@),
{
    let chars = chars_of(name);
    let typ = chars_of(element_type);
    let suffix: &str = if chars.len() >= typ.len() && range_eq(&chars, 0, typ.len(), &typ) {
        proof {
            assert(name@.take(element_type@.len() as int) =~= name@.subrange(0, typ@.len() as int));
        }
        name.substring_char(typ.len(), chars.len())
    } else {
        proof {
            if name@.len() >= element_type@.len() {
                assert(name@.take(element_type@.len() as int) =~= name@.subrange(0, typ@.len() as int));
            }
        }
        ""
    };
    proof {
        reveal_strlit("");
        assert(name@.skip(element_type@.len() as int) =~= name@.subrange(element_type@.len() as int, name@.len() as int));
    }
    peer_prefix.to_string().concat(suffix)
}

/// Adds to each pipeline the connections its bridge sinks open into other
/// pipelines, in element order. A peer name that several pipelines hold
/// belongs to the last of them.
pub fn derive_pipeline_connections(pipelines: &mut Vec<PipelineTopology>)
    ensures
        final(pipelines)@.len() == old(pipelines)@.len(),
        forall|pi: int|
            0 <= pi < final(pipelines)@.len() ==> {
                &&& (#[trigger] final(pipelines)@[pi]).name == old(pipelines)@[pi].name
                &&& final(pipelines)@[pi].elements == old(pipelines)@[pi].elements
                &&& final(pipelines)@[pi].connections@.map_values(connection_view_fn()) == old(
                    pipelines,
                )@[pi].connections@.map_values(connection_view_fn()) + pipeline_connections(old(pipelines)@, pi)
            },
{
    let ghost pipes = pipelines@;
    let mut found: Vec<Vec<PipelineConnection>> = Vec::new();
    let mut pi: usize = 0;
    while pi < pipelines.len()
        invariant
            pipes == pipelines@,
            pi <= pipes.len(),
            found@.len() == pi,
            forall|q: int|
                0 <= q < pi ==> (#[trigger] found@[q])@.map_values(connection_view_fn()) == pipeline_connections(
                    pipes,
                    q,
                ),
        decreases pipes.len() - pi,
    {
        let pipeline = &pipelines[pi];
        let mut conns: Vec<PipelineConnection> = Vec::new();
        let mut k: usize = 0;
        while k < pipeline.elements.len()
            invariant
                pipes == pipelines@,
                pi < pipes.len(),
                *pipeline == pipes[pi as int],
                k <= pipeline.elements@.len(),
                conns@.map_values(connection_view_fn()) == connections_from(pipes, pi as int, k as int),
            decreases pipeline.elements@.len() - k,
        {
            let element = &pipeline.elements[k];
            let bridge: Option<(&str, &str)> = if str_eq(element.element_type.as_str(), "proxysink") {
                Some(("proxysrc", "proxy"))
            } else if str_eq(element.element_type.as_str(), "shmsink") {
                Some(("shmsrc", "shm"))
            } else {
                None
            };
            let ghost before = conns@;
            match bridge {
                Some((prefix, kind)) => {
                    let peer = peer_of(element.name.as_str(), element.element_type.as_str(), prefix);
                    match find_owner(pipelines, peer.as_str()) {
                        Some(t) => {
                            if t != pi {
                                let c = PipelineConnection {
                                    to_pipeline: pipelines[t].name.clone(),
                                    bridge_type: kind.to_string(),
                                    from_element: element.name.clone(),
                                    to_element: peer,
                                };
                                conns.push(c);
                                proof {
                                    assert(conns@.map_values(connection_view_fn()) =~= before.map_values(
                                        connection_view_fn(),
                                    ).push(connection_view(c)));
                                }
                            }
                        },
                        None => {},
                    }
                },
                None => {},
            }
            k = k + 1;
        }
        found.push(conns);
        proof {
            assert forall|q: int| 0 <= q < pi + 1 implies (#[trigger] found@[q])@.map_values(connection_view_fn())
                == pipeline_connections(pipes, q) by {}
        }
        pi = pi + 1;
    }
    let mut rest = found;
    let mut idx: usize = pipelines.len();
    while idx > 0
        invariant
            pipelines@.len() == pipes.len(),
            idx <= pipes.len(),
            rest@.len() == idx,
            forall|q: int|
                0 <= q < idx ==> (#[trigger] rest@[q])@.map_values(connection_view_fn()) == pipeline_connections(
                    pipes,
                    q,
                ),
            forall|q: int|
                0 <= q < pipes.len() ==> (#[trigger] pipelines@[q]).name == pipes[q].name && pipelines@[q].elements
                    == pipes[q].elements,
            forall|q: int|
                0 <= q < idx ==> (#[trigger] pipelines@[q]).connections == pipes[q].connections,
            forall|q: int|
                idx <= q < pipes.len() ==> (#[trigger] pipelines@[q]).connections@.map_values(connection_view_fn())
                    == pipes[q].connections@.map_values(connection_view_fn()) + pipeline_connections(pipes, q),
        decreases idx,
    {
        let mut conns = rest.pop().unwrap();
        let q = idx - 1;
        let mut pipeline = pipelines.remove(q);
        let ghost old_conns = pipeline.connections@;
        let ghost added = conns@;
        pipeline.connections.append(&mut conns);
        proof {
            assert(pipeline.connections@ == old_conns + added);
            assert(pipeline.connections@.map_values(connection_view_fn()) =~= old_conns.map_values(
                connection_view_fn(),
            ) + added.map_values(connection_view_fn()));
        }
        let ghost before = pipelines@;
        pipelines.insert(q, pipeline);
        proof {
            assert forall|m: int| 0 <= m < pipes.len() implies (#[trigger] pipelines@[m]).name == pipes[m].name
                && pipelines@[m].elements == pipes[m].elements by {
                if m < q {
                    assert(pipelines@[m] == before[m]);
                } else if m > q {
                    assert(pipelines@[m] == before[m - 1]);
                }
            }
        }
        idx = q;
    }
}

} // verus!
