//! The structure of a pipeline snapshot: how streaming threads hand buffers
//! to each other through queues, and the pads that the topology knows of but
//! the probes did not capture.
use vstd::prelude::*;
use crate::text::{ascii_upper, chars_contain, chars_of, contains_seq, str_contains, str_eq, to_ascii_upper_chars};

verus! {

/// A link of a pipeline's topology, from a pad of one element to a pad of
/// another.
pub struct TopologyEdge {
    pub from_node: String,
    pub from_pad: String,
    pub to_node: String,
    pub to_pad: String,
    pub media_type: Option<String>,
}

/// An element by name and factory type, with the streaming thread that was
/// seen to run it.
pub struct ElementThread {
    pub name: String,
    pub element_type: String,
    pub thread_id: Option<u32>,
}

/// One streaming thread handing buffers to another through a queue.
pub struct ThreadLink {
    pub from_thread: u32,
    pub to_thread: u32,
    pub via_element: String,
}

pub type ThreadLinkView = (u32, u32, Seq<char>);

pub open spec fn thread_link_view(l: ThreadLink) -> ThreadLinkView {
    (l.from_thread, l.to_thread, l.via_element@)
}

pub open spec fn link_views(links: Seq<ThreadLink>) -> Seq<ThreadLinkView> {
    links.map_values(|x: ThreadLink| thread_link_view(x))
}

/// The thread of the last element named `name` that has one.
pub open spec fn thread_of(elements: Seq<ElementThread>, name: Seq<char>) -> Option<u32>
    decreases elements.len(),
{
    if elements.len() == 0 {
        None
    } else if elements.last().name@ == name && elements.last().thread_id is Some {
        elements.last().thread_id
    } else {
        thread_of(elements.drop_last(), name)
    }
}

/// A queue is an element whose type mentions "queue" or "Queue".
pub open spec fn is_queue_type(element_type: Seq<char>) -> bool {
    contains_seq(element_type, "queue"@) || contains_seq(element_type, "Queue"@)
}

/// The link that edge `j` shows through element `i`, when `i` is a queue
/// with a thread: into the queue from an upstream element on another
/// thread (`upstream` true), or out of it to a downstream element on
/// another thread.
pub open spec fn link_through(
    elements: Seq<ElementThread>,
    edges: Seq<TopologyEdge>,
    i: int,
    j: int,
    upstream: bool,
) -> Option<ThreadLinkView> {
    let q = elements[i];
    let e = edges[j];
    if !is_queue_type(q.element_type@) || q.thread_id is None {
        None
    } else if upstream {
        if e.to_node@ == q.name@ {
            match thread_of(elements, e.from_node@) {
                Some(u) => if u != q.thread_id.unwrap() {
                    Some((u, q.thread_id.unwrap(), q.name@))
                } else {
                    None
                },
                None => None,
            }
        } else {
            None
        }
    } else {
        if e.from_node@ == q.name@ {
            match thread_of(elements, e.to_node@) {
                Some(d) => if d != q.thread_id.unwrap() {
                    Some((q.thread_id.unwrap(), d, q.name@))
                } else {
                    None
                },
                None => None,
            }
        } else {
            None
        }
    }
}

/// `l` is shown by some queue and some edge.
pub open spec fn is_queue_link(elements: Seq<ElementThread>, edges: Seq<TopologyEdge>, l: ThreadLinkView) -> bool {
    exists|i: int, j: int, up: bool|
        0 <= i < elements.len() && 0 <= j < edges.len() && #[trigger] link_through(elements, edges, i, j, up)
            == Some(l)
}

/// Every thread link joins two different threads through a queue: the
/// element it passes is a queue, runs on one of the two threads, and the
/// other is the thread of an element linked to the queue.
pub proof fn law_queue_links_cross_threads(elements: Seq<ElementThread>, edges: Seq<TopologyEdge>, l: ThreadLinkView)
    requires
        is_queue_link(elements, edges, l),
    ensures
        l.0 != l.1,
        exists|i: int|
            0 <= i < elements.len() && (#[trigger] elements[i]).name@ == l.2 && is_queue_type(elements[i].element_type@)
                && (elements[i].thread_id == Some(l.0) || elements[i].thread_id == Some(l.1)),
{
    let (i, j, up) = choose|i: int, j: int, up: bool|
        0 <= i < elements.len() && 0 <= j < edges.len() && #[trigger] link_through(elements, edges, i, j, up) == Some(l);
    assert(elements[i].name@ == l.2);
}

/// An element whose factory type contains "queue" in any ASCII case: its
/// fill levels are read into the snapshot.
pub open spec fn has_queue_levels_spec(element_type: Seq<char>) -> bool {
    contains_seq(ascii_upper(element_type), "QUEUE"@)
}

/// Whether the fill levels of an element of this factory type are read.
pub fn has_queue_levels(element_type: &str) -> (r: bool)
    ensures
        r == has_queue_levels_spec(element_type@),
{
    let chars = chars_of(element_type);
    let upper = to_ascii_upper_chars(&chars);
    let pattern = chars_of("QUEUE");
    chars_contain(&upper, &pattern)
}

/// A property of an element as introspection lists it.
pub struct PropertyInfo {
    pub name: String,
    pub readable: bool,
}

/// Properties left out of an element's snapshot: bookkeeping that the
/// snapshot already holds, raw frame data, object references, and debug
/// messages.
pub open spec fn denied_property(name: Seq<char>) -> bool {
    ||| name == "name"@
    ||| name == "parent"@
    ||| name == "last-sample"@
    ||| name == "proxysink"@
    ||| name == "socket"@
    ||| name == "socket-v6"@
    ||| name == "used-socket"@
    ||| name == "used-socket-v6"@
    ||| name == "alloc-pad"@
    ||| name == "last-message"@
}

/// Whether property `name` is left out of an element's snapshot.
pub fn is_denied_property(name: &str) -> (r: bool)
    ensures
        r == denied_property(name@),
{
    str_eq(name, "name") || str_eq(name, "parent") || str_eq(name, "last-sample") || str_eq(name, "proxysink")
        || str_eq(name, "socket") || str_eq(name, "socket-v6") || str_eq(name, "used-socket") || str_eq(
        name,
        "used-socket-v6",
    ) || str_eq(name, "alloc-pad") || str_eq(name, "last-message")
}

/// The names of the properties shown in an element's snapshot: the
/// readable ones that are not left out, in the order listed.
pub open spec fn shown_properties(props: Seq<PropertyInfo>) -> Seq<Seq<char>>
    decreases props.len(),
{
    if props.len() == 0 {
        Seq::empty()
    } else {
        let p = props.last();
        let prev = shown_properties(props.drop_last());
        if p.readable && !denied_property(p.name@) {
            prev.push(p.name@)
        } else {
            prev
        }
    }
}

/// The names of the properties to read into an element's snapshot.
pub fn snapshot_property_names(props: &Vec<PropertyInfo>) -> (r: Vec<String>)
    ensures
        r@.map_values(|n: String| n@) == shown_properties(props@),
{
    let mut names: Vec<String> = Vec::new();
    let mut i: usize = 0;
    while i < props.len()
        invariant
            i <= props@.len(),
            names@.map_values(|n: String| n@) == shown_properties(props@.take(i as int)),
        decreases props@.len() - i,
    {
        let p = &props[i];
        proof {
            assert(props@.take(i + 1).drop_last() =~= props@.take(i as int));
            assert(props@.take(i + 1).last() == props@[i as int]);
        }
        if p.readable && !is_denied_property(p.name.as_str()) {
            let ghost before = names@;
            names.push(p.name.clone());
            proof {
                assert(names@.map_values(|n: String| n@) =~= before.map_values(|n: String| n@).push(p.name@));
            }
        }
        i = i + 1;
    }
    proof {
        assert(props@.take(i as int) =~= props@);
    }
    names
}

fn find_thread(elements: &Vec<ElementThread>, name: &str) -> (r: Option<u32>)
    ensures
        r == thread_of(elements@, name@),
{
    let mut k: usize = elements.len();
    proof {
        assert(elements@.take(k as int) =~= elements@);
    }
    while k > 0
        invariant
            k <= elements@.len(),
            thread_of(elements@, name@) == thread_of(elements@.take(k as int), name@),
        decreases k,
    {
        let ghost prefix = elements@.take(k as int);
        proof {
            assert(prefix.drop_last() =~= elements@.take(k - 1));
        }
        let e = &elements[k - 1];
        if e.thread_id.is_some() && str_eq(e.name.as_str(), name) {
            return e.thread_id;
        }
        k = k - 1;
    }
    None
}

fn push_link(links: &mut Vec<ThreadLink>, from_thread: u32, to_thread: u32, via: &String)
    ensures
        ({
            let l = (from_thread, to_thread, via@);
            let before = link_views(old(links)@);
            let after = link_views(final(links)@);
            &&& if before.contains(l) {
                after == before
            } else {
                after == before.push(l)
            }
            &&& after.contains(l)
            &&& after.len() >= before.len()
            &&& forall|k: int| 0 <= k < before.len() ==> after[k] == before[k]
        }),
{
    let ghost before = link_views(links@);
    let mut k: usize = 0;
    while k < links.len()
        invariant
            before == link_views(links@),
            k <= links@.len(),
            forall|m: int| 0 <= m < k ==> before[m] != (from_thread, to_thread, via@),
        decreases links@.len() - k,
    {
        let x = &links[k];
        if x.from_thread == from_thread && x.to_thread == to_thread && str_eq(x.via_element.as_str(), via.as_str()) {
            assert(before[k as int] == (from_thread, to_thread, via@));
            assert(before.contains((from_thread, to_thread, via@)));
            return;
        }
        k = k + 1;
    }
    links.push(ThreadLink { from_thread, to_thread, via_element: via.clone() });
    proof {
        assert(!before.contains((from_thread, to_thread, via@)));
        assert(link_views(links@) =~= before.push(
            (from_thread, to_thread, via@),
        ));
        assert(link_views(links@)[before.len() as int] == (from_thread, to_thread, via@));
    }
}

/// The thread links shown by the queues of a pipeline: each queue with a
/// thread links the thread of an element feeding it, when that is another
/// thread, to its own, and its own to the thread of an element it feeds,
/// when that is another thread. Each link comes once; their order is
/// unspecified.
pub fn queue_thread_links(elements: &Vec<ElementThread>, edges: &Vec<TopologyEdge>) -> (r: Vec<ThreadLink>)
    ensures
        ({
            let v = link_views(r@);
            &&& v.no_duplicates()
            &&& forall|k: int| 0 <= k < v.len() ==> is_queue_link(elements@, edges@, #[trigger] v[k])
            &&& forall|l: ThreadLinkView| is_queue_link(elements@, edges@, l) ==> v.contains(l)
        }),
{
    let mut links: Vec<ThreadLink> = Vec::new();
    let n = elements.len();
    let m = edges.len();
    let mut i: usize = 0;
    while i < n
        invariant
            n == elements@.len(),
            m == edges@.len(),
            i <= n,
            link_views(links@).no_duplicates(),
            forall|k: int|
                0 <= k < links@.len() ==> is_queue_link(
                    elements@,
                    edges@,
                    #[trigger] link_views(links@)[k],
                ),
            forall|a: int, j: int, up: bool|
                0 <= a < i && 0 <= j < m && #[trigger] link_through(elements@, edges@, a, j, up) is Some
                    ==> link_views(links@).contains(
                    link_through(elements@, edges@, a, j, up).unwrap(),
                ),
        decreases n - i,
    {
        let e = &elements[i];
        let is_queue = str_contains(e.element_type.as_str(), "queue") || str_contains(
            e.element_type.as_str(),
            "Queue",
        );
        proof {
            reveal_strlit("queue");
            reveal_strlit("Queue");
        }
        match e.thread_id {
            Some(q) => {
                if is_queue {
                    let mut j: usize = 0;
                    while j < m
                        invariant
                            n == elements@.len(),
                            m == edges@.len(),
                            i < n,
                            j <= m,
                            *e == elements@[i as int],
                            e.thread_id == Some(q),
                            is_queue_type(e.element_type@),
                            link_views(links@).no_duplicates(),
                            forall|k: int|
                                0 <= k < links@.len() ==> is_queue_link(
                                    elements@,
                                    edges@,
                                    #[trigger] link_views(links@)[k],
                                ),
                            forall|a: int, jj: int, up: bool|
                                ((0 <= a < i && 0 <= jj < m) || (a == i && 0 <= jj < j)) && #[trigger] link_through(
                                    elements@,
                                    edges@,
                                    a,
                                    jj,
                                    up,
                                ) is Some ==> link_views(links@).contains(
                                    link_through(elements@, edges@, a, jj, up).unwrap(),
                                ),
                        decreases m - j,
                    {
                        let te = &edges[j];
                        let ghost before = link_views(links@);
                        if str_eq(te.to_node.as_str(), e.name.as_str()) {
                            match find_thread(elements, te.from_node.as_str()) {
                                Some(u) => {
                                    if u != q {
                                        push_link(&mut links, u, q, &e.name);
                                    }
                                },
                                None => {},
                            }
                        }
                        let ghost middle = link_views(links@);
                        if str_eq(te.from_node.as_str(), e.name.as_str()) {
                            match find_thread(elements, te.to_node.as_str()) {
                                Some(d) => {
                                    if d != q {
                                        push_link(&mut links, q, d, &e.name);
                                    }
                                },
                                None => {},
                            }
                        }
                        proof {
                            let after = link_views(links@);
                            lemma_push_keeps(before, middle, after);
                            assert(link_through(elements@, edges@, i as int, j as int, true) is Some ==> middle.contains(
                                link_through(elements@, edges@, i as int, j as int, true).unwrap(),
                            ));
                            assert forall|k: int| 0 <= k < after.len() implies is_queue_link(
                                elements@,
                                edges@,
                                #[trigger] after[k],
                            ) by {
                                if k >= before.len() && k < middle.len() {
                                    assert(link_through(elements@, edges@, i as int, j as int, true) == Some(after[k]));
                                } else if k >= middle.len() {
                                    assert(link_through(elements@, edges@, i as int, j as int, false) == Some(after[k]));
                                } else if k < before.len() {
                                    assert(after[k] == before[k]);
                                } else {
                                    assert(after[k] == middle[k]);
                                }
                            }
                        }
                        j = j + 1;
                    }
                }
            },
            None => {},
        }
        i = i + 1;
    }
    links
}

/// A vector that only grows by `push_link` keeps what it held.
proof fn lemma_push_keeps(before: Seq<ThreadLinkView>, middle: Seq<ThreadLinkView>, after: Seq<ThreadLinkView>)
    requires
        middle.len() >= before.len(),
        forall|k: int| 0 <= k < before.len() ==> middle[k] == before[k],
        after.len() >= middle.len(),
        forall|k: int| 0 <= k < middle.len() ==> after[k] == middle[k],
    ensures
        forall|l: ThreadLinkView| before.contains(l) ==> after.contains(l),
        forall|l: ThreadLinkView| middle.contains(l) ==> after.contains(l),
{
    assert forall|l: ThreadLinkView| before.contains(l) implies after.contains(l) by {
        let k = choose|k: int| 0 <= k < before.len() && before[k] == l;
        assert(after[k] == l);
    }
    assert forall|l: ThreadLinkView| middle.contains(l) implies after.contains(l) by {
        let k = choose|k: int| 0 <= k < middle.len() && middle[k] == l;
        assert(after[k] == l);
    }
}

#[derive(Clone, Copy, Debug, PartialEq, Eq, Structural)]
pub enum PadDirection {
    Src,
    Sink,
}

/// The element and pad at the other end of a pad's link.
pub struct PadConnection {
    pub peer_element: String,
    pub peer_pad: String,
    pub media_type: Option<String>,
}

/// A pad of an element snapshot, as far as its links go.
pub struct PadLinks {
    pub name: String,
    pub direction: PadDirection,
    pub connections: Vec<PadConnection>,
}

/// An element snapshot with its pads and, for a bin, its children.
pub struct ElementPads {
    pub name: String,
    pub pads: Vec<PadLinks>,
    pub children: Vec<ElementPads>,
}

pub type ConnectionView = (Seq<char>, Seq<char>, Option<Seq<char>>);

pub type PadView = (Seq<char>, PadDirection, Seq<ConnectionView>);

pub open spec fn media_view(m: Option<String>) -> Option<Seq<char>> {
    match m {
        Some(t) => Some(t@),
        None => None,
    }
}

pub open spec fn connection_view(c: PadConnection) -> ConnectionView {
    (c.peer_element@, c.peer_pad@, media_view(c.media_type))
}

pub open spec fn connection_views(cs: Seq<PadConnection>) -> Seq<ConnectionView> {
    cs.map_values(|c: PadConnection| connection_view(c))
}

pub open spec fn pad_view(p: PadLinks) -> PadView {
    (p.name@, p.direction, connection_views(p.connections@))
}

pub open spec fn pad_views(pads: Seq<PadLinks>) -> Seq<PadView> {
    pads.map_values(|p: PadLinks| pad_view(p))
}

/// The pad that edge `e` gives element `name`: its source pad when the edge
/// leaves the element, else its target pad when the edge enters it.
pub open spec fn edge_pad(name: Seq<char>, e: TopologyEdge) -> Option<(Seq<char>, PadDirection)> {
    if e.from_node@ == name {
        Some((e.from_pad@, PadDirection::Src))
    } else if e.to_node@ == name {
        Some((e.to_pad@, PadDirection::Sink))
    } else {
        None
    }
}

/// The connections of pad `pad` (direction `dir`) of element `name`: for
/// each edge of that pad, in order, the element and pad at its other end.
pub open spec fn pad_connections(
    edges: Seq<TopologyEdge>,
    name: Seq<char>,
    pad: Seq<char>,
    dir: PadDirection,
) -> Seq<ConnectionView>
    decreases edges.len(),
{
    if edges.len() == 0 {
        Seq::empty()
    } else {
        let prev = pad_connections(edges.drop_last(), name, pad, dir);
        let e = edges.last();
        match dir {
            PadDirection::Src => if e.from_node@ == name && e.from_pad@ == pad {
                prev.push((e.to_node@, e.to_pad@, media_view(e.media_type)))
            } else {
                prev
            },
            PadDirection::Sink => if e.to_node@ == name && e.to_pad@ == pad {
                prev.push((e.from_node@, e.from_pad@, media_view(e.media_type)))
            } else {
                prev
            },
        }
    }
}

pub open spec fn has_pad_named(pads: Seq<PadView>, pad: Seq<char>) -> bool {
    exists|i: int| 0 <= i < pads.len() && (#[trigger] pads[i]).0 == pad
}

/// The stub pads that the first `k` edges add to an element `name` whose
/// pads are `pads`: each edge of the element names a pad; one that no pad
/// has yet (the stubs added before it included) is added, with all its
/// connections.
pub open spec fn stub_pads(name: Seq<char>, pads: Seq<PadView>, edges: Seq<TopologyEdge>, k: int) -> Seq<PadView>
    decreases k,
{
    if k <= 0 {
        Seq::empty()
    } else {
        let prev = stub_pads(name, pads, edges, k - 1);
        match edge_pad(name, edges[k - 1]) {
            None => prev,
            Some((pad, dir)) => if has_pad_named(pads + prev, pad) {
                prev
            } else {
                prev.push((pad, dir, pad_connections(edges, name, pad, dir)))
            },
        }
    }
}

/// The pads of element `name` once the topology's stub pads are added.
pub open spec fn with_stub_pads(name: Seq<char>, pads: Seq<PadView>, edges: Seq<TopologyEdge>) -> Seq<PadView> {
    pads + stub_pads(name, pads, edges, edges.len() as int)
}

/// `new` is `old` with stub pads added to it and to all its descendants.
pub open spec fn stubbed(old: ElementPads, new: ElementPads, edges: Seq<TopologyEdge>) -> bool
    decreases old, 1int,
{
    &&& new.name@ == old.name@
    &&& pad_views(new.pads@) == with_stub_pads(old.name@, pad_views(old.pads@), edges)
    &&& new.children@.len() == old.children@.len()
    &&& forall|k: int|
        0 <= k < old.children@.len() ==> #[trigger] stubbed_child(old, new, edges, k)
}

pub open spec fn stubbed_child(old: ElementPads, new: ElementPads, edges: Seq<TopologyEdge>, k: int) -> bool
    decreases old, 0int,
{
    if 0 <= k < old.children@.len() {
        stubbed(old.children@[k], new.children@[k], edges)
    } else {
        true
    }
}

fn copy_media(m: &Option<String>) -> (r: Option<String>)
    ensures
        media_view(r) == media_view(*m),
{
    match m {
        Some(t) => Some(t.clone()),
        None => None,
    }
}

/// The connections of pad `pad` (direction `dir`) of element `name`.
fn collect_connections(edges: &Vec<TopologyEdge>, name: &str, pad: &str, dir: PadDirection) -> (r: Vec<
    PadConnection,
>)
    ensures
        connection_views(r@) == pad_connections(edges@, name@, pad@, dir),
{
    let mut out: Vec<PadConnection> = Vec::new();
    let m = edges.len();
    let mut k: usize = 0;
    while k < m
        invariant
            m == edges@.len(),
            k <= m,
            connection_views(out@) == pad_connections(edges@.take(k as int), name@, pad@, dir),
        decreases m - k,
    {
        proof {
            assert(edges@.take(k + 1).drop_last() =~= edges@.take(k as int));
        }
        let e = &edges[k];
        let found = match dir {
            PadDirection::Src => str_eq(e.from_node.as_str(), name) && str_eq(e.from_pad.as_str(), pad),
            PadDirection::Sink => str_eq(e.to_node.as_str(), name) && str_eq(e.to_pad.as_str(), pad),
        };
        if found {
            let c = match dir {
                PadDirection::Src => PadConnection {
                    peer_element: e.to_node.clone(),
                    peer_pad: e.to_pad.clone(),
                    media_type: copy_media(&e.media_type),
                },
                PadDirection::Sink => PadConnection {
                    peer_element: e.from_node.clone(),
                    peer_pad: e.from_pad.clone(),
                    media_type: copy_media(&e.media_type),
                },
            };
            let ghost before = out@;
            out.push(c);
            proof {
                assert(connection_views(out@) =~= connection_views(before).push(connection_view(c)));
            }
        }
        k = k + 1;
    }
    proof {
        assert(edges@.take(m as int) =~= edges@);
    }
    out
}

fn has_pad(pads: &Vec<PadLinks>, pad: &str) -> (r: bool)
    ensures
        r == has_pad_named(pad_views(pads@), pad@),
{
    let mut k: usize = 0;
    while k < pads.len()
        invariant
            k <= pads@.len(),
            forall|i: int| 0 <= i < k ==> pads@[i].name@ != pad@,
        decreases pads@.len() - k,
    {
        if str_eq(pads[k].name.as_str(), pad) {
            assert(pad_views(pads@)[k as int].0 == pad@);
            return true;
        }
        k = k + 1;
    }
    proof {
        assert forall|i: int| 0 <= i < pad_views(pads@).len() implies (#[trigger] pad_views(pads@)[i]).0 != pad@ by {
            assert(pad_views(pads@)[i] == pad_view(pads@[i]));
        }
    }
    false
}

/// Adds to the pads of element `name` a stub pad for each pad that the
/// topology's edges give the element and that it does not have yet.
pub fn add_element_stub_pads(name: &str, pads: &mut Vec<PadLinks>, edges: &Vec<TopologyEdge>)
    ensures
        pad_views(final(pads)@) == with_stub_pads(name@, pad_views(old(pads)@), edges@),
{
    let ghost initial = pad_views(pads@);
    let m = edges.len();
    let mut k: usize = 0;
    while k < m
        invariant
            m == edges@.len(),
            k <= m,
            pad_views(pads@) == initial + stub_pads(name@, initial, edges@, k as int),
        decreases m - k,
    {
        let e = &edges[k];
        let side: Option<(&String, PadDirection)> = if str_eq(e.from_node.as_str(), name) {
            Some((&e.from_pad, PadDirection::Src))
        } else if str_eq(e.to_node.as_str(), name) {
            Some((&e.to_pad, PadDirection::Sink))
        } else {
            None
        };
        match side {
            Some((pad, dir)) => {
                if !has_pad(pads, pad.as_str()) {
                    let connections = collect_connections(edges, name, pad.as_str(), dir);
                    let ghost before = pads@;
                    let stub = PadLinks { name: pad.clone(), direction: dir, connections };
                    pads.push(stub);
                    proof {
                        assert(pad_views(pads@) =~= pad_views(before).push(pad_view(stub)));
                    }
                }
            },
            None => {},
        }
        k = k + 1;
    }
}

/// No two pads share a name.
pub open spec fn pad_names_distinct(pads: Seq<PadView>) -> bool {
    forall|i: int, j: int| 0 <= i < j < pads.len() ==> (#[trigger] pads[i]).0 != (#[trigger] pads[j]).0
}

proof fn lemma_stub_pads_distinct(name: Seq<char>, pads: Seq<PadView>, edges: Seq<TopologyEdge>, k: int)
    requires
        pad_names_distinct(pads),
    ensures
        pad_names_distinct(pads + stub_pads(name, pads, edges, k)),
    decreases k,
{
    if k > 0 {
        lemma_stub_pads_distinct(name, pads, edges, k - 1);
        let prev = stub_pads(name, pads, edges, k - 1);
        match edge_pad(name, edges[k - 1]) {
            None => {},
            Some((pad, dir)) => {
                if !has_pad_named(pads + prev, pad) {
                    let all = pads + prev;
                    let stub = (pad, dir, pad_connections(edges, name, pad, dir));
                    assert(pads + prev.push(stub) =~= all.push(stub));
                    assert forall|i: int, j: int| 0 <= i < j < all.push(stub).len() implies (#[trigger] all.push(
                        stub,
                    )[i]).0 != (#[trigger] all.push(stub)[j]).0 by {
                        if j == all.len() {
                            assert(all.push(stub)[i] == all[i]);
                        } else {
                            assert(all.push(stub)[i] == all[i]);
                            assert(all.push(stub)[j] == all[j]);
                        }
                    }
                }
            },
        }
    }
}

/// Adding stub pads never gives an element two pads of one name: a pad that
/// the element already has, or that an earlier edge already added, is not
/// added again.
pub proof fn law_stub_pads_keep_names_distinct(name: Seq<char>, pads: Seq<PadView>, edges: Seq<TopologyEdge>)
    requires
        pad_names_distinct(pads),
    ensures
        pad_names_distinct(with_stub_pads(name, pads, edges)),
{
    lemma_stub_pads_distinct(name, pads, edges, edges.len() as int);
}

/// The pad `pad_name` (direction `direction`) of element `element_name`
/// with the links that the topology's edges give it.
pub fn pad_links_for(
    element_name: &str,
    pad_name: &str,
    direction: PadDirection,
    edges: &Vec<TopologyEdge>,
) -> (r: PadLinks)
    ensures
        pad_view(r) == (pad_name@, direction, pad_connections(edges@, element_name@, pad_name@, direction)),
{
    let connections = collect_connections(edges, element_name, pad_name, direction);
    PadLinks { name: pad_name.to_string(), direction, connections }
}

/// `e` with stub pads added to it and to all its descendants.
#[verifier::loop_isolation(false)]
fn stub_element(e: ElementPads, edges: &Vec<TopologyEdge>) -> (r: ElementPads)
    ensures
        stubbed(e, r, edges@),
    decreases e,
{
    let ghost old_e = e;
    let ghost kids = e.children@;
    let ElementPads { name, mut pads, children } = e;
    add_element_stub_pads(name.as_str(), &mut pads, edges);
    let mut rest = children;
    let mut done: Vec<ElementPads> = Vec::new();
    while rest.len() > 0
        invariant
            kids == old_e.children@,
            done@.len() + rest@.len() == kids.len(),
            rest@ == kids.subrange(done@.len() as int, kids.len() as int),
            forall|k: int| 0 <= k < done@.len() ==> stubbed(kids[k], #[trigger] done@[k], edges@),
        decreases rest@.len(),
    {
        let ghost at = done@.len() as int;
        let c = rest.remove(0);
        proof {
            assert(c == kids[at]);
            assert(decreases_to!(old_e => c));
        }
        let s = stub_element(c, edges);
        done.push(s);
        proof {
            assert(rest@ =~= kids.subrange(done@.len() as int, kids.len() as int));
        }
    }
    let r = ElementPads { name, pads, children: done };
    proof {
        assert forall|k: int| 0 <= k < old_e.children@.len() implies #[trigger] stubbed_child(old_e, r, edges@, k) by {
            assert(stubbed(kids[k], done@[k], edges@));
        }
    }
    r
}

/// Adds the topology's stub pads to every element of the tree `elements`,
/// children of bins included.
pub fn add_stub_pads_recursive(elements: &mut Vec<ElementPads>, edges: &Vec<TopologyEdge>)
    ensures
        final(elements)@.len() == old(elements)@.len(),
        forall|k: int|
            0 <= k < old(elements)@.len() ==> stubbed(old(elements)@[k], #[trigger] final(elements)@[k], edges@),
{
    let ghost originals = elements@;
    let mut rest: Vec<ElementPads> = Vec::new();
    std::mem::swap(elements, &mut rest);
    while rest.len() > 0
        invariant
            elements@.len() + rest@.len() == originals.len(),
            rest@ == originals.subrange(elements@.len() as int, originals.len() as int),
            forall|k: int| 0 <= k < elements@.len() ==> stubbed(originals[k], #[trigger] elements@[k], edges@),
        decreases rest@.len(),
    {
        let c = rest.remove(0);
        let s = stub_element(c, edges);
        elements.push(s);
        proof {
            assert(rest@ =~= originals.subrange(elements@.len() as int, originals.len() as int));
        }
    }
}

/// An element and the bin it sits in, if any.
pub struct BinMember {
    pub name: String,
    pub parent_bin: Option<String>,
}

/// A node of a pipeline's element tree: the index of its element among the
/// members, whether it is a bin, and, for a bin, its children.
pub struct ElementNode {
    pub member: usize,
    pub is_bin: bool,
    pub children: Vec<ElementNode>,
}

pub open spec fn parent_view(m: BinMember) -> Option<Seq<char>> {
    match m.parent_bin {
        Some(p) => Some(p@),
        None => None,
    }
}

/// A bin is an element that the topology flags as one, or that is the
/// parent of some element.
pub open spec fn is_bin_name(members: Seq<BinMember>, topology_bins: Seq<String>, name: Seq<char>) -> bool {
    (exists|b: int| 0 <= b < topology_bins.len() && (#[trigger] topology_bins[b])@ == name) || (exists|i: int|
        0 <= i < members.len() && parent_view(#[trigger] members[i]) == Some(name))
}

/// The indices, in order, of the members whose parent is `parent` (the
/// pipeline itself for `None`).
pub open spec fn children_of(members: Seq<BinMember>, parent: Option<Seq<char>>, k: int) -> Seq<int>
    decreases k,
{
    if k <= 0 {
        Seq::empty()
    } else if parent_view(members[k - 1]) == parent {
        children_of(members, parent, k - 1).push(k - 1)
    } else {
        children_of(members, parent, k - 1)
    }
}

/// `node` is the tree node of member `index`: a bin exactly when its name is
/// a bin's, and without children unless it is a bin.
pub open spec fn is_node_of(members: Seq<BinMember>, topology_bins: Seq<String>, index: int, node: ElementNode) -> bool {
    &&& node.member == index
    &&& node.is_bin == is_bin_name(members, topology_bins, members[index].name@)
    &&& !node.is_bin ==> node.children@.len() == 0
}

/// `nodes` are the children of `parent` in order, and each bin among them
/// has its own children below it, down to `depth` levels (deeper bins are
/// left without children).
pub open spec fn is_forest(
    members: Seq<BinMember>,
    topology_bins: Seq<String>,
    parent: Option<Seq<char>>,
    depth: nat,
    nodes: Seq<ElementNode>,
) -> bool
    decreases depth,
{
    let kids = children_of(members, parent, members.len() as int);
    &&& nodes.len() == kids.len()
    &&& forall|k: int| 0 <= k < nodes.len() ==> #[trigger] is_node_of(members, topology_bins, kids[k], nodes[k])
    &&& forall|k: int|
        0 <= k < nodes.len() ==> if nodes[k].is_bin && depth > 0 {
            is_forest(
                members,
                topology_bins,
                Some(members[kids[k]].name@),
                (depth - 1) as nat,
                #[trigger] nodes[k].children@,
            )
        } else {
            nodes[k].children@.len() == 0
        }
}

fn is_bin(members: &Vec<BinMember>, topology_bins: &Vec<String>, name: &str) -> (r: bool)
    ensures
        r == is_bin_name(members@, topology_bins@, name@),
{
    let mut b: usize = 0;
    while b < topology_bins.len()
        invariant
            b <= topology_bins@.len(),
            forall|c: int| 0 <= c < b ==> (#[trigger] topology_bins@[c])@ != name@,
        decreases topology_bins@.len() - b,
    {
        if str_eq(topology_bins[b].as_str(), name) {
            return true;
        }
        b = b + 1;
    }
    let mut i: usize = 0;
    while i < members.len()
        invariant
            i <= members@.len(),
            forall|c: int| 0 <= c < topology_bins@.len() ==> (#[trigger] topology_bins@[c])@ != name@,
            forall|c: int| 0 <= c < i ==> parent_view(#[trigger] members@[c]) != Some(name@),
        decreases members@.len() - i,
    {
        match &members[i].parent_bin {
            Some(p) => {
                if str_eq(p.as_str(), name) {
                    assert(parent_view(members@[i as int]) == Some(name@));
                    return true;
                }
            },
            None => {},
        }
        i = i + 1;
    }
    false
}

fn has_parent(m: &BinMember, parent: Option<&str>) -> (r: bool)
    ensures
        r == (parent_view(*m) == match parent {
            Some(p) => Some(p@),
            None => None::<Seq<char>>,
        }),
{
    match (&m.parent_bin, parent) {
        (None, None) => true,
        (Some(a), Some(b)) => str_eq(a.as_str(), b),
        _ => false,
    }
}

/// The element tree under `parent` (the pipeline itself for `None`), down
/// to `depth` levels of bins.
fn build_children(
    members: &Vec<BinMember>,
    topology_bins: &Vec<String>,
    parent: Option<&str>,
    depth: usize,
) -> (r: Vec<ElementNode>)
    ensures
        is_forest(
            members@,
            topology_bins@,
            match parent {
                Some(p) => Some(p@),
                None => None,
            },
            depth as nat,
            r@,
        ),
    decreases depth,
{
    let ghost pv = match parent {
        Some(p) => Some(p@),
        None => None::<Seq<char>>,
    };
    let n = members.len();
    let mut out: Vec<ElementNode> = Vec::new();
    let mut i: usize = 0;
    while i < n
        invariant
            n == members@.len(),
            i <= n,
            pv == match parent {
                Some(p) => Some(p@),
                None => None::<Seq<char>>,
            },
            out@.len() == children_of(members@, pv, i as int).len(),
            forall|k: int|
                0 <= k < out@.len() ==> is_node_of(
                    members@,
                    topology_bins@,
                    children_of(members@, pv, i as int)[k],
                    #[trigger] out@[k],
                ),
            forall|k: int|
                0 <= k < out@.len() ==> if (#[trigger] out@[k]).is_bin && depth > 0 {
                    is_forest(
                        members@,
                        topology_bins@,
                        Some(members@[children_of(members@, pv, i as int)[k]].name@),
                        (depth - 1) as nat,
                        out@[k].children@,
                    )
                } else {
                    out@[k].children@.len() == 0
                },
        decreases n - i,
    {
        let m = &members[i];
        if has_parent(m, parent) {
            let bin = is_bin(members, topology_bins, m.name.as_str());
            let children = if bin && depth > 0 {
                build_children(members, topology_bins, Some(m.name.as_str()), depth - 1)
            } else {
                Vec::new()
            };
            let node = ElementNode { member: i, is_bin: bin, children };
            out.push(node);
        }
        i = i + 1;
    }
    proof {
        let kids = children_of(members@, pv, members@.len() as int);
        assert(kids == children_of(members@, pv, i as int));
        assert forall|k: int| 0 <= k < out@.len() implies #[trigger] is_node_of(
            members@,
            topology_bins@,
            kids[k],
            out@[k],
        ) by {}
        assert forall|k: int| 0 <= k < out@.len() implies if out@[k].is_bin && depth > 0 {
            is_forest(
                members@,
                topology_bins@,
                Some(members@[kids[k]].name@),
                (depth - 1) as nat,
                #[trigger] out@[k].children@,
            )
        } else {
            out@[k].children@.len() == 0
        } by {}
    }
    out
}

/// The element tree of a pipeline: its direct elements in order, each bin
/// (flagged by the topology, or parent of an element) with its children.
pub fn build_element_tree(members: &Vec<BinMember>, topology_bins: &Vec<String>) -> (r: Vec<ElementNode>)
    ensures
        is_forest(members@, topology_bins@, None, members@.len() as nat, r@),
{
    build_children(members, topology_bins, None, members.len())
}

/// No two members share a name, as in a pipeline, whose elements are keyed
/// by name.
pub open spec fn names_distinct(members: Seq<BinMember>) -> bool {
    forall|i: int, j: int| 0 <= i < j < members.len() ==> (#[trigger] members[i]).name@ != (#[trigger] members[j]).name@
}

/// `c` is a path of members from the pipeline down: the first has no
/// parent, each next one sits in the one before.
pub open spec fn is_chain(members: Seq<BinMember>, c: Seq<int>) -> bool {
    &&& forall|t: int| 0 <= t < c.len() ==> 0 <= #[trigger] c[t] < members.len()
    &&& c.len() > 0 ==> parent_view(members[c[0]]) is None
    &&& forall|t: int| 0 < t < c.len() ==> parent_view(members[#[trigger] c[t]]) == Some(members[c[t - 1]].name@)
}

/// The parent whose children extend the path `c`.
pub open spec fn chain_parent(members: Seq<BinMember>, c: Seq<int>) -> Option<Seq<char>> {
    if c.len() == 0 {
        None
    } else {
        Some(members[c.last()].name@)
    }
}

proof fn lemma_children_of(members: Seq<BinMember>, parent: Option<Seq<char>>, k: int)
    requires
        0 <= k <= members.len(),
    ensures
        forall|t: int|
            0 <= t < children_of(members, parent, k).len() ==> 0 <= #[trigger] children_of(members, parent, k)[t] < k
                && parent_view(members[children_of(members, parent, k)[t]]) == parent,
        forall|j: int| 0 <= j < k && parent_view(#[trigger] members[j]) == parent ==> children_of(members, parent, k).len() > 0,
    decreases k,
{
    if k > 0 {
        lemma_children_of(members, parent, k - 1);
    }
}

proof fn lemma_chain_distinct(members: Seq<BinMember>, c: Seq<int>, a: int, b: int)
    requires
        names_distinct(members),
        is_chain(members, c),
        0 <= a < b < c.len(),
    ensures
        c[a] != c[b],
    decreases a,
{
    if c[a] == c[b] {
        if a == 0 {
            assert(parent_view(members[c[b]]) == Some(members[c[b - 1]].name@));
        } else {
            assert(parent_view(members[c[a]]) == Some(members[c[a - 1]].name@));
            assert(parent_view(members[c[b]]) == Some(members[c[b - 1]].name@));
            let x = c[a - 1];
            let y = c[b - 1];
            if x < y {
                assert(members[x].name@ != members[y].name@);
            } else if y < x {
                assert(members[y].name@ != members[x].name@);
            }
            lemma_chain_distinct(members, c, a - 1, b - 1);
        }
    }
}

proof fn lemma_chain_len(members: Seq<BinMember>, c: Seq<int>)
    requires
        names_distinct(members),
        is_chain(members, c),
    ensures
        c.len() <= members.len(),
{
    assert(c.no_duplicates()) by {
        assert forall|a: int, b: int| 0 <= a < c.len() && 0 <= b < c.len() && a != b implies c[a] != c[b] by {
            if a < b {
                lemma_chain_distinct(members, c, a, b);
            } else {
                lemma_chain_distinct(members, c, b, a);
            }
        }
    }
    c.unique_seq_to_set();
    vstd::set_lib::lemma_int_range(0, members.len() as int);
    assert(c.to_set().subset_of(vstd::set_lib::set_int_range(0, members.len() as int)));
    vstd::set_lib::lemma_len_subset(c.to_set(), vstd::set_lib::set_int_range(0, members.len() as int));
}

/// A forest built to depth `d` under the end of path `c` is already whole
/// when `d` reaches the number of members below the path: it is also the
/// forest to any greater depth.
proof fn lemma_forest_deepens(
    members: Seq<BinMember>,
    topology_bins: Seq<String>,
    c: Seq<int>,
    d: nat,
    e: nat,
    nodes: Seq<ElementNode>,
)
    requires
        names_distinct(members),
        is_chain(members, c),
        is_forest(members, topology_bins, chain_parent(members, c), d, nodes),
        d + c.len() + 1 >= members.len(),
        e >= d,
    ensures
        is_forest(members, topology_bins, chain_parent(members, c), e, nodes),
    decreases d,
{
    let n = members.len() as int;
    let parent = chain_parent(members, c);
    let kids = children_of(members, parent, n);
    lemma_children_of(members, parent, n);
    assert forall|k: int|
        0 <= k < nodes.len() implies if nodes[k].is_bin && e > 0 {
        is_forest(
            members,
            topology_bins,
            Some(members[kids[k]].name@),
            (e - 1) as nat,
            #[trigger] nodes[k].children@,
        )
    } else {
        nodes[k].children@.len() == 0
    } by {
        let child = kids[k];
        let c2 = c.push(child);
        assert(is_chain(members, c2)) by {
            assert(c2[c2.len() - 1] == child);
            assert forall|t: int| 0 < t < c2.len() implies parent_view(members[#[trigger] c2[t]]) == Some(
                members[c2[t - 1]].name@,
            ) by {
                if t < c.len() {
                    assert(c2[t] == c[t]);
                    assert(c2[t - 1] == c[t - 1]);
                }
            }
        }
        assert(chain_parent(members, c2) == Some(members[child].name@));
        if nodes[k].is_bin {
            if d > 0 {
                lemma_forest_deepens(members, topology_bins, c2, (d - 1) as nat, (e - 1) as nat, nodes[k].children@);
            } else if e > 0 {
                // The member sits at the depth of the number of members: it
                // cannot have children.
                let grand = children_of(members, Some(members[child].name@), n);
                lemma_children_of(members, Some(members[child].name@), n);
                if grand.len() > 0 {
                    let c3 = c2.push(grand[0]);
                    assert(is_chain(members, c3)) by {
                        assert forall|t: int| 0 < t < c3.len() implies parent_view(members[#[trigger] c3[t]]) == Some(
                            members[c3[t - 1]].name@,
                        ) by {
                            if t < c2.len() {
                                assert(c3[t] == c2[t]);
                                assert(c3[t - 1] == c2[t - 1]);
                            }
                        }
                    }
                    lemma_chain_len(members, c3);
                }
                assert(is_forest(members, topology_bins, Some(members[child].name@), (e - 1) as nat, nodes[k].children@));
            }
        }
    }
}

/// With distinct element names, the tree that `build_element_tree` gives is
/// the whole tree: building it to any greater depth gives the same nodes.
pub proof fn law_element_tree_is_whole(
    members: Seq<BinMember>,
    topology_bins: Seq<String>,
    nodes: Seq<ElementNode>,
    deeper: nat,
)
    requires
        names_distinct(members),
        is_forest(members, topology_bins, None, members.len() as nat, nodes),
    ensures
        is_forest(members, topology_bins, None, members.len() + deeper, nodes),
{
    assert(is_chain(members, Seq::<int>::empty()));
    assert(chain_parent(members, Seq::<int>::empty()) is None);
    lemma_forest_deepens(members, topology_bins, Seq::empty(), members.len() as nat, members.len() + deeper, nodes);
}

} // verus!
