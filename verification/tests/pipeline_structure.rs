use mavlink_camera_manager::pipeline_structure::{
    pad_links_for, build_element_tree, BinMember, ElementNode,
    add_element_stub_pads, add_stub_pads_recursive, queue_thread_links, ElementPads,
    ElementThread, PadConnection, PadDirection, PadLinks, TopologyEdge, has_queue_levels,
    snapshot_property_names, PropertyInfo,
};

fn element(name: &str, element_type: &str, thread_id: Option<u32>) -> ElementThread {
    ElementThread {
        name: name.to_string(),
        element_type: element_type.to_string(),
        thread_id,
    }
}

fn edge(from_node: &str, from_pad: &str, to_node: &str, to_pad: &str) -> TopologyEdge {
    TopologyEdge {
        from_node: from_node.to_string(),
        from_pad: from_pad.to_string(),
        to_node: to_node.to_string(),
        to_pad: to_pad.to_string(),
        media_type: Some("video/x-h264".to_string()),
    }
}

fn sorted_links(elements: &Vec<ElementThread>, edges: &Vec<TopologyEdge>) -> Vec<(u32, u32, String)> {
    let mut links: Vec<(u32, u32, String)> = queue_thread_links(elements, edges)
        .into_iter()
        .map(|l| (l.from_thread, l.to_thread, l.via_element))
        .collect();
    links.sort();
    links
}

#[test]
fn queue_links_the_pushing_and_pulling_threads() {
    let elements = vec![
        element("src", "v4l2src", Some(1)),
        element("q", "queue", Some(2)),
        element("pay", "rtph264pay", Some(3)),
    ];
    let edges = vec![edge("src", "src", "q", "sink"), edge("q", "src", "pay", "sink")];
    assert_eq!(
        sorted_links(&elements, &edges),
        vec![(1, 2, "q".to_string()), (2, 3, "q".to_string())]
    );
}

#[test]
fn queue_on_the_same_thread_links_nothing() {
    let elements = vec![
        element("src", "v4l2src", Some(1)),
        element("q", "queue2", Some(1)),
        element("sink", "fakesink", None),
    ];
    let edges = vec![edge("src", "src", "q", "sink"), edge("q", "src", "sink", "sink")];
    assert!(sorted_links(&elements, &edges).is_empty());
}

#[test]
fn only_queues_with_a_thread_link_threads() {
    let elements = vec![
        element("a", "identity", Some(1)),
        element("b", "identity", Some(2)),
        element("q", "multiqueue", None),
        element("mq", "GstQueueLike", Some(5)),
    ];
    let edges = vec![edge("a", "src", "b", "sink"), edge("a", "src", "q", "sink"), edge("b", "src", "mq", "sink")];
    assert_eq!(sorted_links(&elements, &edges), vec![(2, 5, "mq".to_string())]);
}

#[test]
fn repeated_edges_give_one_link() {
    let elements = vec![element("src", "v4l2src", Some(1)), element("q", "queue", Some(2))];
    let edges = vec![edge("src", "src", "q", "sink"), edge("src", "src_1", "q", "sink_1")];
    assert_eq!(sorted_links(&elements, &edges), vec![(1, 2, "q".to_string())]);
}

fn pad(name: &str, direction: PadDirection) -> PadLinks {
    PadLinks {
        name: name.to_string(),
        direction,
        connections: Vec::new(),
    }
}

fn views(pads: &[PadLinks]) -> Vec<(String, PadDirection, Vec<(String, String)>)> {
    pads.iter()
        .map(|p| {
            (
                p.name.clone(),
                p.direction,
                p.connections
                    .iter()
                    .map(|c: &PadConnection| (c.peer_element.clone(), c.peer_pad.clone()))
                    .collect(),
            )
        })
        .collect()
}

#[test]
fn stub_pads_cover_the_tee_branches() {
    let edges = vec![
        edge("src", "src", "tee", "sink"),
        edge("tee", "src_0", "q0", "sink"),
        edge("tee", "src_1", "q1", "sink"),
    ];
    let mut pads = vec![pad("sink", PadDirection::Sink)];
    add_element_stub_pads("tee", &mut pads, &edges);
    assert_eq!(
        views(&pads),
        vec![
            ("sink".to_string(), PadDirection::Sink, vec![]),
            (
                "src_0".to_string(),
                PadDirection::Src,
                vec![("q0".to_string(), "sink".to_string())]
            ),
            (
                "src_1".to_string(),
                PadDirection::Src,
                vec![("q1".to_string(), "sink".to_string())]
            ),
        ]
    );
    assert_eq!(pads[1].connections[0].media_type, Some("video/x-h264".to_string()));
}

#[test]
fn stub_pad_gathers_every_link_of_its_pad_once() {
    let edges = vec![edge("a", "src", "b", "sink"), edge("a", "src", "c", "sink")];
    let mut pads = Vec::new();
    add_element_stub_pads("a", &mut pads, &edges);
    assert_eq!(
        views(&pads),
        vec![(
            "src".to_string(),
            PadDirection::Src,
            vec![("b".to_string(), "sink".to_string()), ("c".to_string(), "sink".to_string())]
        )]
    );
}

#[test]
fn stub_pads_reach_into_bins() {
    let edges = vec![edge("inner", "src", "outer", "sink")];
    let mut elements = vec![
        ElementPads {
            name: "bin".to_string(),
            pads: Vec::new(),
            children: vec![ElementPads {
                name: "inner".to_string(),
                pads: Vec::new(),
                children: Vec::new(),
            }],
        },
        ElementPads {
            name: "outer".to_string(),
            pads: vec![pad("sink", PadDirection::Sink)],
            children: Vec::new(),
        },
    ];
    add_stub_pads_recursive(&mut elements, &edges);
    assert!(elements[0].pads.is_empty());
    assert_eq!(
        views(&elements[0].children[0].pads),
        vec![(
            "src".to_string(),
            PadDirection::Src,
            vec![("outer".to_string(), "sink".to_string())]
        )]
    );
    // The outer element already had its sink pad.
    assert_eq!(views(&elements[1].pads), vec![("sink".to_string(), PadDirection::Sink, vec![])]);
}

fn member(name: &str, parent_bin: Option<&str>) -> BinMember {
    BinMember {
        name: name.to_string(),
        parent_bin: parent_bin.map(|p| p.to_string()),
    }
}

/// The tree as (element name, is bin, children), for comparisons.
#[derive(Debug, PartialEq)]
struct Tree(String, bool, Vec<Tree>);

fn shape(members: &[BinMember], nodes: &[ElementNode]) -> Vec<Tree> {
    nodes
        .iter()
        .map(|n| Tree(members[n.member].name.clone(), n.is_bin, shape(members, &n.children)))
        .collect()
}

#[test]
fn element_tree_nests_bin_children() {
    let members = vec![
        member("src", None),
        member("decodebin0", None),
        member("h264parse0", Some("decodebin0")),
        member("inner_bin", Some("decodebin0")),
        member("avdec0", Some("inner_bin")),
        member("sink", None),
    ];
    let tree = build_element_tree(&members, &Vec::new());
    assert_eq!(
        shape(&members, &tree),
        vec![
            Tree("src".to_string(), false, vec![]),
            Tree(
                "decodebin0".to_string(),
                true,
                vec![
                    Tree("h264parse0".to_string(), false, vec![]),
                    Tree(
                        "inner_bin".to_string(),
                        true,
                        vec![Tree("avdec0".to_string(), false, vec![])]
                    ),
                ]
            ),
            Tree("sink".to_string(), false, vec![]),
        ]
    );
}

#[test]
fn element_tree_flags_topology_bins_without_children() {
    let members = vec![member("rtpbin0", None), member("q", None)];
    let tree = build_element_tree(&members, &vec!["rtpbin0".to_string()]);
    assert_eq!(
        shape(&members, &tree),
        vec![
            Tree("rtpbin0".to_string(), true, vec![]),
            Tree("q".to_string(), false, vec![]),
        ]
    );
}

#[test]
fn element_tree_leaves_out_members_of_unknown_bins() {
    // An element whose bin is not itself a member is not reached.
    let members = vec![member("orphan", Some("gone")), member("top", None)];
    let tree = build_element_tree(&members, &Vec::new());
    assert_eq!(shape(&members, &tree), vec![Tree("top".to_string(), false, vec![])]);
}

#[test]
fn pad_links_gather_the_edges_of_that_pad() {
    let edges = vec![
        edge("tee", "src_0", "q0", "sink"),
        edge("tee", "src_1", "q1", "sink"),
        edge("src", "src", "tee", "sink"),
    ];
    let src_0 = pad_links_for("tee", "src_0", PadDirection::Src, &edges);
    assert_eq!(
        views(&[src_0]),
        vec![(
            "src_0".to_string(),
            PadDirection::Src,
            vec![("q0".to_string(), "sink".to_string())]
        )]
    );
    let sink = pad_links_for("tee", "sink", PadDirection::Sink, &edges);
    assert_eq!(
        views(&[sink]),
        vec![(
            "sink".to_string(),
            PadDirection::Sink,
            vec![("src".to_string(), "src".to_string())]
        )]
    );
}

#[test]
fn queue_levels_are_read_for_any_case_of_queue() {
    assert!(has_queue_levels("queue"));
    assert!(has_queue_levels("queue2"));
    assert!(has_queue_levels("multiqueue"));
    assert!(has_queue_levels("GstQUEUE"));
    assert!(!has_queue_levels("x264enc"));
    assert!(!has_queue_levels("que-ue"));
}

#[test]
fn snapshot_properties_skip_unreadable_and_denied_ones() {
    let prop = |name: &str, readable: bool| PropertyInfo { name: name.to_string(), readable };
    let names = snapshot_property_names(&vec![
        prop("name", true),
        prop("max-size-buffers", true),
        prop("last-sample", true),
        prop("secret", false),
        prop("leaky", true),
    ]);
    assert_eq!(names, vec!["max-size-buffers".to_string(), "leaky".to_string()]);
}

