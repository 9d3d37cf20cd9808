use mavlink_camera_manager::pipeline_topology::{
    derive_pipeline_connections, PipelineTopology, TopologyElement,
};

fn element(name: &str, element_type: &str) -> TopologyElement {
    TopologyElement {
        name: name.to_string(),
        element_type: element_type.to_string(),
    }
}

fn pipeline(name: &str, elements: Vec<TopologyElement>) -> PipelineTopology {
    PipelineTopology {
        name: name.to_string(),
        elements,
        connections: Vec::new(),
    }
}

#[test]
fn bridge_sinks_connect_to_peer_sources_of_other_pipelines() {
    let mut pipelines = vec![
        pipeline(
            "source",
            vec![
                element("v4l2src0", "v4l2src"),
                element("proxysink3", "proxysink"),
                element("shmsink-a", "shmsink"),
            ],
        ),
        pipeline("rtsp", vec![element("proxysrc3", "proxysrc")]),
        pipeline("recorder", vec![element("shmsrc-a", "shmsrc")]),
    ];
    derive_pipeline_connections(&mut pipelines);
    let connections = &pipelines[0].connections;
    assert_eq!(connections.len(), 2);
    assert_eq!(connections[0].to_pipeline, "rtsp");
    assert_eq!(connections[0].bridge_type, "proxy");
    assert_eq!(connections[0].from_element, "proxysink3");
    assert_eq!(connections[0].to_element, "proxysrc3");
    assert_eq!(connections[1].to_pipeline, "recorder");
    assert_eq!(connections[1].bridge_type, "shm");
    assert!(pipelines[1].connections.is_empty());
    assert!(pipelines[2].connections.is_empty());
}

#[test]
fn peers_in_the_same_pipeline_or_missing_give_no_connection() {
    let mut pipelines = vec![
        pipeline(
            "loop",
            vec![element("proxysink0", "proxysink"), element("proxysrc0", "proxysrc")],
        ),
        pipeline("lonely", vec![element("proxysink9", "proxysink")]),
    ];
    derive_pipeline_connections(&mut pipelines);
    assert!(pipelines[0].connections.is_empty());
    assert!(pipelines[1].connections.is_empty());
}

#[test]
fn renamed_sinks_look_for_the_bare_peer_prefix() {
    let mut pipelines = vec![
        pipeline("a", vec![element("my-sink", "proxysink")]),
        pipeline("b", vec![element("proxysrc", "proxysrc")]),
        pipeline("c", vec![element("proxysrc", "proxysrc")]),
    ];
    derive_pipeline_connections(&mut pipelines);
    // The last pipeline holding the peer name wins.
    assert_eq!(pipelines[0].connections.len(), 1);
    assert_eq!(pipelines[0].connections[0].to_pipeline, "c");
    assert_eq!(pipelines[0].connections[0].to_element, "proxysrc");
}
