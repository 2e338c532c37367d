use nexus_core::graph::{graph_collect_upstream_inputs, GraphEdge, GraphNode};

fn node(id: &str, t: &str, content: &str, label: &str, url: &str) -> GraphNode {
    GraphNode {
        id: id.to_string(),
        node_type: t.to_string(),
        content: content.to_string(),
        label: label.to_string(),
        url: url.to_string(),
    }
}

fn edge(s: &str, t: &str, role: &str) -> GraphEdge {
    GraphEdge { source: s.to_string(), target: t.to_string(), image_role: role.to_string() }
}

#[test]
fn focus_is_not_its_own_source() {
    let nodes = vec![
        node("F", "text", "prompt", "", ""),
        node("C", "imageConfig", "", "", ""),
        node("S", "image", "", "", "https://x/s.png"),
    ];
    let edges = vec![edge("F", "C", ""), edge("S", "C", "")];
    let r = graph_collect_upstream_inputs("F".to_string(), nodes, edges);
    assert!(r.text.is_empty());
    assert_eq!(r.images.len(), 1);
    let b = &r.images[0];
    assert_eq!(
        (b.id.as_str(), b.label.as_str(), b.role.as_str(), b.url.as_str(), b.target.as_str()),
        ("S", "参考图", "input_reference", "https://x/s.png", "C")
    );
}

#[test]
fn unknown_or_blank_focus_gives_nothing() {
    let nodes = vec![node("C", "imageConfig", "", "", "")];
    let r = graph_collect_upstream_inputs("X".to_string(), nodes, vec![edge("X", "C", "")]);
    assert!(r.text.is_empty() && r.images.is_empty());
    let r = graph_collect_upstream_inputs("  ".to_string(), vec![], vec![]);
    assert!(r.text.is_empty() && r.images.is_empty());
}

#[test]
fn text_sources_are_deduplicated_and_cut() {
    let long = "x".repeat(600);
    let nodes = vec![
        node("F", "image", "", "", ""),
        node("C1", "imageConfig", "", "", ""),
        node("C2", "videoConfig", "", "", ""),
        node("T", "text", &long, " My label ", ""),
        node("E", "text", "   ", "", ""),
        node("N", "note", "ignored", "", ""),
    ];
    let edges = vec![
        edge("F", "C1", ""),
        edge("F", "C2", ""),
        edge("T", "C1", ""),
        edge("E", "C1", ""),
        edge("N", "C1", ""),
        edge("T", "C2", ""),
        edge("", "C2", ""),
    ];
    let r = graph_collect_upstream_inputs(" F ".to_string(), nodes, edges);
    assert_eq!(r.images.len(), 1);
    assert_eq!((r.images[0].id.as_str(), r.images[0].target.as_str()), ("F", "C1"));
    assert_eq!(r.text.len(), 1);
    let t = &r.text[0];
    assert_eq!(t.id, "T");
    assert_eq!(t.label, "My label");
    assert_eq!(t.target, "C1");
    assert_eq!(t.text, format!("{}…", "x".repeat(520)));
}

#[test]
fn image_roles_and_inline_urls() {
    let long_url = format!("https://x/{}", "a".repeat(300));
    let nodes = vec![
        node("F", "text", "", "", ""),
        node("C", "videoConfig", "", "", ""),
        node("I1", "image", "", "first", "data:image/png;base64,AAAA"),
        node("I2", "image", "", "", &long_url),
        node("T", "text", "describe", "", ""),
    ];
    let edges = vec![
        edge("F", "C", ""),
        edge("I1", "C", "first_frame"),
        edge("I2", "C", ""),
        edge("I1", "C", "other"),
        edge("T", "C", ""),
    ];
    let r = graph_collect_upstream_inputs("F".to_string(), nodes, edges);
    assert_eq!(r.images.len(), 2);
    assert_eq!(r.images[0].role, "first_frame");
    assert_eq!(r.images[0].label, "first");
    assert_eq!(r.images[0].url, "");
    assert_eq!(r.images[1].url, format!("{}…", &long_url[..240]));
    assert_eq!(r.text.len(), 1);
    assert_eq!((r.text[0].label.as_str(), r.text[0].text.as_str()), ("文本节点", "describe"));
}

#[test]
fn last_node_with_an_id_wins() {
    let nodes = vec![
        node("F", "text", "", "", ""),
        node("C", "text", "", "", ""),
        node("C", "imageConfig", "", "", ""),
        node("S", "text", "old", "", ""),
        node("S", "text", "new", "", ""),
    ];
    let r = graph_collect_upstream_inputs("F".to_string(), nodes, vec![edge("F", "C", ""), edge("S", "C", "")]);
    assert_eq!(r.text.len(), 1);
    assert_eq!(r.text[0].text, "new");
}
