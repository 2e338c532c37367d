use vstd::prelude::*;
use crate::text::{
    chars_of, string_of, normalize_chars, trim_chars, chars_eq, starts_with_chars, slice_chars,
    normalized, sliced, trim_start, trim_end, starts_with,
};

verus! {

/// A node of the canvas graph, with the fields of its data that the
/// resolver reads (each empty where the data lacks it).
pub struct GraphNode {
    pub id: String,
    pub node_type: String,
    pub content: String,
    pub label: String,
    pub url: String,
}

/// An edge of the canvas graph, with the role tag of its data (empty where absent).
pub struct GraphEdge {
    pub source: String,
    pub target: String,
    pub image_role: String,
}

/// A text node that feeds a config node.
pub struct UpstreamTextBlock {
    pub id: String,
    pub label: String,
    pub text: String,
    pub target: String,
}

/// An image node that feeds a config node.
pub struct UpstreamImageBlock {
    pub id: String,
    pub label: String,
    pub role: String,
    pub url: String,
    pub target: String,
}

/// What feeds the config nodes next to a focus node.
pub struct UpstreamInputs {
    pub text: Vec<UpstreamTextBlock>,
    pub images: Vec<UpstreamImageBlock>,
}

impl View for UpstreamTextBlock {
    type V = (Seq<char>, Seq<char>, Seq<char>, Seq<char>);

    open spec fn view(&self) -> (Seq<char>, Seq<char>, Seq<char>, Seq<char>) {
        (self.id@, self.label@, self.text@, self.target@)
    }
}

impl View for UpstreamImageBlock {
    type V = (Seq<char>, Seq<char>, Seq<char>, Seq<char>, Seq<char>);

    open spec fn view(&self) -> (Seq<char>, Seq<char>, Seq<char>, Seq<char>, Seq<char>) {
        (self.id@, self.label@, self.role@, self.url@, self.target@)
    }
}

pub open spec fn text_views(s: Seq<UpstreamTextBlock>) -> Seq<(Seq<char>, Seq<char>, Seq<char>, Seq<char>)> {
    s.map_values(|b: UpstreamTextBlock| b@)
}

pub open spec fn image_views(s: Seq<UpstreamImageBlock>) -> Seq<
    (Seq<char>, Seq<char>, Seq<char>, Seq<char>, Seq<char>),
> {
    s.map_values(|b: UpstreamImageBlock| b@)
}

pub open spec fn trimmed(s: Seq<char>) -> Seq<char> {
    trim_end(trim_start(s))
}

/// The node that an id names: the last node with that id whose id is not blank.
pub open spec fn find_node(nodes: Seq<GraphNode>, id: Seq<char>) -> Option<int>
    decreases nodes.len(),
{
    if nodes.len() == 0 {
        None
    } else if trimmed(nodes.last().id@).len() > 0 && nodes.last().id@ == id {
        Some(nodes.len() - 1)
    } else {
        find_node(nodes.drop_last(), id)
    }
}

/// An edge with a source and a target that are not blank.
pub open spec fn edge_ok(e: GraphEdge) -> bool {
    trimmed(e.source@).len() > 0 && trimmed(e.target@).len() > 0
}

pub open spec fn config_kind(t: Seq<char>) -> bool {
    t == "imageConfig"@ || t == "videoConfig"@
}

/// An edge from the focus node to a config node.
pub open spec fn sink_edge(nodes: Seq<GraphNode>, focus: Seq<char>, e: GraphEdge) -> bool {
    edge_ok(e) && e.source@ == focus && match find_node(nodes, e.target@) {
        Some(i) => config_kind(nodes[i].node_type@),
        None => false,
    }
}

/// The config nodes that the focus node points at, in edge order.
pub open spec fn sinks(nodes: Seq<GraphNode>, focus: Seq<char>, edges: Seq<GraphEdge>) -> Seq<Seq<char>>
    decreases edges.len(),
{
    if edges.len() == 0 {
        seq![]
    } else {
        let p = sinks(nodes, focus, edges.drop_last());
        if sink_edge(nodes, focus, edges.last()) {
            p.push(edges.last().target@)
        } else {
            p
        }
    }
}

/// The valid edges into `sink`, each paired with it, in edge order.
pub open spec fn incoming(sink: Seq<char>, edges: Seq<GraphEdge>) -> Seq<(Seq<char>, GraphEdge)>
    decreases edges.len(),
{
    if edges.len() == 0 {
        seq![]
    } else {
        let p = incoming(sink, edges.drop_last());
        if edge_ok(edges.last()) && edges.last().target@ == sink {
            p.push((sink, edges.last()))
        } else {
            p
        }
    }
}

/// The incoming edges of every sink, sink by sink.
pub open spec fn feeds(sinks: Seq<Seq<char>>, edges: Seq<GraphEdge>) -> Seq<(Seq<char>, GraphEdge)>
    decreases sinks.len(),
{
    if sinks.len() == 0 {
        seq![]
    } else {
        feeds(sinks.drop_last(), edges) + incoming(sinks.last(), edges)
    }
}

pub open spec fn text_seen(out: Seq<(Seq<char>, Seq<char>, Seq<char>, Seq<char>)>, id: Seq<char>) -> bool {
    exists|k: int| 0 <= k < out.len() && out[k].0 == id
}

pub open spec fn image_seen(
    out: Seq<(Seq<char>, Seq<char>, Seq<char>, Seq<char>, Seq<char>)>,
    id: Seq<char>,
) -> bool {
    exists|k: int| 0 <= k < out.len() && out[k].0 == id
}

pub open spec fn or_default(s: Seq<char>, d: Seq<char>) -> Seq<char> {
    if s.len() == 0 {
        d
    } else {
        s
    }
}

/// An image address as passed on: inline data is left out, others are cut
/// to 240 characters.
pub open spec fn image_url(u: Seq<char>) -> Seq<char> {
    if starts_with(u, "data:"@) {
        seq![]
    } else {
        sliced(u, 240)
    }
}

/// The text blocks after one more (sink, edge) pair.
pub open spec fn text_step(
    nodes: Seq<GraphNode>,
    focus: Seq<char>,
    prev: Seq<(Seq<char>, Seq<char>, Seq<char>, Seq<char>)>,
    p: (Seq<char>, GraphEdge),
) -> Seq<(Seq<char>, Seq<char>, Seq<char>, Seq<char>)> {
    match find_node(nodes, p.1.source@) {
        Some(i) => {
            let n = nodes[i];
            if n.node_type@ == "text"@ && n.id@ != focus && !text_seen(prev, n.id@) && normalized(
                n.content@,
            ).len() > 0 {
                prev.push(
                    (
                        n.id@,
                        or_default(normalized(n.label@), "文本节点"@),
                        sliced(normalized(n.content@), 520),
                        p.0,
                    ),
                )
            } else {
                prev
            }
        },
        None => prev,
    }
}

/// The image blocks after one more (sink, edge) pair.
pub open spec fn image_step(
    nodes: Seq<GraphNode>,
    prev: Seq<(Seq<char>, Seq<char>, Seq<char>, Seq<char>, Seq<char>)>,
    p: (Seq<char>, GraphEdge),
) -> Seq<(Seq<char>, Seq<char>, Seq<char>, Seq<char>, Seq<char>)> {
    match find_node(nodes, p.1.source@) {
        Some(i) => {
            let n = nodes[i];
            if n.node_type@ == "image"@ && !image_seen(prev, n.id@) {
                prev.push(
                    (
                        n.id@,
                        or_default(normalized(n.label@), "参考图"@),
                        or_default(normalized(p.1.image_role@), "input_reference"@),
                        image_url(normalized(n.url@)),
                        p.0,
                    ),
                )
            } else {
                prev
            }
        },
        None => prev,
    }
}

pub open spec fn text_blocks(nodes: Seq<GraphNode>, focus: Seq<char>, ps: Seq<(Seq<char>, GraphEdge)>) -> Seq<
    (Seq<char>, Seq<char>, Seq<char>, Seq<char>),
>
    decreases ps.len(),
{
    if ps.len() == 0 {
        seq![]
    } else {
        text_step(nodes, focus, text_blocks(nodes, focus, ps.drop_last()), ps.last())
    }
}

pub open spec fn image_blocks(nodes: Seq<GraphNode>, ps: Seq<(Seq<char>, GraphEdge)>) -> Seq<
    (Seq<char>, Seq<char>, Seq<char>, Seq<char>, Seq<char>),
>
    decreases ps.len(),
{
    if ps.len() == 0 {
        seq![]
    } else {
        image_step(nodes, image_blocks(nodes, ps.drop_last()), ps.last())
    }
}

/// Whether the (trimmed) focus id names a node.
pub open spec fn focus_known(focus_node_id: Seq<char>, nodes: Seq<GraphNode>) -> bool {
    trimmed(focus_node_id).len() > 0 && find_node(nodes, trimmed(focus_node_id)) is Some
}

pub open spec fn upstream_pairs(focus_node_id: Seq<char>, nodes: Seq<GraphNode>, edges: Seq<GraphEdge>) -> Seq<
    (Seq<char>, GraphEdge),
> {
    let focus = trimmed(focus_node_id);
    feeds(sinks(nodes, focus, edges), edges)
}

/// Upstream lists never name the focus node as a text source, and never
/// name one source twice in the same list.
pub proof fn lemma_blocks_distinct(nodes: Seq<GraphNode>, focus: Seq<char>, ps: Seq<(Seq<char>, GraphEdge)>)
    ensures
        forall|k: int|
            0 <= k < text_blocks(nodes, focus, ps).len() ==> #[trigger] text_blocks(nodes, focus, ps)[k].0
                != focus,
        forall|i: int, j: int|
            0 <= i < j < text_blocks(nodes, focus, ps).len() ==> text_blocks(nodes, focus, ps)[i].0
                != text_blocks(nodes, focus, ps)[j].0,
        forall|i: int, j: int|
            0 <= i < j < image_blocks(nodes, ps).len() ==> image_blocks(nodes, ps)[i].0 != image_blocks(
                nodes,
                ps,
            )[j].0,
    decreases ps.len(),
{
    if ps.len() > 0 {
        lemma_blocks_distinct(nodes, focus, ps.drop_last());
        let pt = text_blocks(nodes, focus, ps.drop_last());
        let pi = image_blocks(nodes, ps.drop_last());
        let t = text_blocks(nodes, focus, ps);
        let im = image_blocks(nodes, ps);
        if t.len() > pt.len() {
            assert forall|i: int, j: int| 0 <= i < j < t.len() implies t[i].0 != t[j].0 by {
                if j == t.len() - 1 {
                    assert(t[i] == pt[i]);
                    assert(!text_seen(pt, t[j].0));
                } else {
                    assert(t[i] == pt[i] && t[j] == pt[j]);
                }
            }
            assert forall|k: int| 0 <= k < t.len() implies #[trigger] t[k].0 != focus by {
                if k < pt.len() {
                    assert(t[k] == pt[k]);
                }
            }
        }
        if im.len() > pi.len() {
            assert forall|i: int, j: int| 0 <= i < j < im.len() implies im[i].0 != im[j].0 by {
                if j == im.len() - 1 {
                    assert(im[i] == pi[i]);
                    assert(!image_seen(pi, im[j].0));
                } else {
                    assert(im[i] == pi[i] && im[j] == pi[j]);
                }
            }
        }
    }
}

fn find_node_exec(nodes: &Vec<GraphNode>, id: &Vec<char>) -> (r: Option<usize>)
    ensures
        match r {
            Some(i) => find_node(nodes@, id@) == Some(i as int) && i < nodes@.len(),
            None => find_node(nodes@, id@) is None,
        },
{
    let mut j: usize = nodes.len();
    assert(nodes@.take(j as int) =~= nodes@);
    while j > 0
        invariant
            j <= nodes@.len(),
            find_node(nodes@, id@) == find_node(nodes@.take(j as int), id@),
        decreases j,
    {
        let ghost pre = nodes@.take(j as int);
        assert(pre.drop_last() =~= nodes@.take(j as int - 1));
        assert(pre.last() == nodes@[j as int - 1]);
        let raw = chars_of(nodes[j - 1].id.as_str());
        let t = trim_chars(&raw);
        if t.len() > 0 && chars_eq(&raw, id) {
            return Some(j - 1);
        }
        j = j - 1;
    }
    None
}

fn edge_ok_exec(e: &GraphEdge) -> (r: bool)
    ensures
        r == edge_ok(*e),
{
    let s = trim_chars(&chars_of(e.source.as_str()));
    let t = trim_chars(&chars_of(e.target.as_str()));
    s.len() > 0 && t.len() > 0
}

fn is_literal(s: &String, lit: &str) -> (r: bool)
    ensures
        r == (s@ == lit@),
{
    chars_eq(&chars_of(s.as_str()), &chars_of(lit))
}

fn text_seen_exec(out: &Vec<UpstreamTextBlock>, id: &Vec<char>) -> (r: bool)
    ensures
        r == text_seen(text_views(out@), id@),
{
    let mut k: usize = 0;
    while k < out.len()
        invariant
            k <= out@.len(),
            forall|m: int| 0 <= m < k ==> text_views(out@)[m].0 != id@,
        decreases out@.len() - k,
    {
        if chars_eq(&chars_of(out[k].id.as_str()), id) {
            assert(text_views(out@)[k as int].0 == id@);
            return true;
        }
        k = k + 1;
    }
    false
}

fn image_seen_exec(out: &Vec<UpstreamImageBlock>, id: &Vec<char>) -> (r: bool)
    ensures
        r == image_seen(image_views(out@), id@),
{
    let mut k: usize = 0;
    while k < out.len()
        invariant
            k <= out@.len(),
            forall|m: int| 0 <= m < k ==> image_views(out@)[m].0 != id@,
        decreases out@.len() - k,
    {
        if chars_eq(&chars_of(out[k].id.as_str()), id) {
            assert(image_views(out@)[k as int].0 == id@);
            return true;
        }
        k = k + 1;
    }
    false
}

fn or_default_exec(s: Vec<char>, d: &str) -> (r: String)
    ensures
        r@ == or_default(s@, d@),
{
    if s.len() == 0 {
        string_of(&chars_of(d))
    } else {
        string_of(&s)
    }
}

/// Adds what one (sink, edge) pair contributes.
fn emit(
    nodes: &Vec<GraphNode>,
    focus: &Vec<char>,
    sink: &Vec<char>,
    e: &GraphEdge,
    text: &mut Vec<UpstreamTextBlock>,
    images: &mut Vec<UpstreamImageBlock>,
)
    ensures
        text_views(final(text)@) == text_step(nodes@, focus@, text_views(old(text)@), (sink@, *e)),
        image_views(final(images)@) == image_step(nodes@, image_views(old(images)@), (sink@, *e)),
{
    let src = chars_of(e.source.as_str());
    match find_node_exec(nodes, &src) {
        None => {},
        Some(i) => {
            let n = &nodes[i];
            let nid = chars_of(n.id.as_str());
            if is_literal(&n.node_type, "text") {
                proof {
                    reveal_strlit("text");
                    reveal_strlit("image");
                    assert("text"@[0] != "image"@[0]);
                }
                if !chars_eq(&nid, focus) && !text_seen_exec(text, &nid) {
                    let content = normalize_chars(&chars_of(n.content.as_str()));
                    if content.len() > 0 {
                        let label = normalize_chars(&chars_of(n.label.as_str()));
                        let b = UpstreamTextBlock {
                            id: n.id.clone(),
                            label: or_default_exec(label, "文本节点"),
                            text: string_of(&slice_chars(&content, 520)),
                            target: string_of(sink),
                        };
                        let ghost before = text_views(text@);
                        text.push(b);
                        assert(text_views(text@) =~= before.push(b@));
                    }
                }
            } else if is_literal(&n.node_type, "image") {
                if !image_seen_exec(images, &nid) {
                    let label = normalize_chars(&chars_of(n.label.as_str()));
                    let role = normalize_chars(&chars_of(e.image_role.as_str()));
                    let u = normalize_chars(&chars_of(n.url.as_str()));
                    let url = if starts_with_chars(&u, &chars_of("data:")) {
                        String::new()
                    } else {
                        string_of(&slice_chars(&u, 240))
                    };
                    let b = UpstreamImageBlock {
                        id: n.id.clone(),
                        label: or_default_exec(label, "参考图"),
                        role: or_default_exec(role, "input_reference"),
                        url: url,
                        target: string_of(sink),
                    };
                    let ghost before = image_views(images@);
                    images.push(b);
                    assert(image_views(images@) =~= before.push(b@));
                }
            }
        },
    }
}

fn empty_inputs() -> (r: UpstreamInputs)
    ensures
        r.text@.len() == 0,
        r.images@.len() == 0,
{
    UpstreamInputs { text: Vec::new(), images: Vec::new() }
}

/// Collects the text and image nodes that feed the config nodes which the
/// focus node points at. Each source id appears at most once per list, the
/// focus node is never its own text source, and the order is that of the
/// sinks, then of their incoming edges. An unknown or blank focus id gives
/// empty lists.
pub fn graph_collect_upstream_inputs(
    focus_node_id: String,
    nodes: Vec<GraphNode>,
    edges: Vec<GraphEdge>,
) -> (r: UpstreamInputs)
    ensures
        !focus_known(focus_node_id@, nodes@) ==> r.text@.len() == 0 && r.images@.len() == 0,
        focus_known(focus_node_id@, nodes@) ==> text_views(r.text@) == text_blocks(
            nodes@,
            trimmed(focus_node_id@),
            upstream_pairs(focus_node_id@, nodes@, edges@),
        ) && image_views(r.images@) == image_blocks(
            nodes@,
            upstream_pairs(focus_node_id@, nodes@, edges@),
        ),
{
    let focus = trim_chars(&chars_of(focus_node_id.as_str()));
    if focus.len() == 0 {
        return empty_inputs();
    }
    if find_node_exec(&nodes, &focus).is_none() {
        return empty_inputs();
    }
    let mut sink_ids: Vec<Vec<char>> = Vec::new();
    let mut i: usize = 0;
    assert(sink_ids@.map_values(|v: Vec<char>| v@) =~= sinks(nodes@, focus@, edges@.take(0)));
    while i < edges.len()
        invariant
            i <= edges@.len(),
            sink_ids@.map_values(|v: Vec<char>| v@) == sinks(nodes@, focus@, edges@.take(i as int)),
        decreases edges@.len() - i,
    {
        let ghost pre = edges@.take(i as int + 1);
        assert(pre.drop_last() =~= edges@.take(i as int));
        assert(pre.last() == edges@[i as int]);
        let e = &edges[i];
        if edge_ok_exec(e) {
            let src = chars_of(e.source.as_str());
            if chars_eq(&src, &focus) {
                let tgt = chars_of(e.target.as_str());
                match find_node_exec(&nodes, &tgt) {
                    Some(k) => {
                        if is_literal(&nodes[k].node_type, "imageConfig") || is_literal(
                            &nodes[k].node_type,
                            "videoConfig",
                        ) {
                            let ghost before = sink_ids@.map_values(|v: Vec<char>| v@);
                            sink_ids.push(tgt);
                            assert(sink_ids@.map_values(|v: Vec<char>| v@) =~= before.push(
                                e.target@,
                            ));
                        }
                    },
                    None => {},
                }
            }
        }
        i = i + 1;
    }
    assert(edges@.take(i as int) =~= edges@);
    let ghost sv = sink_ids@.map_values(|v: Vec<char>| v@);
    let mut text: Vec<UpstreamTextBlock> = Vec::new();
    let mut images: Vec<UpstreamImageBlock> = Vec::new();
    let ghost mut ps: Seq<(Seq<char>, GraphEdge)> = seq![];
    assert(sv.take(0) =~= Seq::<Seq<char>>::empty());
    assert(text_views(text@) =~= text_blocks(nodes@, focus@, ps));
    assert(image_views(images@) =~= image_blocks(nodes@, ps));
    let mut k: usize = 0;
    while k < sink_ids.len()
        invariant
            sv == sink_ids@.map_values(|v: Vec<char>| v@),
            k <= sink_ids@.len(),
            ps == feeds(sv.take(k as int), edges@),
            text_views(text@) == text_blocks(nodes@, focus@, ps),
            image_views(images@) == image_blocks(nodes@, ps),
        decreases sink_ids@.len() - k,
    {
        let sink = &sink_ids[k];
        assert(sv[k as int] == sink@);
        let ghost base = ps;
        let mut j: usize = 0;
        assert(base + incoming(sink@, edges@.take(0)) =~= base);
        while j < edges.len()
            invariant
                sv == sink_ids@.map_values(|v: Vec<char>| v@),
                k < sink_ids@.len(),
                sink@ == sv[k as int],
                j <= edges@.len(),
                ps == base + incoming(sink@, edges@.take(j as int)),
                text_views(text@) == text_blocks(nodes@, focus@, ps),
                image_views(images@) == image_blocks(nodes@, ps),
            decreases edges@.len() - j,
        {
            let ghost pre = edges@.take(j as int + 1);
            assert(pre.drop_last() =~= edges@.take(j as int));
            assert(pre.last() == edges@[j as int]);
            let e = &edges[j];
            if edge_ok_exec(e) && chars_eq(&chars_of(e.target.as_str()), sink) {
                emit(&nodes, &focus, sink, e, &mut text, &mut images);
                proof {
                    let np = ps.push((sink@, *e));
                    assert(np.drop_last() =~= ps);
                    ps = np;
                }
            }
            j = j + 1;
            assert(ps =~= base + incoming(sink@, edges@.take(j as int)));
        }
        assert(edges@.take(j as int) =~= edges@);
        assert(sv.take(k as int + 1).drop_last() =~= sv.take(k as int));
        k = k + 1;
    }
    assert(sv.take(k as int) =~= sv);
    UpstreamInputs { text, images }
}

} // verus!
