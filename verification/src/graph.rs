//! The graph of a project: its notes and their tags as nodes, and what connects them as edges.

use crate::records::{
    GraphData, GraphEdge, GraphNode, NoteLink, NoteWithTags, Project, StoreError, StoreResult,
};
use crate::storage::Storage;
use crate::tables::{sort_rows, Keyed};
use crate::text::{copy_opt, same, text_before};
use vstd::prelude::*;

verus! {

/// The model of a graph.
#[verifier::ext_equal]
pub struct GraphView {
    pub nodes: Seq<crate::records::GraphNodeView>,
    pub edges: Seq<crate::records::GraphEdgeView>,
}

impl View for GraphData {
    type V = GraphView;

    open spec fn view(&self) -> GraphView {
        GraphView {
            nodes: crate::records::views(self.nodes@),
            edges: crate::records::views(self.edges@),
        }
    }
}

// ---------------------------------------------------------------------------
// Nodes and edges
// ---------------------------------------------------------------------------

pub open spec fn project_node_id(id: Seq<char>) -> Seq<char> {
    "project:"@ + id
}

pub open spec fn note_node_id(id: Seq<char>) -> Seq<char> {
    "note:"@ + id
}

pub open spec fn tag_node_id(name: Seq<char>) -> Seq<char> {
    "tag:"@ + name
}

pub open spec fn project_node(p: crate::records::ProjectView) -> crate::records::GraphNodeView {
    crate::records::GraphNodeView {
        id: project_node_id(p.id),
        label: p.name,
        kind: "project"@,
    }
}

/// What a note is called in the graph: its title, or the name of its source.
pub open spec fn note_label(n: crate::records::NoteView) -> Seq<char> {
    if n.title.len() > 0 {
        n.title
    } else {
        match n.source_name {
            Some(s) => s,
            None => "(untitled)"@,
        }
    }
}

pub open spec fn note_node(n: crate::records::NoteWithTagsView) -> crate::records::GraphNodeView {
    crate::records::GraphNodeView {
        id: note_node_id(n.note.id),
        label: note_label(n.note),
        kind: "note"@,
    }
}

pub open spec fn tag_node(name: Seq<char>) -> crate::records::GraphNodeView {
    crate::records::GraphNodeView { id: tag_node_id(name), label: name, kind: "tag"@ }
}

/// An edge without a row of its own.
pub open spec fn plain_edge(source: Seq<char>, target: Seq<char>, kind: Seq<char>) -> crate::records::GraphEdgeView {
    crate::records::GraphEdgeView { source, target, kind, id: None, label: None }
}

/// Whether the note `id` is among `notes`.
pub open spec fn shows(notes: Seq<crate::records::NoteWithTagsView>, id: Seq<char>) -> bool {
    exists|i: int| 0 <= i < notes.len() && (#[trigger] notes[i]).note.id == id
}

/// Whether the parent of a note is among `notes`.
pub open spec fn has_shown_parent(
    notes: Seq<crate::records::NoteWithTagsView>,
    n: crate::records::NoteWithTagsView,
) -> bool {
    n.note.parent_id matches Some(p) && shows(notes, p)
}

/// The edge from the project to a note that has no parent in the graph.
pub open spec fn contains_edges(
    project_id: Seq<char>,
    notes: Seq<crate::records::NoteWithTagsView>,
    n: crate::records::NoteWithTagsView,
) -> Seq<crate::records::GraphEdgeView> {
    if has_shown_parent(notes, n) {
        Seq::empty()
    } else {
        seq![
            plain_edge(project_node_id(project_id), note_node_id(n.note.id), "contains"@),
        ]
    }
}

/// The edges from a note to its tags.
pub open spec fn tagged_edges(n: crate::records::NoteWithTagsView) -> Seq<
    crate::records::GraphEdgeView,
> {
    Seq::new(
        n.tags.len(),
        |i: int| plain_edge(note_node_id(n.note.id), tag_node_id(n.tags[i]), "tagged"@),
    )
}

/// The edges to the notes of `list` from the project, and from them to their tags.
pub open spec fn own_edges(
    project_id: Seq<char>,
    notes: Seq<crate::records::NoteWithTagsView>,
    list: Seq<crate::records::NoteWithTagsView>,
) -> Seq<crate::records::GraphEdgeView>
    decreases list.len(),
{
    if list.len() == 0 {
        Seq::empty()
    } else {
        own_edges(project_id, notes, list.drop_last()) + contains_edges(
            project_id,
            notes,
            list.last(),
        ) + tagged_edges(list.last())
    }
}

/// `list` with the texts of `more` that are not in it yet.
pub open spec fn joined_in(list: Seq<Seq<char>>, more: Seq<Seq<char>>) -> Seq<Seq<char>>
    decreases more.len(),
{
    if more.len() == 0 {
        list
    } else {
        let head = joined_in(list, more.drop_last());
        if head.contains(more.last()) {
            head
        } else {
            head.push(more.last())
        }
    }
}

/// The tags of the notes of `list`, each once.
pub open spec fn tags_of(list: Seq<crate::records::NoteWithTagsView>) -> Seq<Seq<char>>
    decreases list.len(),
{
    if list.len() == 0 {
        Seq::empty()
    } else {
        joined_in(tags_of(list.drop_last()), list.last().tags)
    }
}

/// The edge of a link.
pub open spec fn link_edge(l: crate::records::NoteLinkView) -> crate::records::GraphEdgeView {
    crate::records::GraphEdgeView {
        source: note_node_id(l.from_note_id),
        target: note_node_id(l.to_note_id),
        kind: "link"@,
        id: Some(l.id),
        label: l.label,
    }
}

/// The edges of the links between notes of the graph.
pub open spec fn link_edges(
    notes: Seq<crate::records::NoteWithTagsView>,
    links: Seq<crate::records::NoteLinkView>,
) -> Seq<crate::records::GraphEdgeView>
    decreases links.len(),
{
    if links.len() == 0 {
        Seq::empty()
    } else {
        let head = link_edges(notes, links.drop_last());
        let l = links.last();
        if shows(notes, l.from_note_id) && shows(notes, l.to_note_id) {
            head.push(link_edge(l))
        } else {
            head
        }
    }
}

/// The edges from parents to the notes of `list`.
pub open spec fn parent_edges(
    notes: Seq<crate::records::NoteWithTagsView>,
    list: Seq<crate::records::NoteWithTagsView>,
) -> Seq<crate::records::GraphEdgeView>
    decreases list.len(),
{
    if list.len() == 0 {
        Seq::empty()
    } else {
        let head = parent_edges(notes, list.drop_last());
        let n = list.last();
        if has_shown_parent(notes, n) {
            head.push(
                plain_edge(
                    note_node_id(n.note.parent_id->0),
                    note_node_id(n.note.id),
                    "parent"@,
                ),
            )
        } else {
            head
        }
    }
}

/// The graph of a project with the given notes and links.
pub open spec fn graph_of(
    p: crate::records::ProjectView,
    notes: Seq<crate::records::NoteWithTagsView>,
    links: Seq<crate::records::NoteLinkView>,
) -> GraphView {
    let tags = crate::tables::sorted_by(tags_of(notes), crate::storage::by_text());
    GraphView {
        nodes: seq![project_node(p)] + notes.map_values(
            |n: crate::records::NoteWithTagsView| note_node(n),
        ) + tags.map_values(|t: Seq<char>| tag_node(t)),
        edges: own_edges(p.id, notes, notes) + link_edges(notes, links) + parent_edges(
            notes,
            notes,
        ),
    }
}

/// The graph of a project of the store.
pub open spec fn project_graph(v: crate::schema::StorageView, project_id: Seq<char>) -> Result<
    GraphView,
    Seq<char>,
> {
    match crate::tables::row_of(v.projects, project_id) {
        None => Err("project not found"@),
        Some(p) => Ok(
            graph_of(
                p,
                crate::storage::listed_notes(v, project_id),
                crate::storage::listed_links(v, project_id),
            ),
        ),
    }
}

// ---------------------------------------------------------------------------
// Building it
// ---------------------------------------------------------------------------

fn prefixed(prefix: &str, id: &str) -> (r: String)
    ensures
        r@ == prefix@ + id@,
{
    let mut out = prefix.to_owned();
    out.append(id);
    out
}

fn edge(source: String, target: String, kind: &str) -> (r: GraphEdge)
    ensures
        r@ == plain_edge(source@, target@, kind@),
{
    GraphEdge { source, target, kind: kind.to_owned(), id: None, label: None }
}

fn shows_note(notes: &Vec<NoteWithTags>, id: &str) -> (r: bool)
    ensures
        r == shows(crate::records::views(notes@), id@),
{
    let ghost all = crate::records::views(notes@);
    let mut i: usize = 0;
    while i < notes.len()
        invariant
            i <= notes@.len(),
            all == crate::records::views(notes@),
            forall|j: int| 0 <= j < i ==> (#[trigger] all[j]).note.id != id@,
        decreases notes.len() - i,
    {
        assert(all[i as int] == notes@[i as int]@);
        if same(notes[i].note.id.as_str(), id) {
            return true;
        }
        i = i + 1;
    }
    false
}

fn shows_parent(notes: &Vec<NoteWithTags>, n: &NoteWithTags) -> (r: bool)
    ensures
        r == has_shown_parent(crate::records::views(notes@), n@),
{
    match &n.note.parent_id {
        Some(p) => shows_note(notes, p.as_str()),
        None => false,
    }
}

fn node_of_note(n: &NoteWithTags) -> (r: GraphNode)
    ensures
        r@ == note_node(n@),
{
    let label = if n.note.title.as_str().is_empty() {
        match &n.note.source_name {
            Some(s) => s.clone(),
            None => "(untitled)".to_owned(),
        }
    } else {
        n.note.title.clone()
    };
    GraphNode { id: prefixed("note:", n.note.id.as_str()), label, kind: "note".to_owned() }
}

fn contains_text(list: &Vec<String>, t: &str) -> (r: bool)
    ensures
        r == crate::records::views(list@).contains(t@),
{
    let ghost all = crate::records::views(list@);
    let mut i: usize = 0;
    while i < list.len()
        invariant
            i <= list@.len(),
            all == crate::records::views(list@),
            forall|j: int| 0 <= j < i ==> #[trigger] all[j] != t@,
        decreases list.len() - i,
    {
        assert(all[i as int] == list@[i as int]@);
        if same(list[i].as_str(), t) {
            return true;
        }
        i = i + 1;
    }
    false
}

fn edges_of_note(
    project_id: &str,
    notes: &Vec<NoteWithTags>,
    n: &NoteWithTags,
    edges: &mut Vec<GraphEdge>,
    tags: &mut Vec<String>,
)
    ensures
        crate::records::views(final(edges)@) == crate::records::views(old(edges)@)
            + contains_edges(project_id@, crate::records::views(notes@), n@) + tagged_edges(n@),
        crate::records::views(final(tags)@) == joined_in(
            crate::records::views(old(tags)@),
            n@.tags,
        ),
{
    let ghost before = crate::records::views(edges@);
    let ghost tags_before = crate::records::views(tags@);
    let ghost shown = crate::records::views(notes@);
    if !shows_parent(notes, n) {
        edges.push(
            edge(
                prefixed("project:", project_id),
                prefixed("note:", n.note.id.as_str()),
                "contains",
            ),
        );
        assert(crate::records::views(edges@) =~= before + contains_edges(
            project_id@,
            shown,
            n@,
        ));
    } else {
        assert(crate::records::views(edges@) =~= before + contains_edges(
            project_id@,
            shown,
            n@,
        ));
    }
    let ghost base = crate::records::views(edges@);
    let mut i: usize = 0;
    assert(base + tagged_edges(n@).take(0) =~= base);
    assert(joined_in(tags_before, n@.tags.take(0)) =~= tags_before);
    while i < n.tags.len()
        invariant
            i <= n.tags@.len(),
            n@.tags == crate::text::texts(n.tags@),
            crate::records::views(edges@) == base + tagged_edges(n@).take(i as int),
            crate::records::views(tags@) == joined_in(tags_before, n@.tags.take(i as int)),
        decreases n.tags.len() - i,
    {
        let ghost e = crate::records::views(edges@);
        let ghost t = crate::records::views(tags@);
        proof {
            assert(n@.tags[i as int] == n.tags@[i as int]@);
            assert(n@.tags.take(i + 1).drop_last() =~= n@.tags.take(i as int));
            assert(n@.tags.take(i + 1).last() == n.tags@[i as int]@);
            assert(tagged_edges(n@).take(i + 1) =~= tagged_edges(n@).take(i as int).push(
                tagged_edges(n@)[i as int],
            ));
        }
        let new_edge = edge(
            prefixed("note:", n.note.id.as_str()),
            prefixed("tag:", n.tags[i].as_str()),
            "tagged",
        );
        let ghost added = new_edge@;
        edges.push(new_edge);
        assert(crate::records::views(edges@) =~= e.push(added));
        assert(e.push(added) =~= base + tagged_edges(n@).take(i + 1));
        if !contains_text(tags, n.tags[i].as_str()) {
            tags.push(n.tags[i].clone());
            assert(crate::records::views(tags@) =~= t.push(n.tags@[i as int]@));
        }
        i = i + 1;
    }
    assert(n@.tags.take(n@.tags.len() as int) =~= n@.tags);
    assert(tagged_edges(n@).take(tagged_edges(n@).len() as int) =~= tagged_edges(n@));
}

fn add_link_edges(notes: &Vec<NoteWithTags>, links: &Vec<NoteLink>, edges: &mut Vec<GraphEdge>)
    ensures
        crate::records::views(final(edges)@) == crate::records::views(old(edges)@) + link_edges(
            crate::records::views(notes@),
            crate::records::views(links@),
        ),
{
    let ghost base = crate::records::views(edges@);
    let ghost shown = crate::records::views(notes@);
    let ghost all = crate::records::views(links@);
    let mut i: usize = 0;
    assert(base + link_edges(shown, all.take(0)) =~= base);
    while i < links.len()
        invariant
            i <= links@.len(),
            shown == crate::records::views(notes@),
            all == crate::records::views(links@),
            crate::records::views(edges@) == base + link_edges(shown, all.take(i as int)),
        decreases links.len() - i,
    {
        let ghost e = crate::records::views(edges@);
        proof {
            assert(all.take(i + 1).drop_last() =~= all.take(i as int));
            assert(all.take(i + 1).last() == links@[i as int]@);
        }
        if shows_note(notes, links[i].from_note_id.as_str()) && shows_note(
            notes,
            links[i].to_note_id.as_str(),
        ) {
            let new_edge = GraphEdge {
                source: prefixed("note:", links[i].from_note_id.as_str()),
                target: prefixed("note:", links[i].to_note_id.as_str()),
                kind: "link".to_owned(),
                id: Some(links[i].id.clone()),
                label: copy_opt(&links[i].label),
            };
            let ghost added = new_edge@;
            edges.push(new_edge);
            assert(crate::records::views(edges@) =~= e.push(added));
            assert(e.push(added) =~= base + link_edges(shown, all.take(i + 1)));
        }
        i = i + 1;
    }
    assert(all.take(all.len() as int) =~= all);
}

fn add_parent_edges(notes: &Vec<NoteWithTags>, edges: &mut Vec<GraphEdge>)
    ensures
        crate::records::views(final(edges)@) == crate::records::views(old(edges)@) + parent_edges(
            crate::records::views(notes@),
            crate::records::views(notes@),
        ),
{
    let ghost base = crate::records::views(edges@);
    let ghost all = crate::records::views(notes@);
    let mut i: usize = 0;
    assert(base + parent_edges(all, all.take(0)) =~= base);
    while i < notes.len()
        invariant
            i <= notes@.len(),
            all == crate::records::views(notes@),
            crate::records::views(edges@) == base + parent_edges(all, all.take(i as int)),
        decreases notes.len() - i,
    {
        let ghost e = crate::records::views(edges@);
        proof {
            assert(all.take(i + 1).drop_last() =~= all.take(i as int));
            assert(all.take(i + 1).last() == notes@[i as int]@);
        }
        if let Some(p) = &notes[i].note.parent_id {
            if shows_note(notes, p.as_str()) {
                let new_edge = edge(
                    prefixed("note:", p.as_str()),
                    prefixed("note:", notes[i].note.id.as_str()),
                    "parent",
                );
                let ghost added = new_edge@;
                edges.push(new_edge);
                assert(crate::records::views(edges@) =~= e.push(added));
                assert(e.push(added) =~= base + parent_edges(all, all.take(i + 1)));
            }
        }
        i = i + 1;
    }
    assert(all.take(all.len() as int) =~= all);
}

/// The graph of a project with the given notes and links.
pub fn build_graph(project: &Project, notes: &Vec<NoteWithTags>, links: &Vec<NoteLink>) -> (r:
    GraphData)
    ensures
        r@ == graph_of(
            project@,
            crate::records::views(notes@),
            crate::records::views(links@),
        ),
{
    let ghost all = crate::records::views(notes@);
    let ghost lv = crate::records::views(links@);
    let mut nodes: Vec<GraphNode> = Vec::new();
    nodes.push(
        GraphNode {
            id: prefixed("project:", project.id.as_str()),
            label: project.name.clone(),
            kind: "project".to_owned(),
        },
    );
    let mut edges: Vec<GraphEdge> = Vec::new();
    let mut tags: Vec<String> = Vec::new();
    let mut i: usize = 0;
    let ghost first = seq![project_node(project@)];
    let ghost note_nodes = all.map_values(|n: crate::records::NoteWithTagsView| note_node(n));
    proof {
        assert(crate::records::views(nodes@) =~= first + note_nodes.take(0));
        assert(crate::records::views(edges@) =~= own_edges(project.id@, all, all.take(0)));
        assert(crate::records::views(tags@) =~= tags_of(all.take(0)));
    }
    while i < notes.len()
        invariant
            i <= notes@.len(),
            all == crate::records::views(notes@),
            first == seq![project_node(project@)],
            note_nodes == all.map_values(
                |n: crate::records::NoteWithTagsView| note_node(n),
            ),
            crate::records::views(nodes@) == first + note_nodes.take(i as int),
            crate::records::views(edges@) == own_edges(project.id@, all, all.take(i as int)),
            crate::records::views(tags@) == tags_of(all.take(i as int)),
        decreases notes.len() - i,
    {
        let ghost before = crate::records::views(nodes@);
        proof {
            assert(all[i as int] == notes@[i as int]@);
            assert(all.take(i + 1).drop_last() =~= all.take(i as int));
            assert(all.take(i + 1).last() == notes@[i as int]@);
        }
        let node = node_of_note(&notes[i]);
        let ghost added = node@;
        nodes.push(node);
        assert(crate::records::views(nodes@) =~= before.push(added));
        assert(note_nodes[i as int] == added);
        assert(before.push(added) =~= first + note_nodes.take(i + 1));
        edges_of_note(project.id.as_str(), notes, &notes[i], &mut edges, &mut tags);
        i = i + 1;
    }
    proof {
        assert(all.take(all.len() as int) =~= all);
        assert(note_nodes.take(note_nodes.len() as int) =~= note_nodes);
    }
    let before = |a: &String, b: &String| -> (x: bool)
        ensures
            x == crate::storage::by_text()(a@, b@),
    { text_before(a.as_str(), b.as_str()) };
    let sorted = sort_rows(tags, before, Ghost(crate::storage::by_text()));
    let ghost names = crate::records::views(sorted@);
    let ghost tag_nodes = names.map_values(|t: Seq<char>| tag_node(t));
    let ghost base = crate::records::views(nodes@);
    let mut k: usize = 0;
    assert(base + tag_nodes.take(0) =~= base);
    while k < sorted.len()
        invariant
            k <= sorted@.len(),
            names == crate::records::views(sorted@),
            tag_nodes == names.map_values(|t: Seq<char>| tag_node(t)),
            crate::records::views(nodes@) == base + tag_nodes.take(k as int),
        decreases sorted.len() - k,
    {
        let ghost now = crate::records::views(nodes@);
        assert(names[k as int] == sorted@[k as int]@);
        let node = GraphNode {
            id: prefixed("tag:", sorted[k].as_str()),
            label: sorted[k].clone(),
            kind: "tag".to_owned(),
        };
        let ghost added = node@;
        nodes.push(node);
        assert(crate::records::views(nodes@) =~= now.push(added));
        assert(tag_nodes[k as int] == added);
        assert(now.push(added) =~= base + tag_nodes.take(k + 1));
        k = k + 1;
    }
    assert(tag_nodes.take(tag_nodes.len() as int) =~= tag_nodes);
    add_link_edges(notes, links, &mut edges);
    add_parent_edges(notes, &mut edges);
    let r = GraphData { nodes, edges };
    assert(r@ =~= graph_of(project@, all, lv));
    r
}

impl Storage {
    /// The graph of a project.
    pub fn graph(&self, project_id: &str) -> (r: StoreResult<GraphData>)
        ensures
            crate::storage::store_view(r) == project_graph(self@, project_id@),
    {
        match self.get_project(project_id) {
            Ok(Some(project)) => match self.list_notes(project_id) {
                Ok(notes) => match self.list_note_links(project_id) {
                    Ok(links) => Ok(build_graph(&project, &notes, &links)),
                    Err(e) => Err(e),
                },
                Err(e) => Err(e),
            },
            Ok(None) => Err(StoreError::new("project not found")),
            Err(e) => Err(e),
        }
    }
}

// ---------------------------------------------------------------------------
// What holds of every graph
// ---------------------------------------------------------------------------

/// Whether a node of the graph has the identifier `id`.
pub open spec fn is_node(g: GraphView, id: Seq<char>) -> bool {
    exists|i: int| 0 <= i < g.nodes.len() && (#[trigger] g.nodes[i]).id == id
}

/// Whether both ends of an edge are nodes.
pub open spec fn joins_nodes(g: GraphView, e: crate::records::GraphEdgeView) -> bool {
    is_node(g, e.source) && is_node(g, e.target)
}

proof fn lemma_joined_in(list: Seq<Seq<char>>, more: Seq<Seq<char>>)
    ensures
        forall|t: Seq<char>| #[trigger]
            joined_in(list, more).contains(t) <==> list.contains(t) || more.contains(t),
    decreases more.len(),
{
    if more.len() > 0 {
        let head = more.drop_last();
        let last = more.last();
        lemma_joined_in(list, head);
        let inner = joined_in(list, head);
        let all = joined_in(list, more);
        assert(more =~= head.push(last));
        assert forall|t: Seq<char>| #[trigger] all.contains(t) <==> list.contains(t)
            || more.contains(t) by {
            if head.contains(t) {
                let i = choose|i: int| 0 <= i < head.len() && head[i] == t;
                assert(more[i] == t);
            }
            if more.contains(t) {
                let i = choose|i: int| 0 <= i < more.len() && more[i] == t;
                if i < head.len() {
                    assert(head[i] == t);
                }
            }
            assert(more[more.len() - 1] == last);
            if !inner.contains(last) {
                if inner.contains(t) {
                    let i = choose|i: int| 0 <= i < inner.len() && inner[i] == t;
                    assert(all[i] == t);
                }
                if t == last {
                    assert(all[inner.len() as int] == t);
                }
                if all.contains(t) {
                    let i = choose|i: int| 0 <= i < all.len() && all[i] == t;
                    if i < inner.len() {
                        assert(inner[i] == t);
                    }
                }
            }
        }
    } else {
        assert forall|t: Seq<char>| #[trigger] joined_in(list, more).contains(t)
            <==> list.contains(t) || more.contains(t) by {}
    }
}

proof fn lemma_tags_of(list: Seq<crate::records::NoteWithTagsView>, i: int)
    requires
        0 <= i < list.len(),
    ensures
        forall|t: Seq<char>| list[i].tags.contains(t) ==> #[trigger] tags_of(list).contains(t),
    decreases list.len(),
{
    lemma_joined_in(tags_of(list.drop_last()), list.last().tags);
    if i < list.len() - 1 {
        lemma_tags_of(list.drop_last(), i);
        assert(list.drop_last()[i] == list[i]);
    }
}

/// The nodes of a graph: the project, each note and each tag of a note.
proof fn lemma_nodes(
    p: crate::records::ProjectView,
    notes: Seq<crate::records::NoteWithTagsView>,
    links: Seq<crate::records::NoteLinkView>,
)
    ensures
        is_node(graph_of(p, notes, links), project_node_id(p.id)),
        forall|i: int|
            0 <= i < notes.len() ==> is_node(
                graph_of(p, notes, links),
                note_node_id((#[trigger] notes[i]).note.id),
            ),
        forall|id: Seq<char>|
            shows(notes, id) ==> #[trigger] is_node(graph_of(p, notes, links), note_node_id(id)),
        forall|i: int, k: int|
            0 <= i < notes.len() && 0 <= k < notes[i].tags.len() ==> is_node(
                graph_of(p, notes, links),
                tag_node_id(#[trigger] notes[i].tags[k]),
            ),
{
    let g = graph_of(p, notes, links);
    let f = |n: crate::records::NoteWithTagsView| note_node(n);
    let h = |t: Seq<char>| tag_node(t);
    let names = tags_of(notes);
    let sorted = crate::tables::sorted_by(names, crate::storage::by_text());
    assert(g.nodes[0] == project_node(p));
    assert forall|i: int| 0 <= i < notes.len() implies is_node(
        g,
        note_node_id((#[trigger] notes[i]).note.id),
    ) by {
        assert(notes.map_values(f)[i] == note_node(notes[i]));
        assert(g.nodes[i + 1] == note_node(notes[i]));
    }
    assert forall|id: Seq<char>| shows(notes, id) implies #[trigger] is_node(
        g,
        note_node_id(id),
    ) by {
        let i = choose|i: int| 0 <= i < notes.len() && (#[trigger] notes[i]).note.id == id;
        assert(is_node(g, note_node_id(notes[i].note.id)));
    }
    crate::storage::lemma_by_text_is_order();
    crate::tables::lemma_sorted_contains(names, crate::storage::by_text());
    assert forall|i: int, k: int|
        0 <= i < notes.len() && 0 <= k < notes[i].tags.len() implies is_node(
        g,
        tag_node_id(#[trigger] notes[i].tags[k]),
    ) by {
        let t = notes[i].tags[k];
        lemma_tags_of(notes, i);
        assert(notes[i].tags.contains(t));
        assert(names.contains(t));
        assert(sorted.contains(t));
        let j = choose|j: int| 0 <= j < sorted.len() && sorted[j] == t;
        assert(sorted.map_values(h)[j] == tag_node(t));
        assert(g.nodes[1 + notes.len() + j] == tag_node(t));
    }
}

proof fn lemma_own_edges(
    p: crate::records::ProjectView,
    notes: Seq<crate::records::NoteWithTagsView>,
    links: Seq<crate::records::NoteLinkView>,
    n: int,
)
    requires
        0 <= n <= notes.len(),
    ensures
        forall|i: int|
            0 <= i < own_edges(p.id, notes, notes.take(n)).len() ==> joins_nodes(
                graph_of(p, notes, links),
                #[trigger] own_edges(p.id, notes, notes.take(n))[i],
            ),
    decreases n,
{
    if n > 0 {
        let g = graph_of(p, notes, links);
        let list = notes.take(n);
        let last = list.last();
        assert(list.drop_last() =~= notes.take(n - 1));
        assert(last == notes[n - 1]);
        lemma_own_edges(p, notes, links, n - 1);
        lemma_nodes(p, notes, links);
        let a = own_edges(p.id, notes, list.drop_last());
        let b = contains_edges(p.id, notes, last);
        let c = tagged_edges(last);
        let all = own_edges(p.id, notes, list);
        assert forall|i: int| 0 <= i < all.len() implies joins_nodes(g, #[trigger] all[i]) by {
            if i < a.len() {
                assert(all[i] == a[i]);
            } else if i < a.len() + b.len() {
                assert(all[i] == b[i - a.len()]);
                assert(is_node(g, note_node_id(notes[n - 1].note.id)));
            } else {
                let k = i - a.len() - b.len();
                assert(all[i] == c[k]);
                assert(is_node(g, tag_node_id(notes[n - 1].tags[k])));
                assert(is_node(g, note_node_id(notes[n - 1].note.id)));
            }
        }
    }
}

proof fn lemma_link_edges(
    p: crate::records::ProjectView,
    notes: Seq<crate::records::NoteWithTagsView>,
    links: Seq<crate::records::NoteLinkView>,
    n: int,
)
    requires
        0 <= n <= links.len(),
    ensures
        forall|i: int|
            0 <= i < link_edges(notes, links.take(n)).len() ==> joins_nodes(
                graph_of(p, notes, links),
                #[trigger] link_edges(notes, links.take(n))[i],
            ),
    decreases n,
{
    if n > 0 {
        let g = graph_of(p, notes, links);
        let list = links.take(n);
        assert(list.drop_last() =~= links.take(n - 1));
        lemma_link_edges(p, notes, links, n - 1);
        lemma_nodes(p, notes, links);
        let head = link_edges(notes, list.drop_last());
        let all = link_edges(notes, list);
        assert forall|i: int| 0 <= i < all.len() implies joins_nodes(g, #[trigger] all[i]) by {
            if i < head.len() {
                assert(all[i] == head[i]);
            } else {
                assert(is_node(g, note_node_id(list.last().from_note_id)));
                assert(is_node(g, note_node_id(list.last().to_note_id)));
            }
        }
    }
}

proof fn lemma_parent_edges(
    p: crate::records::ProjectView,
    notes: Seq<crate::records::NoteWithTagsView>,
    links: Seq<crate::records::NoteLinkView>,
    n: int,
)
    requires
        0 <= n <= notes.len(),
    ensures
        forall|i: int|
            0 <= i < parent_edges(notes, notes.take(n)).len() ==> joins_nodes(
                graph_of(p, notes, links),
                #[trigger] parent_edges(notes, notes.take(n))[i],
            ),
        forall|k: int|
            0 <= k < n && has_shown_parent(notes, #[trigger] notes[k]) ==> parent_edges(
                notes,
                notes.take(n),
            ).contains(
                plain_edge(
                    note_node_id(notes[k].note.parent_id->0),
                    note_node_id(notes[k].note.id),
                    "parent"@,
                ),
            ),
    decreases n,
{
    if n > 0 {
        let g = graph_of(p, notes, links);
        let list = notes.take(n);
        assert(list.drop_last() =~= notes.take(n - 1));
        assert(list.last() == notes[n - 1]);
        lemma_parent_edges(p, notes, links, n - 1);
        lemma_nodes(p, notes, links);
        let head = parent_edges(notes, list.drop_last());
        let all = parent_edges(notes, list);
        assert forall|i: int| 0 <= i < all.len() implies joins_nodes(g, #[trigger] all[i]) by {
            if i < head.len() {
                assert(all[i] == head[i]);
            } else {
                assert(is_node(g, note_node_id(notes[n - 1].note.id)));
                assert(is_node(g, note_node_id(notes[n - 1].note.parent_id->0)));
            }
        }
        assert forall|k: int|
            0 <= k < n && has_shown_parent(notes, #[trigger] notes[k]) implies all.contains(
            plain_edge(
                note_node_id(notes[k].note.parent_id->0),
                note_node_id(notes[k].note.id),
                "parent"@,
            ),
        ) by {
            let e = plain_edge(
                note_node_id(notes[k].note.parent_id->0),
                note_node_id(notes[k].note.id),
                "parent"@,
            );
            if k < n - 1 {
                assert(head.contains(e));
                let i = choose|i: int| 0 <= i < head.len() && head[i] == e;
                assert(all[i] == e);
            } else {
                assert(all[head.len() as int] == e);
            }
        }
    }
}

proof fn lemma_contains_edge(
    project_id: Seq<char>,
    notes: Seq<crate::records::NoteWithTagsView>,
    n: int,
    k: int,
)
    requires
        0 <= k < n <= notes.len(),
        !has_shown_parent(notes, notes[k]),
    ensures
        own_edges(project_id, notes, notes.take(n)).contains(
            plain_edge(
                project_node_id(project_id),
                note_node_id(notes[k].note.id),
                "contains"@,
            ),
        ),
    decreases n,
{
    let e = plain_edge(
        project_node_id(project_id),
        note_node_id(notes[k].note.id),
        "contains"@,
    );
    let list = notes.take(n);
    assert(list.drop_last() =~= notes.take(n - 1));
    assert(list.last() == notes[n - 1]);
    let a = own_edges(project_id, notes, list.drop_last());
    let all = own_edges(project_id, notes, list);
    if k < n - 1 {
        lemma_contains_edge(project_id, notes, n - 1, k);
        let i = choose|i: int| 0 <= i < a.len() && a[i] == e;
        assert(all[i] == e);
    } else {
        assert(contains_edges(project_id, notes, list.last())[0] == e);
        assert(all[a.len() as int] == e);
    }
}

/// Every edge joins two nodes of the graph.
pub proof fn law_edges_join_nodes(
    p: crate::records::ProjectView,
    notes: Seq<crate::records::NoteWithTagsView>,
    links: Seq<crate::records::NoteLinkView>,
)
    ensures
        forall|i: int|
            0 <= i < graph_of(p, notes, links).edges.len() ==> joins_nodes(
                graph_of(p, notes, links),
                #[trigger] graph_of(p, notes, links).edges[i],
            ),
{
    let g = graph_of(p, notes, links);
    lemma_own_edges(p, notes, links, notes.len() as int);
    lemma_link_edges(p, notes, links, links.len() as int);
    lemma_parent_edges(p, notes, links, notes.len() as int);
    assert(notes.take(notes.len() as int) =~= notes);
    assert(links.take(links.len() as int) =~= links);
    let a = own_edges(p.id, notes, notes);
    let b = link_edges(notes, links);
    let c = parent_edges(notes, notes);
    assert forall|i: int| 0 <= i < g.edges.len() implies joins_nodes(g, #[trigger] g.edges[i]) by {
        if i < a.len() {
            assert(g.edges[i] == a[i]);
        } else if i < a.len() + b.len() {
            assert(g.edges[i] == b[i - a.len()]);
        } else {
            assert(g.edges[i] == c[i - a.len() - b.len()]);
        }
    }
}

/// No note stands apart: an edge leads to it from the project, or from its parent in the graph.
pub proof fn law_every_note_is_connected(
    p: crate::records::ProjectView,
    notes: Seq<crate::records::NoteWithTagsView>,
    links: Seq<crate::records::NoteLinkView>,
    k: int,
)
    requires
        0 <= k < notes.len(),
    ensures
        graph_of(p, notes, links).edges.contains(
            if has_shown_parent(notes, notes[k]) {
                plain_edge(
                    note_node_id(notes[k].note.parent_id->0),
                    note_node_id(notes[k].note.id),
                    "parent"@,
                )
            } else {
                plain_edge(project_node_id(p.id), note_node_id(notes[k].note.id), "contains"@)
            },
        ),
{
    let g = graph_of(p, notes, links);
    let n = notes.len() as int;
    assert(notes.take(n) =~= notes);
    let a = own_edges(p.id, notes, notes);
    let b = link_edges(notes, links);
    let c = parent_edges(notes, notes);
    if has_shown_parent(notes, notes[k]) {
        lemma_parent_edges(p, notes, links, n);
        let e = plain_edge(
            note_node_id(notes[k].note.parent_id->0),
            note_node_id(notes[k].note.id),
            "parent"@,
        );
        assert(c.contains(e));
        let i = choose|i: int| 0 <= i < c.len() && c[i] == e;
        assert(g.edges[a.len() + b.len() + i] == e);
    } else {
        lemma_contains_edge(p.id, notes, n, k);
        let e = plain_edge(project_node_id(p.id), note_node_id(notes[k].note.id), "contains"@);
        let i = choose|i: int| 0 <= i < a.len() && a[i] == e;
        assert(g.edges[i] == e);
    }
}

// ---------------------------------------------------------------------------
// What is once in the graph
// ---------------------------------------------------------------------------

/// Whether no two of the notes have one identifier.
pub open spec fn distinct_notes(notes: Seq<crate::records::NoteWithTagsView>) -> bool {
    forall|i: int, j: int|
        0 <= i < j < notes.len() ==> (#[trigger] notes[i]).note.id != (#[trigger] notes[j]).note.id
}

proof fn lemma_same_after_prefix(p: Seq<char>, x: Seq<char>, y: Seq<char>)
    requires
        p + x == p + y,
    ensures
        x == y,
{
    assert((p + x).skip(p.len() as int) =~= x);
    assert((p + y).skip(p.len() as int) =~= y);
}

proof fn lemma_joined_in_once(list: Seq<Seq<char>>, more: Seq<Seq<char>>)
    requires
        list.no_duplicates(),
    ensures
        joined_in(list, more).no_duplicates(),
    decreases more.len(),
{
    if more.len() > 0 {
        lemma_joined_in_once(list, more.drop_last());
        let head = joined_in(list, more.drop_last());
        if !head.contains(more.last()) {
            let all = head.push(more.last());
            assert forall|i: int, j: int|
                0 <= i < all.len() && 0 <= j < all.len() && i != j implies all[i] != all[j] by {
                if i < head.len() {
                    assert(head.contains(head[i]));
                }
                if j < head.len() {
                    assert(head.contains(head[j]));
                }
            }
        }
    }
}

proof fn lemma_tags_once(list: Seq<crate::records::NoteWithTagsView>)
    ensures
        tags_of(list).no_duplicates(),
    decreases list.len(),
{
    if list.len() > 0 {
        lemma_tags_once(list.drop_last());
        lemma_joined_in_once(tags_of(list.drop_last()), list.last().tags);
    }
}

/// No two nodes have one identifier: the project, each note and each tag is one node.
pub proof fn law_node_ids_are_distinct(
    p: crate::records::ProjectView,
    notes: Seq<crate::records::NoteWithTagsView>,
    links: Seq<crate::records::NoteLinkView>,
)
    requires
        distinct_notes(notes),
    ensures
        forall|i: int, j: int|
            0 <= i < j < graph_of(p, notes, links).nodes.len() ==> (#[trigger] graph_of(
                p,
                notes,
                links,
            ).nodes[i]).id != (#[trigger] graph_of(p, notes, links).nodes[j]).id,
{
    let nodes = graph_of(p, notes, links).nodes;
    let le = crate::storage::by_text();
    let found = tags_of(notes);
    let tags = crate::tables::sorted_by(found, le);
    lemma_tags_once(notes);
    crate::storage::lemma_by_text_is_order();
    crate::tables::lemma_sorted_by(found, le);
    found.lemma_multiset_has_no_duplicates();
    tags.lemma_multiset_has_no_duplicates_conv();
    reveal_strlit("project:");
    reveal_strlit("note:");
    reveal_strlit("tag:");
    let n = notes.len() as int;
    assert forall|i: int| 0 <= i < nodes.len() implies (#[trigger] nodes[i]).id == if i == 0 {
        project_node_id(p.id)
    } else if i <= n {
        note_node_id(notes[i - 1].note.id)
    } else {
        tag_node_id(tags[i - 1 - n])
    } by {}
    assert forall|i: int, j: int| 0 <= i < j < nodes.len() implies (#[trigger] nodes[i]).id != (
    #[trigger] nodes[j]).id by {
        if nodes[i].id == nodes[j].id {
            assert(nodes[i].id[0] == nodes[j].id[0]);
            if i > 0 && j <= n {
                lemma_same_after_prefix(
                    "note:"@,
                    notes[i - 1].note.id,
                    notes[j - 1].note.id,
                );
            } else if i > n {
                lemma_same_after_prefix("tag:"@, tags[i - 1 - n], tags[j - 1 - n]);
            }
        }
    }
}

/// Whether an edge puts a note in its place: under the project or under another note.
pub open spec fn is_way_in(e: crate::records::GraphEdgeView, id: Seq<char>) -> bool {
    e.target == note_node_id(id) && (e.kind == "contains"@ || e.kind == "parent"@)
}

/// The edge that puts a note in its place: from its parent where that is in the graph, else from the
/// project.
pub open spec fn way_in(
    project_id: Seq<char>,
    notes: Seq<crate::records::NoteWithTagsView>,
    n: crate::records::NoteWithTagsView,
) -> crate::records::GraphEdgeView {
    if has_shown_parent(notes, n) {
        plain_edge(note_node_id(n.note.parent_id->0), note_node_id(n.note.id), "parent"@)
    } else {
        plain_edge(project_node_id(project_id), note_node_id(n.note.id), "contains"@)
    }
}

/// Whether the edge at `e` is the one that puts the note `id` in its place.
pub open spec fn is_only_way_in(
    edges: Seq<crate::records::GraphEdgeView>,
    e: int,
    id: Seq<char>,
) -> bool {
    &&& 0 <= e < edges.len()
    &&& is_way_in(edges[e], id)
    &&& forall|f: int| 0 <= f < edges.len() && is_way_in(#[trigger] edges[f], id) ==> f == e
}

/// Whether the edge at `e` puts the `k`th note in its place, as one with or without a parent.
spec fn puts(
    project_id: Seq<char>,
    notes: Seq<crate::records::NoteWithTagsView>,
    e: crate::records::GraphEdgeView,
    k: int,
    under_note: bool,
) -> bool {
    &&& has_shown_parent(notes, notes[k]) == under_note
    &&& e == way_in(project_id, notes, notes[k])
}

/// Whether an edge puts one of the first `n` notes in its place.
spec fn puts_some(
    project_id: Seq<char>,
    notes: Seq<crate::records::NoteWithTagsView>,
    e: crate::records::GraphEdgeView,
    n: int,
    under_note: bool,
) -> bool {
    exists|k: int| 0 <= k < n && #[trigger] puts(project_id, notes, e, k, under_note)
}

proof fn lemma_kinds()
    ensures
        "contains"@ != "parent"@,
        "contains"@ != "tagged"@,
        "contains"@ != "link"@,
        "parent"@ != "tagged"@,
        "parent"@ != "link"@,
        "tagged"@ != "link"@,
{
    reveal_strlit("contains");
    reveal_strlit("parent");
    reveal_strlit("tagged");
    reveal_strlit("link");
    assert("contains"@[0] == 'c' && "parent"@[0] == 'p' && "tagged"@[0] == 't' && "link"@[0]
        == 'l');
}

proof fn lemma_own_ways(
    project_id: Seq<char>,
    notes: Seq<crate::records::NoteWithTagsView>,
    n: int,
)
    requires
        distinct_notes(notes),
        0 <= n <= notes.len(),
    ensures
        forall|e: int|
            0 <= e < own_edges(project_id, notes, notes.take(n)).len() ==> (#[trigger] own_edges(
                project_id,
                notes,
                notes.take(n),
            )[e]).kind == "tagged"@ || puts_some(
                project_id,
                notes,
                own_edges(project_id, notes, notes.take(n))[e],
                n,
                false,
            ),
        forall|e: int, f: int|
            0 <= e < f < own_edges(project_id, notes, notes.take(n)).len() && (
            #[trigger] own_edges(project_id, notes, notes.take(n))[e]).kind == "contains"@ && (
            #[trigger] own_edges(project_id, notes, notes.take(n))[f]).kind == "contains"@
                ==> own_edges(project_id, notes, notes.take(n))[e].target != own_edges(
                project_id,
                notes,
                notes.take(n),
            )[f].target,
    decreases n,
{
    lemma_kinds();
    if n > 0 {
        lemma_own_ways(project_id, notes, n - 1);
        let list = notes.take(n);
        assert(list.drop_last() =~= notes.take(n - 1));
        let last = notes[n - 1];
        assert(list.last() == last);
        let a = own_edges(project_id, notes, notes.take(n - 1));
        let b = contains_edges(project_id, notes, last);
        let c = tagged_edges(last);
        let all = own_edges(project_id, notes, list);
        assert(all == a + b + c);
        assert forall|e: int| 0 <= e < all.len() implies (#[trigger] all[e]).kind == "tagged"@
            || puts_some(project_id, notes, all[e], n, false) by {
            if e < a.len() {
                assert(all[e] == a[e]);
                if a[e].kind != "tagged"@ {
                    let k = choose|k: int|
                        0 <= k < n - 1 && #[trigger] puts(project_id, notes, a[e], k, false);
                    assert(puts(project_id, notes, all[e], k, false));
                }
            } else if e < a.len() + b.len() {
                assert(all[e] == b[e - a.len()]);
                assert(puts(project_id, notes, all[e], n - 1, false));
            } else {
                assert(all[e] == c[e - a.len() - b.len()]);
            }
        }
        assert forall|e: int, f: int|
            0 <= e < f < all.len() && (#[trigger] all[e]).kind == "contains"@ && (#[trigger]
            all[f]).kind == "contains"@ implies all[e].target != all[f].target by {
            if f < a.len() {
                assert(all[e] == a[e] && all[f] == a[f]);
            } else if f < a.len() + b.len() {
                assert(e < a.len());
                assert(all[e] == a[e]);
                let k = choose|k: int|
                    0 <= k < n - 1 && #[trigger] puts(project_id, notes, a[e], k, false);
                assert(all[f] == b[f - a.len()]);
                if all[e].target == all[f].target {
                    lemma_same_after_prefix("note:"@, notes[k].note.id, last.note.id);
                }
            } else {
                assert(all[f] == c[f - a.len() - b.len()]);
            }
        }
    }
}

proof fn lemma_parent_ways(
    project_id: Seq<char>,
    notes: Seq<crate::records::NoteWithTagsView>,
    n: int,
)
    requires
        distinct_notes(notes),
        0 <= n <= notes.len(),
    ensures
        forall|e: int|
            0 <= e < parent_edges(notes, notes.take(n)).len() ==> puts_some(
                project_id,
                notes,
                #[trigger] parent_edges(notes, notes.take(n))[e],
                n,
                true,
            ),
        forall|e: int, f: int|
            0 <= e < f < parent_edges(notes, notes.take(n)).len() ==> (#[trigger] parent_edges(
                notes,
                notes.take(n),
            )[e]).target != (#[trigger] parent_edges(notes, notes.take(n))[f]).target,
    decreases n,
{
    if n > 0 {
        lemma_parent_ways(project_id, notes, n - 1);
        let list = notes.take(n);
        assert(list.drop_last() =~= notes.take(n - 1));
        let last = notes[n - 1];
        assert(list.last() == last);
        let a = parent_edges(notes, notes.take(n - 1));
        let all = parent_edges(notes, list);
        assert forall|e: int| 0 <= e < all.len() implies puts_some(
            project_id,
            notes,
            #[trigger] all[e],
            n,
            true,
        ) by {
            if e < a.len() {
                assert(all[e] == a[e]);
                assert(puts_some(project_id, notes, a[e], n - 1, true));
                let k = choose|k: int|
                    0 <= k < n - 1 && #[trigger] puts(project_id, notes, a[e], k, true);
                assert(puts(project_id, notes, all[e], k, true));
            } else {
                assert(puts(project_id, notes, all[e], n - 1, true));
            }
        }
        assert forall|e: int, f: int| 0 <= e < f < all.len() implies (#[trigger] all[e]).target
            != (#[trigger] all[f]).target by {
            assert(all[e] == a[e]);
            if f < a.len() {
                assert(all[f] == a[f]);
            } else {
                assert(puts_some(project_id, notes, a[e], n - 1, true));
                let k = choose|k: int|
                    0 <= k < n - 1 && #[trigger] puts(project_id, notes, a[e], k, true);
                if all[e].target == all[f].target {
                    lemma_same_after_prefix("note:"@, notes[k].note.id, last.note.id);
                }
            }
        }
    }
}

/// Whether the notes that a link joins are both in the graph.
pub open spec fn joins_shown(notes: Seq<crate::records::NoteWithTagsView>) -> spec_fn(
    crate::records::NoteLinkView,
) -> bool {
    |l: crate::records::NoteLinkView|
        shows(notes, l.from_note_id) && shows(notes, l.to_note_id)
}

/// The edges of links are those of the links between notes of the graph, in their order.
proof fn lemma_link_edges_are(
    notes: Seq<crate::records::NoteWithTagsView>,
    links: Seq<crate::records::NoteLinkView>,
)
    ensures
        link_edges(notes, links) == links.filter(joins_shown(notes)).map_values(
            |l: crate::records::NoteLinkView| link_edge(l),
        ),
    decreases links.len(),
{
    let p = joins_shown(notes);
    let f = |l: crate::records::NoteLinkView| link_edge(l);
    reveal(Seq::filter);
    if links.len() > 0 {
        let head = links.drop_last();
        lemma_link_edges_are(notes, head);
        if p(links.last()) {
            assert(head.filter(p).push(links.last()).map_values(f) =~= head.filter(
                p,
            ).map_values(f).push(link_edge(links.last())));
        }
    } else {
        assert(links.filter(p).map_values(f) =~= Seq::empty());
    }
}

/// Each note is put in its place by exactly one edge: from its parent where that is in the graph,
/// else from the project.
pub proof fn law_each_note_has_one_way_in(
    p: crate::records::ProjectView,
    notes: Seq<crate::records::NoteWithTagsView>,
    links: Seq<crate::records::NoteLinkView>,
    k: int,
)
    requires
        distinct_notes(notes),
        0 <= k < notes.len(),
    ensures
        exists|e: int| #[trigger]
            is_only_way_in(graph_of(p, notes, links).edges, e, notes[k].note.id) && graph_of(
                p,
                notes,
                links,
            ).edges[e] == way_in(p.id, notes, notes[k]),
{
    let edges = graph_of(p, notes, links).edges;
    let n = notes.len() as int;
    let id = notes[k].note.id;
    let a = own_edges(p.id, notes, notes);
    let b = link_edges(notes, links);
    let c = parent_edges(notes, notes);
    assert(notes.take(n) =~= notes);
    lemma_kinds();
    lemma_own_ways(p.id, notes, n);
    lemma_parent_ways(p.id, notes, n);
    lemma_link_edges_are(notes, links);
    law_every_note_is_connected(p, notes, links, k);
    let way = way_in(p.id, notes, notes[k]);
    assert(edges.contains(way));
    let e = choose|e: int| 0 <= e < edges.len() && edges[e] == way;
    let under = has_shown_parent(notes, notes[k]);
    assert forall|f: int| 0 <= f < edges.len() && is_way_in(
        #[trigger] edges[f],
        id,
    ) implies if under {
        a.len() + b.len() <= f
    } else {
        f < a.len() && edges[f].kind == "contains"@
    } by {
        if f < a.len() {
            assert(edges[f] == a[f]);
            let j = choose|j: int| 0 <= j < n && #[trigger] puts(p.id, notes, a[f], j, false);
            lemma_same_after_prefix("note:"@, notes[j].note.id, id);
            assert(j == k);
        } else if f < a.len() + b.len() {
            assert(edges[f] == b[f - a.len()]);
        } else {
            assert(edges[f] == c[f - a.len() - b.len()]);
            let w = c[f - a.len() - b.len()];
            assert(puts_some(p.id, notes, w, n, true));
            let j = choose|j: int| 0 <= j < n && #[trigger] puts(p.id, notes, w, j, true);
            lemma_same_after_prefix("note:"@, notes[j].note.id, id);
            assert(j == k);
        }
    }
    assert(is_way_in(edges[e], id));
    assert forall|f: int| 0 <= f < edges.len() && is_way_in(
        #[trigger] edges[f],
        id,
    ) implies f == e by {
        if under {
            let m = a.len() + b.len();
            assert(edges[f] == c[f - m] && edges[e] == c[e - m]);
            if f < e {
                assert(c[f - m].target != c[e - m].target);
            } else if e < f {
                assert(c[e - m].target != c[f - m].target);
            }
        } else {
            assert(edges[f] == a[f] && edges[e] == a[e]);
            if f < e {
                assert(a[f].target != a[e].target);
            } else if e < f {
                assert(a[e].target != a[f].target);
            }
        }
    }
    assert(is_only_way_in(edges, e, id));
}

/// Whether an edge is that of a link.
pub open spec fn is_link_edge() -> spec_fn(crate::records::GraphEdgeView) -> bool {
    |e: crate::records::GraphEdgeView| e.kind == "link"@
}

proof fn lemma_none_kept(s: Seq<crate::records::GraphEdgeView>)
    requires
        forall|i: int| 0 <= i < s.len() ==> (#[trigger] s[i]).kind != "link"@,
    ensures
        s.filter(is_link_edge()) == Seq::<crate::records::GraphEdgeView>::empty(),
{
    let q = is_link_edge();
    crate::tables::lemma_filter(s, q);
    let f = s.filter(q);
    if f.len() > 0 {
        assert(q(f[0]) && s.contains(f[0]));
    }
    assert(f =~= Seq::<crate::records::GraphEdgeView>::empty());
}

/// The edges of links are exactly those of the links between two notes of the graph, each once and
/// in the order of the links.
pub proof fn law_link_edges_are_the_links(
    p: crate::records::ProjectView,
    notes: Seq<crate::records::NoteWithTagsView>,
    links: Seq<crate::records::NoteLinkView>,
)
    requires
        distinct_notes(notes),
    ensures
        graph_of(p, notes, links).edges.filter(is_link_edge()) == links.filter(
            joins_shown(notes),
        ).map_values(|l: crate::records::NoteLinkView| link_edge(l)),
{
    let q = is_link_edge();
    let n = notes.len() as int;
    let a = own_edges(p.id, notes, notes);
    let b = link_edges(notes, links);
    let c = parent_edges(notes, notes);
    assert(notes.take(n) =~= notes);
    lemma_kinds();
    lemma_own_ways(p.id, notes, n);
    lemma_parent_ways(p.id, notes, n);
    lemma_link_edges_are(notes, links);
    assert forall|i: int| 0 <= i < a.len() implies (#[trigger] a[i]).kind != "link"@ by {
        if a[i].kind != "tagged"@ {
            assert(puts_some(p.id, notes, a[i], n, false));
        }
    }
    assert forall|i: int| 0 <= i < c.len() implies (#[trigger] c[i]).kind != "link"@ by {
        assert(puts_some(p.id, notes, c[i], n, true));
    }
    lemma_none_kept(a);
    lemma_none_kept(c);
    assert forall|i: int| 0 <= i < b.len() implies q(#[trigger] b[i]) by {}
    crate::tables::lemma_filter_all(b, q);
    Seq::filter_distributes_over_add(a + b, c, q);
    Seq::filter_distributes_over_add(a, b, q);
    let none = Seq::<crate::records::GraphEdgeView>::empty();
    assert(none + b + none =~= b);
}

/// Whether a note of the store belongs to a project.
pub open spec fn in_project(
    v: crate::schema::StorageView,
    project_id: Seq<char>,
    note_id: Seq<char>,
) -> bool {
    crate::tables::row_of(v.notes, note_id) matches Some(n) && n.project_id == project_id
}

/// The notes that are listed for a project are those that belong to it, each once.
proof fn lemma_listed(v: crate::schema::StorageView, project_id: Seq<char>)
    requires
        v.wf(),
    ensures
        distinct_notes(crate::storage::listed_notes(v, project_id)),
        forall|id: Seq<char>| #[trigger]
            shows(crate::storage::listed_notes(v, project_id), id) <==> in_project(
                v,
                project_id,
                id,
            ),
{
    let p = crate::storage::of_project(project_id);
    let le = crate::storage::by_place();
    let kept = v.notes.filter(p);
    let order = crate::storage::notes_in_order(v, project_id);
    let list = crate::storage::listed_notes(v, project_id);
    crate::tables::lemma_unique_filter(v.notes, p);
    crate::promises::lemma_sorted_keys(kept, le);
    assert forall|i: int, j: int| 0 <= i < j < list.len() implies (#[trigger] list[i]).note.id
        != (#[trigger] list[j]).note.id by {
        assert(order[i].key() != order[j].key());
    }
    assert forall|id: Seq<char>| #[trigger] shows(list, id) <==> in_project(
        v,
        project_id,
        id,
    ) by {
        crate::tables::lemma_key_filter(v.notes, p, id);
        assert(crate::tables::has_key(order, id) <==> crate::tables::has_key(kept, id));
        if shows(list, id) {
            let i = choose|i: int| 0 <= i < list.len() && (#[trigger] list[i]).note.id == id;
            assert(order[i].key() == id);
        }
        if crate::tables::has_key(order, id) {
            let i = choose|i: int| 0 <= i < order.len() && (#[trigger] order[i]).key() == id;
            assert(list[i].note.id == id);
        }
    }
}

/// Whether both notes that a link joins belong to a project.
pub open spec fn is_link_within(
    v: crate::schema::StorageView,
    project_id: Seq<char>,
    l: crate::records::NoteLinkView,
) -> bool {
    in_project(v, project_id, l.from_note_id) && in_project(v, project_id, l.to_note_id)
}

/// Whether an edge is that of a link that joins two notes of a project.
pub open spec fn is_edge_within(
    v: crate::schema::StorageView,
    project_id: Seq<char>,
    e: crate::records::GraphEdgeView,
) -> bool {
    exists|l: crate::records::NoteLinkView|
        v.links.contains(l) && #[trigger] is_link_within(v, project_id, l) && e == link_edge(l)
}

/// A project that is there has a graph, and no other has. Its nodes have identifiers of their own,
/// every edge joins two of them, and each note that belongs to the project is put in its place by
/// exactly one edge. The edges of links are those of the links that join two notes of the project,
/// each once.
pub proof fn law_graph_of_a_project(v: crate::schema::StorageView, project_id: Seq<char>)
    requires
        v.wf(),
    ensures
        project_graph(v, project_id) is Ok <==> crate::tables::has_key(v.projects, project_id),
        project_graph(v, project_id) matches Ok(g) ==> {
            let edges = g.edges.filter(is_link_edge());
            &&& forall|i: int, j: int|
                0 <= i < j < g.nodes.len() ==> (#[trigger] g.nodes[i]).id != (
                #[trigger] g.nodes[j]).id
            &&& forall|i: int|
                0 <= i < g.edges.len() ==> joins_nodes(g, #[trigger] g.edges[i])
            &&& forall|id: Seq<char>| #[trigger]
                in_project(v, project_id, id) ==> exists|e: int| #[trigger]
                    is_only_way_in(g.edges, e, id)
            &&& forall|i: int|
                0 <= i < v.links.len() && is_link_within(v, project_id, #[trigger] v.links[i])
                    ==> edges.contains(link_edge(v.links[i]))
            &&& forall|j: int|
                0 <= j < edges.len() ==> is_edge_within(v, project_id, #[trigger] edges[j])
            &&& forall|i: int, j: int|
                0 <= i < j < edges.len() ==> (#[trigger] edges[i]).id != (#[trigger] edges[j]).id
        },
{
    crate::tables::lemma_row_of(v.projects, project_id);
    if let Some(p) = crate::tables::row_of(v.projects, project_id) {
        let notes = crate::storage::listed_notes(v, project_id);
        let links = crate::storage::listed_links(v, project_id);
        let g = graph_of(p, notes, links);
        let edges = g.edges.filter(is_link_edge());
        lemma_listed(v, project_id);
        law_node_ids_are_distinct(p, notes, links);
        law_edges_join_nodes(p, notes, links);
        assert forall|id: Seq<char>| #[trigger] in_project(v, project_id, id) implies exists|e: int|
         #[trigger] is_only_way_in(g.edges, e, id) by {
            assert(shows(notes, id));
            let k = choose|k: int| 0 <= k < notes.len() && (#[trigger] notes[k]).note.id == id;
            law_each_note_has_one_way_in(p, notes, links, k);
        }
        law_link_edges_are_the_links(p, notes, links);
        lemma_links_within(v, project_id);
        let shown = links.filter(joins_shown(notes));
        assert forall|i: int|
            0 <= i < v.links.len() && is_link_within(
                v,
                project_id,
                #[trigger] v.links[i],
            ) implies edges.contains(link_edge(v.links[i])) by {
            assert(shown.contains(v.links[i]));
            let j = choose|j: int| 0 <= j < shown.len() && shown[j] == v.links[i];
            assert(edges[j] == link_edge(v.links[i]));
        }
        assert forall|j: int| 0 <= j < edges.len() implies is_edge_within(
            v,
            project_id,
            #[trigger] edges[j],
        ) by {
            assert(edges[j] == link_edge(shown[j]));
            assert(is_link_within(v, project_id, shown[j]) && v.links.contains(shown[j]));
        }
        assert forall|i: int, j: int| 0 <= i < j < edges.len() implies (#[trigger] edges[i]).id
            != (#[trigger] edges[j]).id by {
            assert(shown[i].key() != shown[j].key());
        }
    }
}

/// The links of the graph of a project, of which both ends are in it.
proof fn lemma_links_within(v: crate::schema::StorageView, project_id: Seq<char>)
    requires
        v.wf(),
    ensures
        ({
            let notes = crate::storage::listed_notes(v, project_id);
            let shown = crate::storage::listed_links(v, project_id).filter(joins_shown(notes));
            &&& crate::tables::unique(shown)
            &&& forall|j: int|
                0 <= j < shown.len() ==> is_link_within(v, project_id, #[trigger] shown[j])
                    && v.links.contains(shown[j])
            &&& forall|i: int|
                0 <= i < v.links.len() && is_link_within(v, project_id, #[trigger] v.links[i])
                    ==> shown.contains(v.links[i])
        }),
{
    let notes = crate::storage::listed_notes(v, project_id);
    let links = crate::storage::listed_links(v, project_id);
    let p = crate::storage::links_of(v.notes, project_id);
    let q = joins_shown(notes);
    let le = crate::storage::first_drawn_first();
    let from = v.links.filter(p);
    let shown = links.filter(q);
    lemma_listed(v, project_id);
    crate::tables::lemma_filter(v.links, p);
    crate::tables::lemma_unique_filter(v.links, p);
    assert(crate::tables::is_order(le));
    crate::tables::lemma_sorted_contains(from, le);
    crate::promises::lemma_sorted_keys(from, le);
    crate::tables::lemma_filter(links, q);
    crate::tables::lemma_unique_filter(links, q);
    assert forall|j: int| 0 <= j < shown.len() implies is_link_within(
        v,
        project_id,
        #[trigger] shown[j],
    ) && v.links.contains(shown[j]) by {
        assert(q(shown[j]) && links.contains(shown[j]));
        assert(shows(notes, shown[j].from_note_id) && shows(notes, shown[j].to_note_id));
        assert(from.contains(shown[j]));
        let k = choose|k: int| 0 <= k < from.len() && from[k] == shown[j];
        assert(v.links.contains(from[k]));
    }
    assert forall|i: int|
        0 <= i < v.links.len() && is_link_within(
            v,
            project_id,
            #[trigger] v.links[i],
        ) implies shown.contains(v.links[i]) by {
        let l = v.links[i];
        assert(p(l));
        assert(from.contains(l));
        assert(links.contains(l));
        let k = choose|k: int| 0 <= k < links.len() && links[k] == l;
        assert(shows(notes, l.from_note_id) && shows(notes, l.to_note_id));
        assert(q(links[k]));
    }
}

/// The project is the first node, the notes follow in their order and the tags after them, each
/// under its own id, label and kind. A note is labelled with its title, or else with the name of
/// its source, or else as one without.
pub proof fn law_nodes_are_what_they_show(
    p: crate::records::ProjectView,
    notes: Seq<crate::records::NoteWithTagsView>,
    links: Seq<crate::records::NoteLinkView>,
    i: int,
    t: int,
)
    requires
        0 <= i < notes.len(),
        0 <= t < notes[i].tags.len(),
    ensures
        ({
            let g = graph_of(p, notes, links);
            let n = g.nodes[1 + i];
            &&& g.nodes[0].id == "project:"@ + p.id
            &&& g.nodes[0].label == p.name
            &&& g.nodes[0].kind == "project"@
            &&& n.id == "note:"@ + notes[i].note.id
            &&& n.kind == "note"@
            &&& notes[i].note.title.len() > 0 ==> n.label == notes[i].note.title
            &&& notes[i].note.title.len() == 0 ==> (notes[i].note.source_name matches Some(s)
                ==> n.label == s)
            &&& notes[i].note.title.len() == 0 && notes[i].note.source_name is None ==> n.label
                == "(untitled)"@
            &&& exists|k: int|
                1 + notes.len() <= k < g.nodes.len() && (#[trigger] g.nodes[k]).id == "tag:"@
                    + notes[i].tags[t] && g.nodes[k].label == notes[i].tags[t] && g.nodes[k].kind
                    == "tag"@
        }),
{
    let tags = tags_of(notes);
    let by = crate::storage::by_text();
    let sorted = crate::tables::sorted_by(tags, by);
    let tag = notes[i].tags[t];
    crate::storage::lemma_by_text_is_order();
    crate::tables::lemma_sorted_contains(tags, by);
    lemma_tags_of(notes, i);
    assert(notes[i].tags.contains(tag));
    assert(tags.contains(tag));
    assert(sorted.contains(tag));
    let k = choose|k: int| 0 <= k < sorted.len() && sorted[k] == tag;
    let g = graph_of(p, notes, links);
    assert(g.nodes[1 + notes.len() + k] == tag_node(tag));
    assert(g.nodes[1 + i] == note_node(notes[i]));
    assert(g.nodes[0] == project_node(p));
}

/// A note is joined to each of its tags, a link leads from the note that it starts at to the one that
/// it ends at, and a note whose parent is shown hangs under it and else under the project.
pub proof fn law_edges_lead_where_they_should(
    project_id: Seq<char>,
    notes: Seq<crate::records::NoteWithTagsView>,
    n: crate::records::NoteWithTagsView,
    t: int,
    l: crate::records::NoteLinkView,
)
    requires
        0 <= t < n.tags.len(),
    ensures
        ({
            let e = tagged_edges(n)[t];
            &&& tagged_edges(n).len() == n.tags.len()
            &&& e.source == "note:"@ + n.note.id
            &&& e.target == "tag:"@ + n.tags[t]
            &&& e.kind == "tagged"@
            &&& e.id is None && e.label is None
        }),
        ({
            let e = link_edge(l);
            &&& e.source == "note:"@ + l.from_note_id
            &&& e.target == "note:"@ + l.to_note_id
            &&& e.kind == "link"@
            &&& e.id == Some(l.id) && e.label == l.label
        }),
        ({
            let e = way_in(project_id, notes, n);
            &&& e.target == "note:"@ + n.note.id
            &&& e.id is None && e.label is None
            &&& n.note.parent_id is None ==> e.source == "project:"@ + project_id && e.kind
                == "contains"@
            &&& n.note.parent_id matches Some(p) ==> if exists|i: int|
                0 <= i < notes.len() && (#[trigger] notes[i]).note.id == p {
                e.source == "note:"@ + p && e.kind == "parent"@
            } else {
                e.source == "project:"@ + project_id && e.kind == "contains"@
            }
        }),
{
}

/// A project that is not there has no graph, and that is told.
pub proof fn law_unknown_project_has_no_graph(v: crate::schema::StorageView, project_id: Seq<char>)
    ensures
        project_graph(v, project_id) is Err <==> crate::tables::row_of(v.projects, project_id)
            is None,
        project_graph(v, project_id) matches Err(m) ==> m == "project not found"@,
{
}

} // verus!
