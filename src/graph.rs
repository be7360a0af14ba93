use petgraph::graph::{DiGraph, NodeIndex};
use petgraph::Direction;
use vstd::prelude::*;

verus! {

#[verifier::external_type_specification]
#[verifier::external_body]
#[verifier::reject_recursive_types(N)]
#[verifier::reject_recursive_types(E)]
#[verifier::reject_recursive_types(Ty)]
#[verifier::reject_recursive_types(Ix)]
pub struct ExGraph<N, E, Ty, Ix>(petgraph::graph::Graph<N, E, Ty, Ix>);

#[verifier::external_type_specification]
#[verifier::external_body]
pub struct ExDirected(petgraph::Directed);

/// One discovered note file.
#[derive(Debug, Clone)]
pub struct Note {
    pub path: String,
    pub title: String,
}

/// The identity of a note within one graph instance.
#[derive(Debug, Clone, Copy, PartialEq, Eq, Hash)]
pub struct NoteId {
    pub index: usize,
}

/// The node weights of a petgraph graph, in index order.
pub uninterp spec fn graph_notes(g: DiGraph<Note, ()>) -> Seq<Note>;

/// The edges of a petgraph graph, as (source, target) pairs in order of addition.
pub uninterp spec fn graph_edges(g: DiGraph<Note, ()>) -> Seq<(int, int)>;

/// What `str::to_lowercase` returns for a string.
pub uninterp spec fn lower_of(s: Seq<char>) -> Seq<char>;

/// Targets of the edges leaving `a`, most recently added first.
pub open spec fn targets_from(edges: Seq<(int, int)>, a: int) -> Seq<int>
    decreases edges.len(),
{
    if edges.len() == 0 {
        seq![]
    } else {
        let e = edges.last();
        let rest = targets_from(edges.drop_last(), a);
        if e.0 == a {
            seq![e.1] + rest
        } else {
            rest
        }
    }
}

/// Sources of the edges entering `b`, most recently added first.
pub open spec fn sources_into(edges: Seq<(int, int)>, b: int) -> Seq<int>
    decreases edges.len(),
{
    if edges.len() == 0 {
        seq![]
    } else {
        let e = edges.last();
        let rest = sources_into(edges.drop_last(), b);
        if e.1 == b {
            seq![e.0] + rest
        } else {
            rest
        }
    }
}

proof fn lemma_push_contains<T>(s: Seq<T>, v: T, x: T)
    ensures
        s.push(v).contains(x) <==> (s.contains(x) || v == x),
{
    if s.push(v).contains(x) {
        let j = choose|j: int| 0 <= j < s.push(v).len() && s.push(v)[j] == x;
        if j < s.len() {
            assert(s[j] == x);
        }
    }
    if s.contains(x) {
        let j = choose|j: int| 0 <= j < s.len() && s[j] == x;
        assert(s.push(v)[j] == x);
    }
    if v == x {
        assert(s.push(v)[s.len() as int] == x);
    }
}

proof fn lemma_prepend_contains<T>(v: T, s: Seq<T>, x: T)
    ensures
        (seq![v] + s).contains(x) <==> (s.contains(x) || v == x),
{
    let t = seq![v] + s;
    if t.contains(x) {
        let j = choose|j: int| 0 <= j < t.len() && t[j] == x;
        if j > 0 {
            assert(s[j - 1] == x);
        }
    }
    if s.contains(x) {
        let j = choose|j: int| 0 <= j < s.len() && s[j] == x;
        assert(t[j + 1] == x);
    }
    if v == x {
        assert(t[0] == x);
    }
}

proof fn lemma_targets_from(edges: Seq<(int, int)>, a: int)
    ensures
        forall|x: int| #[trigger] targets_from(edges, a).contains(x) <==> edges.contains((a, x)),
    decreases edges.len(),
{
    if edges.len() > 0 {
        let rest = edges.drop_last();
        let last = edges.last();
        lemma_targets_from(rest, a);
        assert(edges =~= rest.push(last));
        assert forall|x: int| #[trigger] targets_from(edges, a).contains(x) <==> edges.contains(
            (a, x),
        ) by {
            lemma_push_contains(rest, last, (a, x));
            if last.0 == a {
                lemma_prepend_contains(last.1, targets_from(rest, a), x);
            }
        }
    }
}

proof fn lemma_sources_into(edges: Seq<(int, int)>, b: int)
    ensures
        forall|x: int| #[trigger] sources_into(edges, b).contains(x) <==> edges.contains((x, b)),
    decreases edges.len(),
{
    if edges.len() > 0 {
        let rest = edges.drop_last();
        let last = edges.last();
        lemma_sources_into(rest, b);
        assert(edges =~= rest.push(last));
        assert forall|x: int| #[trigger] sources_into(edges, b).contains(x) <==> edges.contains(
            (x, b),
        ) by {
            lemma_push_contains(rest, last, (x, b));
            if last.1 == b {
                lemma_prepend_contains(last.0, sources_into(rest, b), x);
            }
        }
    }
}

/// Relies on petgraph's `Graph::new`: a graph with no nodes and no edges.
#[verifier::external_body]
fn pg_new() -> (g: DiGraph<Note, ()>)
    ensures
        graph_notes(g) == Seq::<Note>::empty(),
        graph_edges(g) == Seq::<(int, int)>::empty(),
{
    DiGraph::new()
}

/// Relies on petgraph's `Graph::add_node`: the weight is appended and its
/// index returned. It panics only when the index type is exhausted.
#[verifier::external_body]
fn pg_add_node(g: &mut DiGraph<Note, ()>, n: Note) -> (r: usize)
    requires
        graph_notes(*old(g)).len() < u32::MAX,
    ensures
        graph_notes(*final(g)) == graph_notes(*old(g)).push(n),
        graph_edges(*final(g)) == graph_edges(*old(g)),
        r == graph_notes(*old(g)).len(),
{
    g.add_node(n).index()
}

/// Relies on petgraph's `Graph::add_edge`: the edge is appended. It panics
/// when an endpoint is missing or the index type is exhausted.
#[verifier::external_body]
fn pg_add_edge(g: &mut DiGraph<Note, ()>, a: usize, b: usize)
    requires
        a < graph_notes(*old(g)).len(),
        b < graph_notes(*old(g)).len(),
        graph_edges(*old(g)).len() < u32::MAX,
    ensures
        graph_notes(*final(g)) == graph_notes(*old(g)),
        graph_edges(*final(g)) == graph_edges(*old(g)).push((a as int, b as int)),
{
    g.add_edge(NodeIndex::new(a), NodeIndex::new(b), ());
}

/// Relies on petgraph's `Graph::contains_edge`: whether an edge from `a` to `b` exists.
#[verifier::external_body]
fn pg_contains_edge(g: &DiGraph<Note, ()>, a: usize, b: usize) -> (r: bool)
    requires
        a < graph_notes(*g).len(),
        b < graph_notes(*g).len(),
    ensures
        r == graph_edges(*g).contains((a as int, b as int)),
{
    g.contains_edge(NodeIndex::new(a), NodeIndex::new(b))
}

/// Relies on petgraph's `Graph::node_weight`: the weight stored at an index.
#[verifier::external_body]
fn pg_node_weight(g: &DiGraph<Note, ()>, i: usize) -> (r: Option<&Note>)
    requires
        i < graph_notes(*g).len(),
    ensures
        r is Some && *(r->0) == graph_notes(*g)[i as int],
{
    g.node_weight(NodeIndex::new(i))
}

/// Relies on petgraph's `Graph::node_count`.
#[verifier::external_body]
fn pg_node_count(g: &DiGraph<Note, ()>) -> (r: usize)
    ensures
        r == graph_notes(*g).len(),
{
    g.node_count()
}

/// Relies on petgraph's `Graph::edge_count`.
#[verifier::external_body]
fn pg_edge_count(g: &DiGraph<Note, ()>) -> (r: usize)
    ensures
        r == graph_edges(*g).len(),
{
    g.edge_count()
}

/// Relies on petgraph's `Graph::neighbors_directed`: on a directed graph the
/// neighbours along one direction, most recently added edge first.
#[verifier::external_body]
fn pg_neighbors(g: &DiGraph<Note, ()>, i: usize, outgoing: bool) -> (r: Vec<usize>)
    requires
        i < graph_notes(*g).len(),
    ensures
        outgoing ==> r@.len() == targets_from(graph_edges(*g), i as int).len(),
        outgoing ==> forall|k: int| 0 <= k < r@.len()
            ==> r@[k] as int == #[trigger] targets_from(graph_edges(*g), i as int)[k],
        !outgoing ==> r@.len() == sources_into(graph_edges(*g), i as int).len(),
        !outgoing ==> forall|k: int| 0 <= k < r@.len()
            ==> r@[k] as int == #[trigger] sources_into(graph_edges(*g), i as int)[k],
{
    let dir = if outgoing { Direction::Outgoing } else { Direction::Incoming };
    g.neighbors_directed(NodeIndex::new(i), dir).map(|n| n.index()).collect()
}

/// Relies on `str::to_lowercase`: the result depends on the characters alone.
#[verifier::external_body]
fn lowercase(s: &str) -> (r: String)
    ensures
        r@ == lower_of(s@),
{
    s.to_lowercase()
}


/// Index of the most recently added note whose normalized title is `key`.
pub open spec fn last_titled(notes: Seq<Note>, key: Seq<char>) -> Option<int>
    decreases notes.len(),
{
    if notes.len() == 0 {
        None
    } else if lower_of(notes.last().title@) == key {
        Some(notes.len() - 1)
    } else {
        last_titled(notes.drop_last(), key)
    }
}

/// Whether some note has exactly the path `p`.
pub open spec fn has_path(notes: Seq<Note>, p: Seq<char>) -> bool {
    exists|i: int| 0 <= i < notes.len() && #[trigger] notes[i].path@ == p
}

/// The notes after registering `path` with `title`: unchanged when the
/// path is already known, else the new note is appended.
pub open spec fn with_note(notes: Seq<Note>, path: String, title: String) -> Seq<Note> {
    if has_path(notes, path@) {
        notes
    } else {
        notes.push(Note { path, title })
    }
}

/// The edges after linking `a` to `b`: unchanged when the edge exists,
/// else the new edge is appended.
pub open spec fn with_link(edges: Seq<(int, int)>, a: int, b: int) -> Seq<(int, int)> {
    if edges.contains((a, b)) {
        edges
    } else {
        edges.push((a, b))
    }
}

/// Registering a path a second time, with any title, adds no note, and the
/// note at that path keeps the title it was first registered with.
pub proof fn law_add_note_idempotent(notes: Seq<Note>, p: String, t1: String, t2: String)
    requires
        !has_path(notes, p@),
    ensures
        with_note(with_note(notes, p, t1), p, t2).len() == with_note(notes, p, t1).len(),
        with_note(notes, p, t1).len() == notes.len() + 1,
        forall|i: int|
            0 <= i < with_note(with_note(notes, p, t1), p, t2).len() && (#[trigger] with_note(
                with_note(notes, p, t1),
                p,
                t2,
            )[i]).path@ == p@ ==> with_note(with_note(notes, p, t1), p, t2)[i].title == t1,
{
    let n1 = with_note(notes, p, t1);
    assert(n1[notes.len() as int].path@ == p@);
    assert(has_path(n1, p@));
    assert forall|i: int| 0 <= i < n1.len() && (#[trigger] n1[i]).path@ == p@ implies n1[i].title
        == t1 by {
        if i < notes.len() {
            assert(n1[i] == notes[i]);
        }
    }
}

/// Linking the same ordered pair twice adds exactly one edge.
pub proof fn law_add_link_dedup(edges: Seq<(int, int)>, a: int, b: int)
    ensures
        with_link(with_link(edges, a, b), a, b) == with_link(edges, a, b),
        !edges.contains((a, b)) ==> with_link(with_link(edges, a, b), a, b).len() == edges.len()
            + 1,
{
    lemma_push_contains(edges, (a, b), (a, b));
}

/// A note registered under title `t` is the one found by any query whose
/// normalized form equals that of `t`, whatever the case of its letters.
pub proof fn law_title_lookup_case_insensitive(
    notes: Seq<Note>,
    p: String,
    t: String,
    q: Seq<char>,
)
    requires
        !has_path(notes, p@),
        lower_of(q) == lower_of(t@),
    ensures
        last_titled(with_note(notes, p, t), lower_of(q)) == Some(notes.len() as int),
{
    let n1 = with_note(notes, p, t);
    assert(n1.last().title == t);
}

/// After linking `a` to `b`, `a` is among the backlinks of `b` and `b` is
/// among the forward links of `a`.
pub proof fn law_link_symmetry(edges: Seq<(int, int)>, a: int, b: int)
    ensures
        sources_into(with_link(edges, a, b), b).contains(a),
        targets_from(with_link(edges, a, b), a).contains(b),
{
    let e1 = with_link(edges, a, b);
    lemma_push_contains(edges, (a, b), (a, b));
    lemma_sources_into(e1, b);
    lemma_targets_from(e1, a);
}

/// A directed graph of notes, indexed by path and by normalized title.
/// Edges carry no payload and are never duplicated.
pub struct NoteGraph {
    graph: DiGraph<Note, ()>,
    title_keys: Vec<String>,
}

impl NoteGraph {
    /// The notes, in order of insertion.
    pub closed spec fn notes(&self) -> Seq<Note> {
        graph_notes(self.graph)
    }

    /// The edges, as (source, target) pairs in order of insertion.
    pub closed spec fn edges(&self) -> Seq<(int, int)> {
        graph_edges(self.graph)
    }

    /// Paths are unique, every edge joins two notes, no edge is repeated,
    /// and each note's normalized title is kept beside it.
    pub closed spec fn wf(&self) -> bool {
        &&& self.notes().len() < u32::MAX
        &&& self.title_keys@.len() == self.notes().len()
        &&& forall|i: int| 0 <= i < self.notes().len()
            ==> #[trigger] self.title_keys@[i]@ == lower_of(self.notes()[i].title@)
        &&& forall|i: int, j: int| 0 <= i < j < self.notes().len()
            ==> #[trigger] self.notes()[i].path@ != #[trigger] self.notes()[j].path@
        &&& forall|k: int| 0 <= k < self.edges().len() ==> {
            &&& 0 <= (#[trigger] self.edges()[k]).0 < self.notes().len()
            &&& 0 <= self.edges()[k].1 < self.notes().len()
        }
        &&& self.edges().no_duplicates()
    }

    /// Whether `id` names a note of this graph.
    pub open spec fn valid_id(&self, id: NoteId) -> bool {
        id.index < self.notes().len()
    }

    pub fn new() -> (r: NoteGraph)
        ensures
            r.wf(),
            r.notes() == Seq::<Note>::empty(),
            r.edges() == Seq::<(int, int)>::empty(),
    {
        NoteGraph { graph: pg_new(), title_keys: Vec::new() }
    }

    /// Registers a note. A path that is already known keeps its note and
    /// identity; otherwise the note is appended and becomes the holder of
    /// its normalized title.
    pub fn add_note(&mut self, path: String, title: String) -> (r: NoteId)
        requires
            old(self).wf(),
            !has_path(old(self).notes(), path@) ==> old(self).notes().len() < u32::MAX - 1,
        ensures
            final(self).wf(),
            final(self).edges() == old(self).edges(),
            final(self).notes() == with_note(old(self).notes(), path, title),
            r.index < final(self).notes().len(),
            forall|i: int|
                0 <= i < final(self).notes().len() ==> (#[trigger] final(self).notes()[i].path@
                    == path@ <==> i == r.index),
    {
        match self.find_by_path(&path) {
            Some(id) => id,
            None => {
                let key = lowercase(title.as_str());
                let index = pg_add_node(&mut self.graph, Note { path, title });
                self.title_keys.push(key);
                NoteId { index }
            },
        }
    }

    /// Adds the edge `from -> to` unless it is already present.
    pub fn add_link(&mut self, from: NoteId, to: NoteId)
        requires
            old(self).wf(),
            old(self).valid_id(from),
            old(self).valid_id(to),
            !old(self).edges().contains((from.index as int, to.index as int)) ==> old(self).edges().len() < u32::MAX,
        ensures
            final(self).wf(),
            final(self).notes() == old(self).notes(),
            final(self).edges() == with_link(old(self).edges(), from.index as int, to.index as int),
    {
        if !pg_contains_edge(&self.graph, from.index, to.index) {
            pg_add_edge(&mut self.graph, from.index, to.index);
            assert(self.edges().last() == (from.index as int, to.index as int));
            assert(self.edges().drop_last() =~= old(self).edges());
            assert forall|k: int| 0 <= k < self.edges().len() implies {
                &&& 0 <= (#[trigger] self.edges()[k]).0 < self.notes().len()
                &&& 0 <= self.edges()[k].1 < self.notes().len()
            } by {
                if k < old(self).edges().len() {
                    assert(self.edges()[k] == old(self).edges()[k]);
                }
            }
            assert forall|i: int, j: int| 0 <= i < j < self.edges().len() implies self.edges()[i]
                != self.edges()[j] by {
                if j < old(self).edges().len() {
                    assert(self.edges()[i] == old(self).edges()[i]);
                    assert(self.edges()[j] == old(self).edges()[j]);
                } else {
                    assert(self.edges()[i] == old(self).edges()[i]);
                }
            }
        }
    }

    /// Looks a note up by its exact path.
    pub fn find_by_path(&self, path: &String) -> (r: Option<NoteId>)
        requires
            self.wf(),
        ensures
            r is None <==> !has_path(self.notes(), path@),
            r is Some ==> r->0.index < self.notes().len() && self.notes()[r->0.index as int].path@
                == path@,
            r is Some ==> forall|i: int|
                0 <= i < self.notes().len() && #[trigger] self.notes()[i].path@ == path@ ==> i
                    == r->0.index,
    {
        let n = pg_node_count(&self.graph);
        let mut i: usize = 0;
        while i < n
            invariant
                self.wf(),
                n == self.notes().len(),
                i <= n,
                forall|k: int| 0 <= k < i ==> #[trigger] self.notes()[k].path@ != path@,
            decreases n - i,
        {
            let note = pg_node_weight(&self.graph, i).unwrap();
            if note.path == *path {
                return Some(NoteId { index: i });
            }
            i = i + 1;
        }
        None
    }

    /// Looks a note up by title, compared after normalization; where several
    /// notes share a normalized title, the last one added holds it.
    pub fn find_by_title(&self, title: &str) -> (r: Option<NoteId>)
        requires
            self.wf(),
        ensures
            r is None <==> last_titled(self.notes(), lower_of(title@)) is None,
            r is Some ==> r->0.index == last_titled(self.notes(), lower_of(title@))->0,
            r is Some ==> r->0.index < self.notes().len(),
    {
        let key = lowercase(title);
        self.find_by_normalized_title(key.as_str())
    }

    /// Looks a note up by an already normalized title: the last note added
    /// whose normalized title is `key`.
    pub fn find_by_normalized_title(&self, key: &str) -> (r: Option<NoteId>)
        requires
            self.wf(),
        ensures
            r is None <==> last_titled(self.notes(), key@) is None,
            r is Some ==> r->0.index == last_titled(self.notes(), key@)->0,
            r is Some ==> r->0.index < self.notes().len(),
    {
        let wanted = String::from_str(key);
        let mut i: usize = self.title_keys.len();
        assert(self.notes().subrange(0, i as int) =~= self.notes());
        while i > 0
            invariant
                self.wf(),
                wanted@ == key@,
                i <= self.notes().len(),
                last_titled(self.notes(), key@) == last_titled(self.notes().subrange(0, i as int), key@),
            decreases i,
        {
            proof {
                let s = self.notes().subrange(0, i as int);
                assert(s.drop_last() =~= self.notes().subrange(0, i - 1));
            }
            if self.title_keys[i - 1] == wanted {
                return Some(NoteId { index: i - 1 });
            }
            i = i - 1;
        }
        proof {
            assert(self.notes().subrange(0, 0) =~= Seq::<Note>::empty());
        }
        None
    }

    /// The notes with an edge into `id`, most recently linked first.
    pub fn backlinks(&self, id: NoteId) -> (r: Vec<&Note>)
        requires
            self.wf(),
        ensures
            !self.valid_id(id) ==> r@.len() == 0,
            self.valid_id(id) ==> r@.len() == sources_into(self.edges(), id.index as int).len(),
            forall|k: int| 0 <= k < r@.len() ==> *(#[trigger] r@[k]) == self.notes()[sources_into(
                self.edges(),
                id.index as int,
            )[k]],
    {
        if id.index >= pg_node_count(&self.graph) {
            return Vec::new();
        }
        let ids = pg_neighbors(&self.graph, id.index, false);
        proof {
            let b = id.index as int;
            lemma_sources_into(self.edges(), b);
            assert forall|x: int| #[trigger] sources_into(self.edges(), b).contains(x) implies 0 <= x
                < self.notes().len() by {
                let j = choose|j: int| 0 <= j < self.edges().len() && self.edges()[j] == (x, b);
                assert(self.edges()[j].0 == x);
            }
        }
        self.notes_at(&ids, Ghost(sources_into(self.edges(), id.index as int)))
    }

    /// The notes that `id` has an edge to, most recently linked first.
    pub fn forward_links(&self, id: NoteId) -> (r: Vec<&Note>)
        requires
            self.wf(),
        ensures
            !self.valid_id(id) ==> r@.len() == 0,
            self.valid_id(id) ==> r@.len() == targets_from(self.edges(), id.index as int).len(),
            forall|k: int| 0 <= k < r@.len() ==> *(#[trigger] r@[k]) == self.notes()[targets_from(
                self.edges(),
                id.index as int,
            )[k]],
    {
        if id.index >= pg_node_count(&self.graph) {
            return Vec::new();
        }
        let ids = pg_neighbors(&self.graph, id.index, true);
        proof {
            let a = id.index as int;
            lemma_targets_from(self.edges(), a);
            assert forall|x: int| #[trigger] targets_from(self.edges(), a).contains(x) implies 0 <= x
                < self.notes().len() by {
                let j = choose|j: int| 0 <= j < self.edges().len() && self.edges()[j] == (a, x);
                assert(self.edges()[j].1 == x);
            }
        }
        self.notes_at(&ids, Ghost(targets_from(self.edges(), id.index as int)))
    }

    fn notes_at(&self, ids: &Vec<usize>, Ghost(expected): Ghost<Seq<int>>) -> (r: Vec<&Note>)
        requires
            self.wf(),
            ids@.len() == expected.len(),
            forall|k: int| 0 <= k < ids@.len() ==> ids@[k] as int == #[trigger] expected[k],
            forall|x: int| #[trigger] expected.contains(x) ==> 0 <= x < self.notes().len(),
        ensures
            r@.len() == expected.len(),
            forall|k: int| 0 <= k < r@.len() ==> *(#[trigger] r@[k]) == self.notes()[expected[k]],
    {
        let mut out: Vec<&Note> = Vec::new();
        let mut k: usize = 0;
        while k < ids.len()
            invariant
                k <= ids@.len(),
                ids@.len() == expected.len(),
                forall|j: int| 0 <= j < ids@.len() ==> ids@[j] as int == #[trigger] expected[j],
                forall|x: int| #[trigger] expected.contains(x) ==> 0 <= x < self.notes().len(),
                out@.len() == k,
                forall|j: int| 0 <= j < k ==> *(#[trigger] out@[j]) == self.notes()[expected[j]],
            decreases ids@.len() - k,
        {
            assert(expected.contains(expected[k as int]));
            let note = pg_node_weight(&self.graph, ids[k]).unwrap();
            out.push(note);
            k = k + 1;
        }
        out
    }

    /// Every note, in insertion order.
    pub fn all_notes(&self) -> (r: Vec<&Note>)
        ensures
            r@.len() == self.notes().len(),
            forall|k: int| 0 <= k < r@.len() ==> *(#[trigger] r@[k]) == self.notes()[k],
    {
        let n = pg_node_count(&self.graph);
        let mut out: Vec<&Note> = Vec::new();
        let mut k: usize = 0;
        while k < n
            invariant
                n == self.notes().len(),
                k <= n,
                out@.len() == k,
                forall|j: int| 0 <= j < k ==> *(#[trigger] out@[j]) == self.notes()[j],
            decreases n - k,
        {
            let note = pg_node_weight(&self.graph, k).unwrap();
            out.push(note);
            k = k + 1;
        }
        out
    }

    /// The note with identity `id`, if there is one.
    pub fn get_note(&self, id: NoteId) -> (r: Option<&Note>)
        ensures
            self.valid_id(id) ==> r is Some && *(r->0) == self.notes()[id.index as int],
            !self.valid_id(id) ==> r is None,
    {
        if id.index < pg_node_count(&self.graph) {
            pg_node_weight(&self.graph, id.index)
        } else {
            None
        }
    }

    /// The number of notes.
    pub fn note_count(&self) -> (r: usize)
        ensures
            r == self.notes().len(),
    {
        pg_node_count(&self.graph)
    }

    /// The number of edges.
    pub fn link_count(&self) -> (r: usize)
        ensures
            r == self.edges().len(),
    {
        pg_edge_count(&self.graph)
    }
}

} // verus!
