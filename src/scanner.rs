use crate::graph::{has_path, last_titled, with_link, with_note, Note, NoteGraph, NoteId};
use crate::parser::{chars_of, extract_wikilinks, references, strings_view};
use vstd::prelude::*;

verus! {

/// Whether `c` has the Unicode `White_Space` property, as `char::is_whitespace` documents.
pub open spec fn is_ws(c: char) -> bool {
    let u = c as u32;
    (0x09 <= u <= 0x0D) || u == 0x20 || u == 0x85 || u == 0xA0 || u == 0x1680 || (0x2000 <= u
        <= 0x200A) || u == 0x2028 || u == 0x2029 || u == 0x202F || u == 0x205F || u == 0x3000
}

fn is_whitespace(c: char) -> (r: bool)
    ensures
        r == is_ws(c),
{
    let u = c as u32;
    (0x09 <= u && u <= 0x0D) || u == 0x20 || u == 0x85 || u == 0xA0 || u == 0x1680 || (0x2000 <= u
        && u <= 0x200A) || u == 0x2028 || u == 0x2029 || u == 0x202F || u == 0x205F || u == 0x3000
}

/// Number of characters from `i` up to the next line feed or the end.
pub open spec fn line_len(s: Seq<char>, i: int) -> nat
    decreases s.len() - i,
{
    if 0 <= i < s.len() && s[i] != '\n' {
        1 + line_len(s, i + 1)
    } else {
        0
    }
}

/// Number of whitespace characters at the start of `s[lo..hi]`.
pub open spec fn lead_ws(s: Seq<char>, lo: int, hi: int) -> nat
    decreases hi - lo,
{
    if 0 <= lo < hi && hi <= s.len() && is_ws(s[lo]) {
        1 + lead_ws(s, lo + 1, hi)
    } else {
        0
    }
}

/// Number of whitespace characters at the end of `s[lo..hi]`.
pub open spec fn trail_ws(s: Seq<char>, lo: int, hi: int) -> nat
    decreases hi - lo,
{
    if 0 <= lo < hi && hi <= s.len() && is_ws(s[hi - 1]) {
        1 + trail_ws(s, lo, hi - 1)
    } else {
        0
    }
}

/// The title that the line `s[lo..hi]` carries: after trimming whitespace
/// at both ends, what follows a leading `# `.
pub open spec fn line_heading(s: Seq<char>, lo: int, hi: int) -> Option<Seq<char>> {
    let a = lo + lead_ws(s, lo, hi);
    let b = hi - trail_ws(s, a, hi);
    if b - a >= 2 && s[a] == '#' && s[a + 1] == ' ' {
        Some(s.subrange(a + 2, b))
    } else {
        None
    }
}

/// The title carried by the first heading line at or after the line that starts at `i`.
pub open spec fn heading_from(s: Seq<char>, i: int) -> Option<Seq<char>>
    decreases s.len() + 1 - i,
{
    if i < 0 || i > s.len() {
        None
    } else {
        let e = i + line_len(s, i);
        if line_heading(s, i, e) is Some {
            line_heading(s, i, e)
        } else if e < s.len() {
            heading_from(s, e + 1)
        } else {
            None
        }
    }
}

/// What `Path::file_stem` returns for a path: its file name without the extension.
pub uninterp spec fn stem_of(p: Seq<char>) -> Option<Seq<char>>;

/// The title of a note with file stem `stem`: the first `# ` heading line,
/// else the stem, else `Untitled`.
pub open spec fn title_given(stem: Option<Seq<char>>, content: Seq<char>) -> Seq<char> {
    if heading_from(content, 0) is Some {
        heading_from(content, 0)->0
    } else if stem is Some {
        stem->0
    } else {
        seq!['U', 'n', 't', 'i', 't', 'l', 'e', 'd']
    }
}

/// The title of the note at `path` with text `content`.
pub open spec fn title_of(path: Seq<char>, content: Seq<char>) -> Seq<char> {
    title_given(stem_of(path), content)
}

pub open spec fn opt_view(o: Option<String>) -> Option<Seq<char>> {
    match o {
        Some(s) => Some(s@),
        None => None,
    }
}

/// Relies on std's `Path::file_stem`: the file name of a path without its
/// extension, which depends on the path's text alone.
#[verifier::external_body]
fn file_stem(path: &str) -> (r: Option<String>)
    ensures
        r is None <==> stem_of(path@) is None,
        r is Some ==> r->0@ == stem_of(path@)->0,
{
    std::path::Path::new(path).file_stem().and_then(|s| s.to_str()).map(|s| s.to_string())
}

/// What `Path::extension` returns for a path: the part of its file name after the last dot.
pub uninterp spec fn extension_of(p: Seq<char>) -> Option<Seq<char>>;

/// Relies on std's `Path::extension`: the extension of a path's file name,
/// which depends on the path's text alone.
#[verifier::external_body]
fn path_extension(path: &str) -> (r: Option<String>)
    ensures
        opt_view(r) == extension_of(path@),
{
    std::path::Path::new(path).extension().and_then(|s| s.to_str()).map(|s| s.to_string())
}

/// Whether a file with extension `ext` is a note: its extension is exactly `md`.
pub fn is_note_extension(ext: Option<String>) -> (r: bool)
    ensures
        r == (opt_view(ext) == Some(seq!['m', 'd'])),
{
    match ext {
        Some(e) => {
            let cs = chars_of(e.as_str());
            let r = cs.len() == 2 && cs[0] == 'm' && cs[1] == 'd';
            assert(r ==> cs@ =~= seq!['m', 'd']);
            r
        },
        None => false,
    }
}

/// Whether the file at `path` is a note, judged by its extension alone.
pub fn is_note_path(path: &str) -> (r: bool)
    ensures
        r == (extension_of(path@) == Some(seq!['m', 'd'])),
{
    is_note_extension(path_extension(path))
}

/// A note file as read from disk: its path and its full content.
#[derive(Debug, Clone)]
pub struct SourceFile {
    pub path: String,
    pub content: String,
}

/// The path and title of each note, as views.
pub open spec fn notes_view(notes: Seq<Note>) -> Seq<(Seq<char>, Seq<char>)> {
    notes.map_values(|n: Note| (n.path@, n.title@))
}

/// Registering a path and title on the view of the notes.
pub open spec fn with_note_view(nv: Seq<(Seq<char>, Seq<char>)>, p: Seq<char>, t: Seq<char>) -> Seq<
    (Seq<char>, Seq<char>),
> {
    if exists|i: int| 0 <= i < nv.len() && #[trigger] nv[i].0 == p {
        nv
    } else {
        nv.push((p, t))
    }
}

/// The notes that the discovery pass registers for `files`, in order.
pub open spec fn discovered(files: Seq<SourceFile>) -> Seq<(Seq<char>, Seq<char>)>
    decreases files.len(),
{
    if files.len() == 0 {
        seq![]
    } else {
        let f = files.last();
        with_note_view(discovered(files.drop_last()), f.path@, title_of(f.path@, f.content@))
    }
}

/// The index of the note with path `p`.
pub open spec fn path_slot(notes: Seq<Note>, p: Seq<char>) -> int {
    choose|i: int| 0 <= i < notes.len() && #[trigger] notes[i].path@ == p
}

/// The edges after resolving the references `refs` of the note at `src`
/// against the titles of `notes`; a reference that no title matches is dropped.
pub open spec fn resolve_refs(
    edges: Seq<(int, int)>,
    notes: Seq<Note>,
    src: int,
    refs: Seq<Seq<char>>,
) -> Seq<(int, int)>
    decreases refs.len(),
{
    if refs.len() == 0 {
        edges
    } else {
        let e = resolve_refs(edges, notes, src, refs.drop_last());
        match last_titled(notes, crate::graph::lower_of(refs.last())) {
            Some(t) => with_link(e, src, t),
            None => e,
        }
    }
}

/// A note's path with the raw targets of its references.
pub type PendingView = (Seq<char>, Seq<Seq<char>>);

/// What the discovery pass records for resolution: each file with at least
/// one reference, with the targets of its references, in order.
pub open spec fn pending_of(files: Seq<SourceFile>) -> Seq<PendingView>
    decreases files.len(),
{
    if files.len() == 0 {
        seq![]
    } else {
        let f = files.last();
        if references(f.content@).len() > 0 {
            pending_of(files.drop_last()).push((f.path@, references(f.content@)))
        } else {
            pending_of(files.drop_last())
        }
    }
}

/// The edges that the resolution pass adds for the pending records, in order.
pub open spec fn resolved(notes: Seq<Note>, pending: Seq<PendingView>) -> Seq<(int, int)>
    decreases pending.len(),
{
    if pending.len() == 0 {
        seq![]
    } else {
        let p = pending.last();
        resolve_refs(resolved(notes, pending.drop_last()), notes, path_slot(notes, p.0), p.1)
    }
}

/// Number of reference targets over the pending records.
pub open spec fn total_refs(pending: Seq<PendingView>) -> int
    decreases pending.len(),
{
    if pending.len() == 0 {
        0
    } else {
        total_refs(pending.drop_last()) + pending.last().1.len()
    }
}

proof fn lemma_total_refs_prefix(pending: Seq<PendingView>, k: int)
    requires
        0 <= k <= pending.len(),
    ensures
        k < pending.len() ==> total_refs(pending.subrange(0, k + 1)) == total_refs(
            pending.subrange(0, k),
        ) + pending[k].1.len(),
        total_refs(pending.subrange(0, k)) <= total_refs(pending),
    decreases pending.len() - k,
{
    if k < pending.len() {
        assert(pending.subrange(0, k + 1).drop_last() =~= pending.subrange(0, k));
        lemma_total_refs_prefix(pending, k + 1);
    } else {
        assert(pending.subrange(0, k) =~= pending);
    }
}

proof fn lemma_with_note_keeps_paths(notes: Seq<Note>, p: String, t: String, q: Seq<char>)
    requires
        has_path(notes, q),
    ensures
        has_path(with_note(notes, p, t), q),
{
    let i = choose|i: int| 0 <= i < notes.len() && #[trigger] notes[i].path@ == q;
    assert(with_note(notes, p, t)[i] == notes[i]);
}

pub open spec fn pending_view(p: Seq<(String, Vec<String>)>) -> Seq<PendingView> {
    p.map_values(|e: (String, Vec<String>)| (e.0@, strings_view(e.1@)))
}

/// Where no reference target matches the normalized title of any note,
/// resolution adds no edge.
pub proof fn law_unresolved_adds_no_edge(notes: Seq<Note>, pending: Seq<PendingView>)
    requires
        forall|j: int, m: int|
            0 <= j < pending.len() && 0 <= m < pending[j].1.len() ==> last_titled(
                notes,
                crate::graph::lower_of(#[trigger] pending[j].1[m]),
            ) is None,
    ensures
        resolved(notes, pending) == Seq::<(int, int)>::empty(),
    decreases pending.len(),
{
    if pending.len() > 0 {
        let rest = pending.drop_last();
        assert forall|j: int, m: int|
            0 <= j < rest.len() && 0 <= m < rest[j].1.len() implies last_titled(
            notes,
            crate::graph::lower_of(#[trigger] rest[j].1[m]),
        ) is None by {
            assert(rest[j] == pending[j]);
        }
        law_unresolved_adds_no_edge(notes, rest);
        let last = pending.last().1;
        assert(last.subrange(0, last.len() as int) =~= last);
        lemma_unresolved_refs(notes, path_slot(notes, pending.last().0), pending.last().1, pending.len() - 1, pending);
    }
}

proof fn lemma_unresolved_refs(notes: Seq<Note>, src: int, refs: Seq<Seq<char>>, j: int, pending: Seq<PendingView>)
    requires
        0 <= j < pending.len(),
        refs.len() <= pending[j].1.len(),
        refs == pending[j].1.subrange(0, refs.len() as int),
        forall|j: int, m: int|
            0 <= j < pending.len() && 0 <= m < pending[j].1.len() ==> last_titled(
                notes,
                crate::graph::lower_of(#[trigger] pending[j].1[m]),
            ) is None,
    ensures
        resolve_refs(Seq::<(int, int)>::empty(), notes, src, refs) == Seq::<(int, int)>::empty(),
    decreases refs.len(),
{
    if refs.len() > 0 {
        let m = refs.len() - 1;
        assert(refs.drop_last() =~= pending[j].1.subrange(0, m));
        assert(refs.last() == pending[j].1[m]);
        lemma_unresolved_refs(notes, src, refs.drop_last(), j, pending);
    }
}

proof fn lemma_view_with_note(notes: Seq<Note>, p: String, t: String)
    ensures
        notes_view(with_note(notes, p, t)) == with_note_view(notes_view(notes), p@, t@),
{
    let nv = notes_view(notes);
    if has_path(notes, p@) {
        let i = choose|i: int| 0 <= i < notes.len() && #[trigger] notes[i].path@ == p@;
        assert(nv[i].0 == p@);
    } else {
        assert forall|i: int| 0 <= i < nv.len() implies #[trigger] nv[i].0 != p@ by {
            assert(nv[i].0 == notes[i].path@);
        }
        assert(notes_view(notes.push(Note { path: p, title: t })) =~= nv.push((p@, t@)));
    }
}

/// Scans a directory of notes and builds their graph.
pub struct Scanner {
    root: String,
}

impl Scanner {
    pub fn new(root: &str) -> (r: Scanner)
        ensures
            r.root_view() == root@,
    {
        Scanner { root: String::from_str(root) }
    }

    pub closed spec fn root_view(&self) -> Seq<char> {
        self.root@
    }

    /// The root directory.
    pub fn root(&self) -> (r: &str)
        ensures
            r@ == self.root_view(),
    {
        self.root.as_str()
    }

    /// Builds the graph of `files` in two passes: every file is registered
    /// as a note first; then each recorded reference is resolved by title
    /// into an edge from its note, and a reference that matches no title is
    /// dropped.
    pub fn build_graph(&self, files: &Vec<SourceFile>) -> (g: NoteGraph)
        requires
            files@.len() < u32::MAX - 1,
            total_refs(pending_of(files@)) < u32::MAX,
        ensures
            g.wf(),
            notes_view(g.notes()) == discovered(files@),
            g.edges() == resolved(g.notes(), pending_of(files@)),
    {
        let mut graph = NoteGraph::new();
        let mut pending: Vec<(String, Vec<String>)> = Vec::new();
        let mut k: usize = 0;
        while k < files.len()
            invariant
                graph.wf(),
                k <= files@.len(),
                files@.len() < u32::MAX - 1,
                graph.notes().len() <= k,
                notes_view(graph.notes()) == discovered(files@.subrange(0, k as int)),
                graph.edges() == Seq::<(int, int)>::empty(),
                pending_view(pending@) == pending_of(files@.subrange(0, k as int)),
                forall|j: int| 0 <= j < pending@.len() ==> has_path(graph.notes(), #[trigger] pending@[j].0@),
            decreases files@.len() - k,
        {
            let f = &files[k];
            let title = self.extract_title(f.path.as_str(), f.content.as_str());
            let refs = extract_wikilinks(f.content.as_str());
            let path = f.path.clone();
            let ghost old_notes = graph.notes();
            let ghost pg = path;
            let ghost tg = title;
            let id = graph.add_note(path, title);
            proof {
                lemma_view_with_note(old_notes, pg, tg);
                let pre = files@.subrange(0, k as int);
                assert(files@.subrange(0, k + 1).drop_last() =~= pre);
                assert(files@.subrange(0, k + 1).last() == files@[k as int]);
                assert(graph.notes()[id.index as int].path@ == f.path@);
                assert forall|j: int| 0 <= j < pending@.len() implies has_path(
                    graph.notes(),
                    #[trigger] pending@[j].0@,
                ) by {
                    lemma_with_note_keeps_paths(old_notes, pg, tg, pending@[j].0@);
                }
            }
            if refs.len() > 0 {
                let ghost pv = pending_view(pending@);
                let ghost prev = pending@;
                let pc = f.path.clone();
                let ghost pcg = pc;
                pending.push((pc, refs));
                assert(pending_view(pending@) =~= pv.push((f.path@, references(f.content@))));
                assert forall|j: int| 0 <= j < pending@.len() implies has_path(
                    graph.notes(),
                    #[trigger] pending@[j].0@,
                ) by {
                    if j < prev.len() {
                        assert(pending@[j] == prev[j]);
                        assert(has_path(graph.notes(), prev[j].0@));
                    } else {
                        assert(pending@[j].0 == pcg);
                        assert(graph.notes()[id.index as int].path@ == pending@[j].0@);
                    }
                }
            }
            k = k + 1;
        }
        assert(files@.subrange(0, k as int) =~= files@);
        let ghost notes = graph.notes();
        let ghost pv = pending_view(pending@);
        let mut j: usize = 0;
        while j < pending.len()
            invariant
                graph.wf(),
                graph.notes() == notes,
                pv == pending_view(pending@),
                j <= pv.len(),
                total_refs(pv) < u32::MAX,
                forall|i: int| 0 <= i < pending@.len() ==> has_path(notes, #[trigger] pending@[i].0@),
                graph.edges() == resolved(notes, pv.subrange(0, j as int)),
                graph.edges().len() <= total_refs(pv.subrange(0, j as int)),
            decreases pv.len() - j,
        {
            let entry = &pending[j];
            proof {
                lemma_total_refs_prefix(pv, j as int);
                lemma_total_refs_prefix(pv, j + 1);
                assert(entry.1@.len() == pv[j as int].1.len());
                assert(pv.subrange(0, j + 1).drop_last() =~= pv.subrange(0, j as int));
                assert(pv.subrange(0, j + 1).last() == pv[j as int]);
                assert(pv[j as int].0 == entry.0@);
            }
            let found = graph.find_by_path(&entry.0);
            match found {
                Some(src) => {
                    proof {
                        let c = path_slot(notes, entry.0@);
                        assert(has_path(notes, pending@[j as int].0@));
                        assert(notes[c].path@ == entry.0@);
                    }
                    let ghost base = graph.edges();
                    let refs = &entry.1;
                    let mut m: usize = 0;
                    while m < refs.len()
                        invariant
                            graph.wf(),
                            graph.notes() == notes,
                            m <= refs@.len(),
                            src.index < notes.len(),
                            src.index == path_slot(notes, pv[j as int].0),
                            strings_view(refs@) == pv[j as int].1,
                            graph.edges() == resolve_refs(base, notes, src.index as int, pv[j as int].1.subrange(0, m as int)),
                            graph.edges().len() <= base.len() + m,
                            base.len() + refs@.len() <= total_refs(pv),
                            total_refs(pv) < u32::MAX,
                        decreases refs@.len() - m,
                    {
                        let ghost rs = pv[j as int].1;
                        proof {
                            assert(rs.subrange(0, m + 1).drop_last() =~= rs.subrange(0, m as int));
                            assert(rs.subrange(0, m + 1).last() == refs@[m as int]@);
                        }
                        if let Some(target) = graph.find_by_title(refs[m].as_str()) {
                            graph.add_link(src, target);
                        }
                        m = m + 1;
                    }
                    assert(pv[j as int].1.subrange(0, m as int) =~= pv[j as int].1);
                },
                None => {
                    assert(has_path(notes, pending@[j as int].0@));
                },
            }
            j = j + 1;
        }
        assert(pv.subrange(0, j as int) =~= pv);
        graph
    }

    /// The title of a note: the text after `# ` on the first line that,
    /// trimmed, starts so; else the file name without its extension; else
    /// `Untitled`.
    pub fn extract_title(&self, path: &str, content: &str) -> (r: String)
        ensures
            r@ == title_of(path@, content@),
    {
        title_with_stem(file_stem(path), content)
    }
}

/// The title of a note whose file stem is `stem`: the text after `# ` on
/// the first line that, trimmed, starts so; else the stem; else `Untitled`.
pub fn title_with_stem(stem: Option<String>, content: &str) -> (r: String)
    ensures
        r@ == title_given(opt_view(stem), content@),
{
        let cs = chars_of(content);
        let n = cs.len();
        let mut i: usize = 0;
        loop
            invariant
                cs@ == content@,
                n == cs@.len(),
                i <= n,
                heading_from(content@, 0) == heading_from(content@, i as int),
            ensures
                heading_from(content@, 0) is None,
            decreases n - i,
        {
            let mut e: usize = i;
            while e < n && cs[e] != '\n'
                invariant
                    cs@ == content@,
                    n == cs@.len(),
                    i <= e <= n,
                    line_len(cs@, i as int) == (e - i) + line_len(cs@, e as int),
                decreases n - e,
            {
                e = e + 1;
            }
            assert(line_len(cs@, e as int) == 0);
            let mut a: usize = i;
            while a < e && is_whitespace(cs[a])
                invariant
                    cs@ == content@,
                    n == cs@.len(),
                    i <= a <= e <= n,
                    lead_ws(cs@, i as int, e as int) == (a - i) + lead_ws(cs@, a as int, e as int),
                decreases e - a,
            {
                a = a + 1;
            }
            assert(lead_ws(cs@, a as int, e as int) == 0);
            let mut b: usize = e;
            while b > a && is_whitespace(cs[b - 1])
                invariant
                    cs@ == content@,
                    n == cs@.len(),
                    i <= a <= b <= e <= n,
                    trail_ws(cs@, a as int, e as int) == (e - b) + trail_ws(cs@, a as int, b as int),
                decreases b - a,
            {
                b = b - 1;
            }
            assert(trail_ws(cs@, a as int, b as int) == 0);
            assert(line_heading(cs@, i as int, e as int) is Some <==> (b - a >= 2 && cs@[a as int]
                == '#' && cs@[a + 1] == ' '));
            if b - a >= 2 && cs[a] == '#' && cs[a + 1] == ' ' {
                assert(heading_from(content@, i as int) == Some(content@.subrange(a + 2, b as int)));
                return String::from_str(content.substring_char(a + 2, b));
            }
            assert(heading_from(content@, i as int) == if e < n {
                heading_from(content@, e + 1)
            } else {
                None
            });
            if e == n {
                break;
            }
            i = e + 1;
        }
        match stem {
            Some(stem) => stem,
            None => {
                let r = String::from_str("Untitled");
                proof {
                    reveal_strlit("Untitled");
                }
                assert(r@ =~= seq!['U', 'n', 't', 'i', 't', 'l', 'e', 'd']);
                r
            },
        }
}

} // verus!
