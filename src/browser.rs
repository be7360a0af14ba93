use crate::graph::{has_path, sources_into, NoteGraph, NoteId, Note, last_titled, lower_of};
use crate::pane::Pane;
use crate::parser::strings_view;
use crate::scanner::{path_slot, Scanner};
use vstd::prelude::*;

verus! {

/// Titles of the notes that link to the note at `path`; empty when no note has that path.
pub open spec fn backlink_titles(notes: Seq<Note>, edges: Seq<(int, int)>, path: Seq<char>) -> Seq<
    Seq<char>,
> {
    if has_path(notes, path) {
        sources_into(edges, path_slot(notes, path)).map_values(|i: int| notes[i].title@)
    } else {
        seq![]
    }
}

/// Index of the first element of `s` equal to `x`.
pub open spec fn first_index(s: Seq<Seq<char>>, x: Seq<char>) -> Option<int>
    decreases s.len(),
{
    if s.len() == 0 {
        None
    } else if s[0] == x {
        Some(0)
    } else {
        match first_index(s.drop_first(), x) {
            Some(i) => Some(i + 1),
            None => None,
        }
    }
}

/// State of the note browser: the graph, the sorted file list, the focused
/// pane, the two cursors, the preview text and the backlinks of the selected file.
pub struct App {
    pub scanner: Scanner,
    pub graph: NoteGraph,
    pub files: Vec<String>,
    pub active_pane: Pane,
    pub file_list_state: usize,
    pub backlink_list_state: usize,
    pub selected_content: String,
    pub backlinks: Vec<String>,
}

impl App {
    /// The backlinks shown are those of the selected file, with the cursor
    /// on the first; with no file selected none are shown.
    pub open spec fn backlinks_fresh(&self) -> bool {
        if self.file_list_state < self.files@.len() {
            &&& strings_view(self.backlinks@) == backlink_titles(
                self.graph.notes(),
                self.graph.edges(),
                self.files@[self.file_list_state as int]@,
            )
            &&& self.backlink_list_state == 0
        } else {
            self.backlinks@.len() == 0
        }
    }

    /// A browser over `graph` and `files` with the first file selected.
    /// The caller loads the selected file's text into `selected_content`.
    pub fn new(scanner: Scanner, graph: NoteGraph, files: Vec<String>) -> (r: App)
        requires
            graph.wf(),
        ensures
            r.graph == graph,
            r.files == files,
            r.active_pane == Pane::Files,
            r.file_list_state == 0,
            r.backlinks_fresh(),
            r.selected_content@.len() == 0,
    {
        let mut app = App {
            scanner,
            graph,
            files,
            active_pane: Pane::Files,
            file_list_state: 0,
            backlink_list_state: 0,
            selected_content: String::new(),
            backlinks: Vec::new(),
        };
        app.update_backlinks();
        app
    }

    /// Recomputes the backlinks of the selected file and puts their cursor
    /// on the first; with no file selected, clears them and the preview.
    pub fn update_backlinks(&mut self)
        requires
            old(self).graph.wf(),
        ensures
            final(self).backlinks_fresh(),
            final(self).graph == old(self).graph,
            final(self).files == old(self).files,
            final(self).active_pane == old(self).active_pane,
            final(self).file_list_state == old(self).file_list_state,
            old(self).file_list_state < old(self).files@.len() ==> final(self).selected_content
                == old(self).selected_content,
            old(self).file_list_state >= old(self).files@.len() ==> final(self).selected_content@.len()
                == 0 && final(self).backlink_list_state == old(self).backlink_list_state,
    {
        if self.file_list_state < self.files.len() {
            let mut titles: Vec<String> = Vec::new();
            let path = &self.files[self.file_list_state];
            match self.graph.find_by_path(path) {
                Some(id) => {
                    let notes = self.graph.backlinks(id);
                    let ghost src = sources_into(self.graph.edges(), id.index as int);
                    let mut k: usize = 0;
                    while k < notes.len()
                        invariant
                            k <= notes@.len(),
                            notes@.len() == src.len(),
                            forall|j: int| 0 <= j < notes@.len() ==> *(#[trigger] notes@[j]) == self.graph.notes()[src[j]],
                            strings_view(titles@) == src.subrange(0, k as int).map_values(|i: int| self.graph.notes()[i].title@),
                        decreases notes@.len() - k,
                    {
                        let ghost before = titles@;
                        let t = notes[k].title.clone();
                        assert(t@ == self.graph.notes()[src[k as int]].title@);
                        titles.push(t);
                        assert(titles@ == before.push(t));
                        assert(strings_view(titles@) =~= strings_view(before).push(t@));
                        assert(strings_view(titles@) =~= src.subrange(0, k + 1).map_values(|i: int| self.graph.notes()[i].title@));
                        k = k + 1;
                    }
                    assert(src.subrange(0, k as int) =~= src);
                },
                None => {
                    assert(strings_view(titles@) =~= Seq::<Seq<char>>::empty());
                },
            }
            self.backlinks = titles;
            self.backlink_list_state = 0;
        } else {
            self.selected_content = String::new();
            self.backlinks = Vec::new();
            assert(self.backlinks@.len() == 0);
        }
    }

    /// Moves focus to the next pane.
    pub fn next_pane(&mut self)
        ensures
            final(self).active_pane.position() == (old(self).active_pane.position() + 1) % 3,
            final(self).file_list_state == old(self).file_list_state,
            final(self).backlink_list_state == old(self).backlink_list_state,
    {
        self.active_pane = self.active_pane.next();
    }

    /// Moves focus to the previous pane.
    pub fn prev_pane(&mut self)
        ensures
            final(self).active_pane.position() == (old(self).active_pane.position() + 2) % 3,
            final(self).file_list_state == old(self).file_list_state,
            final(self).backlink_list_state == old(self).backlink_list_state,
    {
        self.active_pane = self.active_pane.prev();
    }

    /// Moves the cursor of the focused list up by one, where it can move.
    /// Returns whether the selected file changed, in which case the caller
    /// reloads the preview text.
    pub fn move_up(&mut self) -> (changed: bool)
        requires
            old(self).graph.wf(),
        ensures
            final(self).graph == old(self).graph,
            final(self).files == old(self).files,
            final(self).active_pane == old(self).active_pane,
            changed <==> (old(self).active_pane == Pane::Files && old(self).file_list_state > 0),
            changed ==> final(self).file_list_state == old(self).file_list_state - 1
                && final(self).backlinks_fresh(),
            old(self).active_pane == Pane::Backlinks ==> final(self).backlinks == old(self).backlinks
                && final(self).file_list_state == old(self).file_list_state
                && final(self).backlink_list_state == if old(self).backlink_list_state > 0 {
                    (old(self).backlink_list_state - 1) as usize
                } else {
                    0
                },
            !changed && old(self).active_pane != Pane::Backlinks ==> final(self).file_list_state
                == old(self).file_list_state && final(self).backlink_list_state
                == old(self).backlink_list_state && final(self).backlinks == old(self).backlinks,
    {
        match self.active_pane {
            Pane::Files => {
                if self.file_list_state > 0 {
                    self.file_list_state = self.file_list_state - 1;
                    self.update_backlinks();
                    return true;
                }
                false
            },
            Pane::Backlinks => {
                if self.backlink_list_state > 0 {
                    self.backlink_list_state = self.backlink_list_state - 1;
                }
                false
            },
            Pane::Preview => false,
        }
    }

    /// Moves the cursor of the focused list down by one, where it can move.
    /// Returns whether the selected file changed, in which case the caller
    /// reloads the preview text.
    pub fn move_down(&mut self) -> (changed: bool)
        requires
            old(self).graph.wf(),
        ensures
            final(self).graph == old(self).graph,
            final(self).files == old(self).files,
            final(self).active_pane == old(self).active_pane,
            changed <==> (old(self).active_pane == Pane::Files && old(self).file_list_state + 1
                < old(self).files@.len()),
            changed ==> final(self).file_list_state == old(self).file_list_state + 1
                && final(self).backlinks_fresh(),
            old(self).active_pane == Pane::Backlinks ==> final(self).backlinks == old(self).backlinks
                && final(self).file_list_state == old(self).file_list_state
                && final(self).backlink_list_state == if old(self).backlink_list_state + 1
                    < old(self).backlinks@.len() {
                    (old(self).backlink_list_state + 1) as usize
                } else {
                    old(self).backlink_list_state
                },
            !changed && old(self).active_pane != Pane::Backlinks ==> final(self).file_list_state
                == old(self).file_list_state && final(self).backlink_list_state
                == old(self).backlink_list_state && final(self).backlinks == old(self).backlinks,
    {
        match self.active_pane {
            Pane::Files => {
                if self.files.len() > 0 && self.file_list_state < self.files.len() - 1 {
                    self.file_list_state = self.file_list_state + 1;
                    self.update_backlinks();
                    return true;
                }
                false
            },
            Pane::Backlinks => {
                if self.backlinks.len() > 0 && self.backlink_list_state < self.backlinks.len() - 1 {
                    self.backlink_list_state = self.backlink_list_state + 1;
                }
                false
            },
            Pane::Preview => false,
        }
    }

    /// Acts on the focused list. On the files, refreshes the selected
    /// file's backlinks. On the backlinks, jumps to the file of the note
    /// whose title is under the cursor, if the title resolves and its path is
    /// listed. Returns whether the caller should reload the preview text.
    pub fn select(&mut self) -> (changed: bool)
        requires
            old(self).graph.wf(),
        ensures
            final(self).graph == old(self).graph,
            final(self).files == old(self).files,
            old(self).active_pane == Pane::Files ==> changed && final(self).backlinks_fresh()
                && final(self).active_pane == Pane::Files
                && final(self).file_list_state == old(self).file_list_state,
            old(self).active_pane == Pane::Preview ==> !changed && *final(self) == *old(self),
            old(self).active_pane == Pane::Backlinks && changed ==> ({
                let t = old(self).backlinks@[old(self).backlink_list_state as int]@;
                let target = last_titled(old(self).graph.notes(), lower_of(t));
                &&& old(self).backlink_list_state < old(self).backlinks@.len()
                &&& target is Some
                &&& first_index(strings_view(old(self).files@), old(self).graph.notes()[target->0].path@)
                    == Some(final(self).file_list_state as int)
                &&& final(self).active_pane == Pane::Files
                &&& final(self).backlinks_fresh()
            }),
            old(self).active_pane == Pane::Backlinks && !changed ==> *final(self) == *old(self) && (
                old(self).backlink_list_state < old(self).backlinks@.len() ==> ({
                    let t = old(self).backlinks@[old(self).backlink_list_state as int]@;
                    let target = last_titled(old(self).graph.notes(), lower_of(t));
                    target is None || first_index(
                        strings_view(old(self).files@),
                        old(self).graph.notes()[target->0].path@,
                    ) is None
                })),
    {
        match self.active_pane {
            Pane::Files => {
                self.update_backlinks();
                true
            },
            Pane::Backlinks => {
                if self.backlink_list_state < self.backlinks.len() {
                    if let Some(id) = self.graph.find_by_title(self.backlinks[self.backlink_list_state].as_str()) {
                        if let Some(note) = self.graph.get_note(id) {
                            if let Some(pos) = position_of(&self.files, &note.path) {
                                self.file_list_state = pos;
                                self.active_pane = Pane::Files;
                                self.update_backlinks();
                                return true;
                            }
                        }
                    }
                }
                false
            },
            Pane::Preview => false,
        }
    }

    /// The selected file's path, if the cursor is on one.
    pub fn selected_file(&self) -> (r: Option<String>)
        ensures
            self.file_list_state < self.files@.len() ==> r is Some && r->0@
                == self.files@[self.file_list_state as int]@,
            self.file_list_state >= self.files@.len() ==> r is None,
    {
        if self.file_list_state < self.files.len() {
            Some(self.files[self.file_list_state].clone())
        } else {
            None
        }
    }
}

/// Index of the first element of `files` equal to `path`.
fn position_of(files: &Vec<String>, path: &String) -> (r: Option<usize>)
    ensures
        r is None <==> first_index(strings_view(files@), path@) is None,
        r is Some ==> first_index(strings_view(files@), path@) == Some(r->0 as int),
{
    let ghost sv = strings_view(files@);
    let mut i: usize = 0;
    while i < files.len()
        invariant
            sv == strings_view(files@),
            i <= files@.len(),
            forall|k: int| 0 <= k < i ==> sv[k] != path@,
        decreases files@.len() - i,
    {
        if files[i] == *path {
            proof { lemma_first_index(sv, path@, i as int); }
            return Some(i);
        }
        i = i + 1;
    }
    proof { lemma_first_index_none(sv, path@); }
    None
}

proof fn lemma_first_index(s: Seq<Seq<char>>, x: Seq<char>, i: int)
    requires
        0 <= i < s.len(),
        s[i] == x,
        forall|k: int| 0 <= k < i ==> s[k] != x,
    ensures
        first_index(s, x) == Some(i),
    decreases i,
{
    if i > 0 {
        assert forall|k: int| 0 <= k < i - 1 implies s.drop_first()[k] != x by {
            assert(s.drop_first()[k] == s[k + 1]);
        }
        lemma_first_index(s.drop_first(), x, i - 1);
    }
}

proof fn lemma_first_index_none(s: Seq<Seq<char>>, x: Seq<char>)
    requires
        forall|k: int| 0 <= k < s.len() ==> s[k] != x,
    ensures
        first_index(s, x) is None,
    decreases s.len(),
{
    if s.len() > 0 {
        assert forall|k: int| 0 <= k < s.drop_first().len() implies s.drop_first()[k] != x by {
            assert(s.drop_first()[k] == s[k + 1]);
        }
        lemma_first_index_none(s.drop_first(), x);
    }
}

} // verus!
