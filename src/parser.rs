use pulldown_cmark::{Event, Parser, Tag, TagEnd};
use vstd::prelude::*;

verus! {

/// Length of the run of characters from `i` that may stand in a reference
/// target: anything but `]` and `|`.
pub open spec fn target_run(s: Seq<char>, i: int) -> nat
    decreases s.len() - i,
{
    if 0 <= i < s.len() && s[i] != ']' && s[i] != '|' {
        1 + target_run(s, i + 1)
    } else {
        0
    }
}

/// Length of the run of characters from `i` that may stand in display
/// text: anything but `]`.
pub open spec fn display_run(s: Seq<char>, i: int) -> nat
    decreases s.len() - i,
{
    if 0 <= i < s.len() && s[i] != ']' {
        1 + display_run(s, i + 1)
    } else {
        0
    }
}

/// Length of the reference `[[target]]` or `[[target|display]]` that starts
/// at `i`, with a non-empty target and display; 0 where none starts there.
pub open spec fn match_len(s: Seq<char>, i: int) -> nat {
    if 0 <= i && i + 1 < s.len() && s[i] == '[' && s[i + 1] == '[' {
        let t = target_run(s, i + 2);
        let j = i + 2 + t;
        if t == 0 {
            0
        } else if j < s.len() && s[j] == '|' {
            let d = display_run(s, j + 1);
            let k = j + 1 + d;
            if d > 0 && k + 1 < s.len() && s[k + 1] == ']' {
                (k + 2 - i) as nat
            } else {
                0
            }
        } else if j + 1 < s.len() && s[j + 1] == ']' {
            (t + 4) as nat
        } else {
            0
        }
    } else {
        0
    }
}

/// Targets of the references found scanning left to right from `i`; after
/// a reference the scan resumes past its closing brackets.
pub open spec fn references_from(s: Seq<char>, i: int) -> Seq<Seq<char>>
    decreases s.len() - i,
{
    if i < 0 || i >= s.len() {
        seq![]
    } else if match_len(s, i) > 0 {
        seq![s.subrange(i + 2, i + 2 + target_run(s, i + 2))] + references_from(
            s,
            i + match_len(s, i),
        )
    } else {
        references_from(s, i + 1)
    }
}

/// Targets of all references in `s`, in order of appearance, repeats kept.
pub open spec fn references(s: Seq<char>) -> Seq<Seq<char>> {
    references_from(s, 0)
}

/// The characters of `s`, one per element.
pub fn chars_of(s: &str) -> (r: Vec<char>)
    ensures
        r@ == s@,
{
    let mut out: Vec<char> = Vec::new();
    for c in it: s.chars()
        invariant
            out@ == it.seq().subrange(0, it.index() as int),
    {
        out.push(c);
    }
    assert(out@ =~= s@);
    out
}

fn target_run_at(cs: &Vec<char>, i: usize) -> (r: usize)
    requires
        i <= cs@.len(),
    ensures
        r == target_run(cs@, i as int),
        i + r <= cs@.len(),
{
    let mut j: usize = i;
    while j < cs.len() && cs[j] != ']' && cs[j] != '|'
        invariant
            i <= j <= cs@.len(),
            target_run(cs@, i as int) == (j - i) + target_run(cs@, j as int),
        decreases cs@.len() - j,
    {
        j = j + 1;
    }
    j - i
}

fn display_run_at(cs: &Vec<char>, i: usize) -> (r: usize)
    requires
        i <= cs@.len(),
    ensures
        r == display_run(cs@, i as int),
        i + r <= cs@.len(),
{
    let mut j: usize = i;
    while j < cs.len() && cs[j] != ']'
        invariant
            i <= j <= cs@.len(),
            display_run(cs@, i as int) == (j - i) + display_run(cs@, j as int),
        decreases cs@.len() - j,
    {
        j = j + 1;
    }
    j - i
}

fn match_len_at(cs: &Vec<char>, i: usize) -> (r: usize)
    requires
        i < cs@.len(),
    ensures
        r == match_len(cs@, i as int),
        i + r <= cs@.len(),
{
    let n = cs.len();
    if i + 1 < n && cs[i] == '[' && cs[i + 1] == '[' {
        let t = target_run_at(cs, i + 2);
        let j = i + 2 + t;
        if t == 0 {
            0
        } else if j < n && cs[j] == '|' {
            let d = display_run_at(cs, j + 1);
            let k = j + 1 + d;
            if d > 0 && k < n - 1 && cs[k + 1] == ']' {
                k + 2 - i
            } else {
                0
            }
        } else if j < n - 1 && cs[j + 1] == ']' {
            t + 4
        } else {
            0
        }
    } else {
        0
    }
}

/// Extracts the targets of `[[target]]` and `[[target|display]]`
/// references, left to right, keeping repeats.
pub fn extract_wikilinks(content: &str) -> (r: Vec<String>)
    ensures
        strings_view(r@) == references(content@),
{
    let cs = chars_of(content);
    let n = cs.len();
    let mut out: Vec<String> = Vec::new();
    let mut i: usize = 0;
    while i < n
        invariant
            cs@ == content@,
            n == cs@.len(),
            i <= n,
            references(content@) == out@.map_values(|x: String| x@) + references_from(
                content@,
                i as int,
            ),
        decreases n - i,
    {
        let m = match_len_at(&cs, i);
        if m > 0 {
            let t = target_run_at(&cs, i + 2);
            let target = String::from_str(content.substring_char(i + 2, i + 2 + t));
            let ghost before = out@.map_values(|x: String| x@);
            out.push(target);
            assert(out@.map_values(|x: String| x@) =~= before.push(target@));
            assert(references_from(content@, i as int) == seq![target@] + references_from(
                content@,
                i + m,
            ));
            assert(before.push(target@) + references_from(content@, i + m) =~= before + (seq![
                target@,
            ] + references_from(content@, i + m)));
            i = i + m;
        } else {
            i = i + 1;
        }
    }
    assert(out@.map_values(|x: String| x@) + references_from(content@, i as int) =~= out@.map_values(
        |x: String| x@,
    ));
    out
}

/// The markdown parser's events that the structure of a note depends on.
#[derive(Debug, Clone, PartialEq, Eq)]
pub enum MdEvent {
    HeadingStart,
    HeadingEnd,
    Text(String),
    LinkStart(String),
    Other,
}

/// What pulldown-cmark's parser yields for a text, reduced to `MdEvent`s.
pub uninterp spec fn markdown_events(s: Seq<char>) -> Seq<MdEvent>;

/// Relies on pulldown-cmark's `Parser`: the events for a text depend on the
/// text alone; each is reduced to the part the note structure reads.
#[verifier::external_body]
fn md_events(content: &str) -> (r: Vec<MdEvent>)
    ensures
        r@ == markdown_events(content@),
{
    Parser::new(content).map(|e| match e {
        Event::Start(Tag::Heading { .. }) => MdEvent::HeadingStart,
        Event::End(TagEnd::Heading(_)) => MdEvent::HeadingEnd,
        Event::Text(t) => MdEvent::Text(t.to_string()),
        Event::Start(Tag::Link { dest_url, .. }) => MdEvent::LinkStart(dest_url.to_string()),
        _ => MdEvent::Other,
    }).collect()
}

/// Structure read from a markdown document.
#[derive(Debug)]
pub struct ParsedNote {
    pub title: Option<String>,
    pub headings: Vec<String>,
    pub links: Vec<String>,
    pub wikilinks: Vec<String>,
}

/// State of the walk over the events: title, headings, link destinations,
/// whether a heading is open, and the text of the open heading.
pub type WalkState = (Option<Seq<char>>, Seq<Seq<char>>, Seq<Seq<char>>, bool, Seq<char>);

/// One step of the walk over the events.
pub open spec fn walk_step(st: WalkState, e: MdEvent) -> WalkState {
    match e {
        MdEvent::HeadingStart => (st.0, st.1, st.2, true, seq![]),
        MdEvent::HeadingEnd => (
            if st.0 is None {
                Some(st.4)
            } else {
                st.0
            },
            st.1.push(st.4),
            st.2,
            false,
            st.4,
        ),
        MdEvent::Text(t) => if st.3 {
            (st.0, st.1, st.2, st.3, st.4 + t@)
        } else {
            st
        },
        MdEvent::LinkStart(d) => (st.0, st.1, st.2.push(d@), st.3, st.4),
        MdEvent::Other => st,
    }
}

/// The state after walking all of `events` from the empty state.
pub open spec fn walk(events: Seq<MdEvent>) -> WalkState
    decreases events.len(),
{
    if events.len() == 0 {
        (None, seq![], seq![], false, seq![])
    } else {
        walk_step(walk(events.drop_last()), events.last())
    }
}

pub open spec fn strings_view(v: Seq<String>) -> Seq<Seq<char>> {
    v.map_values(|x: String| x@)
}

/// Builds the structure of a note from its parser events: the first
/// heading's text is the title, every heading's text is listed, every link
/// destination is listed, and the references come from the raw content.
pub fn parse_events(events: &Vec<MdEvent>, content: &str) -> (r: ParsedNote)
    ensures
        r.title is None <==> walk(events@).0 is None,
        r.title is Some ==> r.title->0@ == walk(events@).0->0,
        strings_view(r.headings@) == walk(events@).1,
        strings_view(r.links@) == walk(events@).2,
        strings_view(r.wikilinks@) == references(content@),
{
    let mut title: Option<String> = None;
    let mut headings: Vec<String> = Vec::new();
    let mut links: Vec<String> = Vec::new();
    let mut in_heading = false;
    let mut text = String::new();
    let mut k: usize = 0;
    while k < events.len()
        invariant
            k <= events@.len(),
            ({
                let st = walk(events@.subrange(0, k as int));
                &&& (title is None <==> st.0 is None)
                &&& (title is Some ==> title->0@ == st.0->0)
                &&& strings_view(headings@) == st.1
                &&& strings_view(links@) == st.2
                &&& in_heading == st.3
                &&& text@ == st.4
            }),
        decreases events@.len() - k,
    {
        proof {
            assert(events@.subrange(0, k + 1).drop_last() =~= events@.subrange(0, k as int));
            assert(events@.subrange(0, k + 1).last() == events@[k as int]);
        }
        let ghost hv = strings_view(headings@);
        let ghost lv = strings_view(links@);
        match &events[k] {
            MdEvent::HeadingStart => {
                in_heading = true;
                text = String::new();
            },
            MdEvent::HeadingEnd => {
                in_heading = false;
                if title.is_none() {
                    title = Some(text.clone());
                }
                headings.push(text.clone());
                assert(strings_view(headings@) =~= hv.push(text@));
            },
            MdEvent::Text(t) => {
                if in_heading {
                    text.append(t.as_str());
                }
            },
            MdEvent::LinkStart(d) => {
                links.push(d.clone());
                assert(strings_view(links@) =~= lv.push(d@));
            },
            MdEvent::Other => {},
        }
        k = k + 1;
    }
    assert(events@.subrange(0, k as int) =~= events@);
    ParsedNote { title, headings, links, wikilinks: extract_wikilinks(content) }
}

/// Parses markdown content into its title, headings, link destinations
/// and references.
pub fn parse_markdown(content: &str) -> (r: ParsedNote)
    ensures
        r.title is None <==> walk(markdown_events(content@)).0 is None,
        r.title is Some ==> r.title->0@ == walk(markdown_events(content@)).0->0,
        strings_view(r.headings@) == walk(markdown_events(content@)).1,
        strings_view(r.links@) == walk(markdown_events(content@)).2,
        strings_view(r.wikilinks@) == references(content@),
{
    let events = md_events(content);
    parse_events(&events, content)
}

} // verus!
