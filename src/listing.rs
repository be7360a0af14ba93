use crate::parser::{chars_of, strings_view};
use vstd::prelude::*;
use vstd::seq_lib::group_to_multiset_ensures;

verus! {

/// Rank of a character in path order: the separator `/` below every other
/// character, the others by code point.
pub open spec fn path_rank(c: char) -> int {
    if c == '/' {
        0
    } else {
        c as u32 + 1
    }
}

/// Path order: lexicographic by `path_rank`. Between paths without empty
/// components this is the order of their `/`-separated components, each
/// compared by code point, where a component that is a prefix of another
/// comes first, and a path whose components are a prefix of another's
/// comes first (so `n/foo/bar.md` precedes `n/foo.md`).
pub open spec fn path_lt(a: Seq<char>, b: Seq<char>) -> bool
    decreases a.len(),
{
    if a.len() == 0 {
        b.len() > 0
    } else if b.len() == 0 {
        false
    } else if a[0] != b[0] {
        path_rank(a[0]) < path_rank(b[0])
    } else {
        path_lt(a.drop_first(), b.drop_first())
    }
}

/// Each element is no greater than the ones after it in path order.
pub open spec fn path_sorted(s: Seq<Seq<char>>) -> bool {
    forall|i: int, j: int| 0 <= i < j < s.len() ==> !path_lt(#[trigger] s[j], #[trigger] s[i])
}

proof fn lemma_path_lt_transitive(a: Seq<char>, b: Seq<char>, c: Seq<char>)
    requires
        path_lt(a, b),
        path_lt(b, c),
    ensures
        path_lt(a, c),
    decreases a.len(),
{
    if a.len() > 0 && b.len() > 0 && c.len() > 0 && a[0] == b[0] && b[0] == c[0] {
        lemma_path_lt_transitive(a.drop_first(), b.drop_first(), c.drop_first());
    }
}

proof fn lemma_path_lt_irreflexive(a: Seq<char>)
    ensures
        !path_lt(a, a),
    decreases a.len(),
{
    if a.len() > 0 {
        lemma_path_lt_irreflexive(a.drop_first());
    }
}

proof fn lemma_path_lt_common_prefix(p: Seq<char>, u: Seq<char>, v: Seq<char>)
    ensures
        path_lt(p + u, p + v) == path_lt(u, v),
    decreases p.len(),
{
    if p.len() > 0 {
        assert((p + u).drop_first() =~= p.drop_first() + u);
        assert((p + v).drop_first() =~= p.drop_first() + v);
        lemma_path_lt_common_prefix(p.drop_first(), u, v);
    }
}

/// Paths that agree up to some point are ordered by what follows: one that
/// continues into a subdirectory comes before one that continues with any
/// other character, and one that stops there comes before both; so the
/// contents of a folder `x/` precede a sibling file `x.md`.
pub proof fn law_path_order_by_components(p: Seq<char>, x: Seq<char>, c: char, y: Seq<char>)
    requires
        c != '/',
    ensures
        path_lt(p + seq!['/'] + x, p + seq![c] + y),
        path_lt(p, p + seq![c] + y),
        path_lt(p, p + seq!['/'] + x),
{
    lemma_path_lt_common_prefix(p, seq!['/'] + x, seq![c] + y);
    lemma_path_lt_common_prefix(p, Seq::<char>::empty(), seq![c] + y);
    lemma_path_lt_common_prefix(p, Seq::<char>::empty(), seq!['/'] + x);
    assert(p + seq!['/'] + x =~= p + (seq!['/'] + x));
    assert(p + seq![c] + y =~= p + (seq![c] + y));
    assert(p + Seq::<char>::empty() =~= p);
    assert((seq!['/'] + x)[0] == '/');
    assert((seq![c] + y)[0] == c);
}

fn rank(c: char) -> (r: u64)
    ensures
        r == path_rank(c),
{
    if c == '/' {
        0
    } else {
        c as u32 as u64 + 1
    }
}

fn path_less(a: &String, b: &String) -> (r: bool)
    ensures
        r == path_lt(a@, b@),
{
    let x = chars_of(a.as_str());
    let y = chars_of(b.as_str());
    let mut i: usize = 0;
    assert(a@.subrange(0, a@.len() as int) =~= a@);
    assert(b@.subrange(0, b@.len() as int) =~= b@);
    while i < x.len() && i < y.len() && x[i] == y[i]
        invariant
            x@ == a@,
            y@ == b@,
            i <= x@.len(),
            i <= y@.len(),
            path_lt(a@, b@) == path_lt(a@.subrange(i as int, a@.len() as int), b@.subrange(i as int, b@.len() as int)),
        decreases x@.len() - i,
    {
        proof {
            let sa = a@.subrange(i as int, a@.len() as int);
            let sb = b@.subrange(i as int, b@.len() as int);
            assert(sa.drop_first() =~= a@.subrange(i + 1, a@.len() as int));
            assert(sb.drop_first() =~= b@.subrange(i + 1, b@.len() as int));
        }
        i = i + 1;
    }
    if i == x.len() {
        i < y.len()
    } else if i == y.len() {
        false
    } else {
        rank(x[i]) < rank(y[i])
    }
}

/// The paths in path order (`path_lt`); equal paths keep their relative order.
pub fn sort_paths(paths: Vec<String>) -> (r: Vec<String>)
    ensures
        path_sorted(strings_view(r@)),
        strings_view(r@).to_multiset() == strings_view(paths@).to_multiset(),
{
    broadcast use group_to_multiset_ensures;

    let mut out: Vec<String> = Vec::new();
    let mut k: usize = 0;
    while k < paths.len()
        invariant
            k <= paths@.len(),
            path_sorted(strings_view(out@)),
            strings_view(out@).to_multiset() == strings_view(paths@.subrange(0, k as int)).to_multiset(),
        decreases paths@.len() - k,
    {
        let p = paths[k].clone();
        let mut pos: usize = 0;
        while pos < out.len() && !path_less(&p, &out[pos])
            invariant
                pos <= out@.len(),
                forall|i: int| 0 <= i < pos ==> !path_lt(p@, #[trigger] out@[i]@),
                p@ == paths@[k as int]@,
            decreases out@.len() - pos,
        {
            pos = pos + 1;
        }
        let ghost before = strings_view(out@);
        proof {
            if pos < out@.len() {
                assert(path_lt(p@, before[pos as int]));
            }
        }
        out.insert(pos, p);
        proof {
            let sv = strings_view(out@);
            let prev = strings_view(paths@.subrange(0, k as int));
            assert(sv =~= before.insert(pos as int, p@));
            assert(strings_view(paths@.subrange(0, k + 1)) =~= prev.push(paths@[k as int]@));
            vstd::seq_lib::to_multiset_insert(before, pos as int, p@);
            vstd::seq_lib::to_multiset_build(prev, paths@[k as int]@);
            assert forall|i: int, j: int| 0 <= i < j < sv.len() implies !path_lt(
                #[trigger] sv[j],
                #[trigger] sv[i],
            ) by {
                if j < pos {
                    assert(sv[i] == before[i] && sv[j] == before[j]);
                } else if j == pos {
                    assert(sv[i] == before[i] && sv[j] == p@);
                } else if i < pos {
                    assert(sv[i] == before[i] && sv[j] == before[j - 1]);
                } else if i == pos {
                    assert(sv[i] == p@ && sv[j] == before[j - 1]);
                    assert(path_lt(p@, before[pos as int]));
                    if path_lt(sv[j], p@) {
                        lemma_path_lt_transitive(sv[j], p@, before[pos as int]);
                        if pos == j - 1 {
                            lemma_path_lt_irreflexive(before[pos as int]);
                        }
                    }
                } else {
                    assert(sv[i] == before[i - 1] && sv[j] == before[j - 1]);
                }
            }
        }
        k = k + 1;
    }
    assert(paths@.subrange(0, k as int) =~= paths@);
    out
}

} // verus!
