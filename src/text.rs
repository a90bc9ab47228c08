//! Searching text for fragments.
use vstd::prelude::*;
use crate::align::views;

verus! {

/// `n` occurs in `h` starting at `i`.
pub open spec fn occurs_at(h: Seq<char>, n: Seq<char>, i: int) -> bool {
    0 <= i && i + n.len() <= h.len() && h.subrange(i, i + n.len()) == n
}

/// `n` occurs somewhere in `h`.
pub open spec fn has_fragment(h: Seq<char>, n: Seq<char>) -> bool {
    exists|i: int| occurs_at(h, n, i)
}

/// The characters of `s`.
pub fn chars_of(s: &str) -> (r: Vec<char>)
    ensures
        r@ == s@,
{
    let mut v: Vec<char> = Vec::new();
    for c in it: s.chars()
        invariant
            v@ == it.seq().take(it.index() as int),
    {
        v.push(c);
        proof {
            assert(v@ =~= it.seq().take(it.index() as int + 1));
        }
    }
    v
}

/// Whether `n` occurs at `i` in `h`.
fn matches_at(h: &Vec<char>, n: &Vec<char>, i: usize) -> (r: bool)
    requires
        i + n@.len() <= h@.len(),
    ensures
        r == occurs_at(h@, n@, i as int),
{
    let hl = h.len();
    let mut k: usize = 0;
    while k < n.len()
        invariant
            i + n@.len() <= h@.len(),
            hl == h@.len(),
            k <= n@.len(),
            forall|j: int| 0 <= j < k ==> h@[i + j] == n@[j],
        decreases n.len() - k,
    {
        if h[i + k] != n[k] {
            proof {
                assert(h@.subrange(i as int, i + n@.len())[k as int] != n@[k as int]);
            }
            return false;
        }
        k = k + 1;
    }
    proof {
        assert(h@.subrange(i as int, i + n@.len()) =~= n@);
    }
    true
}

/// Whether `needle` occurs in `hay`.
pub fn contains_fragment(hay: &str, needle: &str) -> (r: bool)
    ensures
        r == has_fragment(hay@, needle@),
{
    let h = chars_of(hay);
    let n = chars_of(needle);
    if n.len() > h.len() {
        proof {
            assert forall|i: int| !occurs_at(hay@, needle@, i) by {}
        }
        return false;
    }
    let last = h.len() - n.len();
    let mut i: usize = 0;
    while i < last
        invariant
            i <= last,
            last + n@.len() == h@.len(),
            h@ == hay@,
            n@ == needle@,
            forall|j: int| 0 <= j < i ==> !occurs_at(hay@, needle@, j),
        decreases last - i,
    {
        if matches_at(&h, &n, i) {
            return true;
        }
        i = i + 1;
    }
    if matches_at(&h, &n, last) {
        return true;
    }
    proof {
        assert forall|j: int| !occurs_at(hay@, needle@, j) by {
            if 0 <= j < i {
            }
        }
    }
    false
}

/// The place of the first of `f` that does not occur in `h`.
pub open spec fn first_absent(h: Seq<char>, f: Seq<Seq<char>>) -> Option<int>
    decreases f.len(),
{
    if f.len() == 0 {
        None
    } else {
        match first_absent(h, f.drop_last()) {
            Some(k) => Some(k),
            None => if has_fragment(h, f.last()) { None } else { Some(f.len() - 1) },
        }
    }
}

/// The place named is one of `f` that does not occur, and all before it do.
pub proof fn lemma_first_absent_place(h: Seq<char>, f: Seq<Seq<char>>)
    ensures
        match first_absent(h, f) {
            Some(k) => 0 <= k < f.len() && !has_fragment(h, f[k]) && forall|j: int|
                0 <= j < k ==> has_fragment(h, #[trigger] f[j]),
            None => forall|j: int| 0 <= j < f.len() ==> has_fragment(h, #[trigger] f[j]),
        },
    decreases f.len(),
{
    if f.len() > 0 {
        let g = f.drop_last();
        lemma_first_absent_place(h, g);
        match first_absent(h, g) {
            Some(k) => {
                assert forall|j: int| 0 <= j < k implies has_fragment(h, #[trigger] f[j]) by {
                    assert(g[j] == f[j]);
                }
                assert(g[k] == f[k]);
            },
            None => {
                assert forall|j: int| 0 <= j < f.len() - 1 implies has_fragment(h, #[trigger] f[j]) by {
                    assert(g[j] == f[j]);
                }
            },
        }
    }
}

proof fn lemma_first_absent_prefix(h: Seq<char>, f: Seq<Seq<char>>, m: int)
    requires
        0 <= m <= f.len(),
        first_absent(h, f.take(m)) is Some,
    ensures
        first_absent(h, f) == first_absent(h, f.take(m)),
    decreases f.len() - m,
{
    if m < f.len() {
        assert(f.take(m + 1).drop_last() == f.take(m));
        lemma_first_absent_prefix(h, f, m + 1);
    } else {
        assert(f.take(m) == f);
    }
}

/// The place of the first of `fragments` that does not occur in `hay`.
pub fn first_missing(hay: &str, fragments: &Vec<String>) -> (r: Option<usize>)
    ensures
        match r {
            Some(k) => k < fragments@.len() && first_absent(hay@, views(fragments@)) == Some(k as int),
            None => first_absent(hay@, views(fragments@)) is None,
        },
{
    let ghost f = views(fragments@);
    let mut k: usize = 0;
    while k < fragments.len()
        invariant
            k <= fragments@.len(),
            f == views(fragments@),
            first_absent(hay@, f.take(k as int)) is None,
        decreases fragments.len() - k,
    {
        proof {
            assert(f.take(k + 1).drop_last() == f.take(k as int));
        }
        if !contains_fragment(hay, fragments[k].as_str()) {
            proof {
                lemma_first_absent_prefix(hay@, f, k + 1);
                lemma_first_absent_place(hay@, f);
            }
            return Some(k);
        }
        k = k + 1;
    }
    proof {
        assert(f.take(k as int) == f);
    }
    None
}

/// Whether `names` holds `name`.
pub fn holds_name(names: &Vec<String>, name: &String) -> (r: bool)
    ensures
        r == exists|j: int| 0 <= j < names@.len() && #[trigger] names@[j]@ == name@,
{
    let mut k: usize = 0;
    while k < names.len()
        invariant
            k <= names@.len(),
            forall|j: int| 0 <= j < k ==> #[trigger] names@[j]@ != name@,
        decreases names.len() - k,
    {
        if names[k] == *name {
            return true;
        }
        k = k + 1;
    }
    false
}

} // verus!
