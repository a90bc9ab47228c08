//! Splitting text into lines and aligning two sequences of lines.
use vstd::prelude::*;

verus! {

/// The raw pieces of `s` between `'\n'` characters (there is always one more
/// piece than there are newlines).
pub open spec fn segments(s: Seq<char>) -> Seq<Seq<char>>
    decreases s.len(),
{
    if s.len() == 0 {
        seq![Seq::<char>::empty()]
    } else {
        let p = segments(s.drop_last());
        if s.last() == '\n' {
            p.push(Seq::<char>::empty())
        } else {
            p.update(p.len() - 1, p.last().push(s.last()))
        }
    }
}

/// A terminated line loses one carriage return before its newline.
pub open spec fn strip_cr(l: Seq<char>) -> Seq<char> {
    if l.len() > 0 && l.last() == '\r' {
        l.drop_last()
    } else {
        l
    }
}

/// The lines of `s`: pieces ended by `"\n"` or `"\r\n"`, where an empty
/// piece after the last newline is no line.
pub open spec fn lines_of(s: Seq<char>) -> Seq<Seq<char>> {
    let segs = segments(s);
    let n = if segs.last().len() == 0 { segs.len() - 1 } else { segs.len() as int };
    Seq::new(n as nat, |i: int| if i < segs.len() - 1 { strip_cr(segs[i]) } else { segs[i] })
}

pub open spec fn views(v: Seq<String>) -> Seq<Seq<char>> {
    v.map_values(|x: String| x@)
}

proof fn lemma_segments_nonempty(s: Seq<char>)
    ensures
        segments(s).len() >= 1,
    decreases s.len(),
{
    if s.len() > 0 {
        lemma_segments_nonempty(s.drop_last());
    }
}

/// Appends one character to a string.
/// Relies on `String::push`.
#[verifier::external_body]
pub(crate) fn push_char(s: &mut String, c: char)
    ensures
        final(s)@ == old(s)@.push(c),
{
    s.push(c)
}

/// Splits `s` into its lines, as `str::lines` does.
pub fn split_lines(s: &str) -> (r: Vec<String>)
    ensures
        views(r@) == lines_of(s@),
{
    let mut done: Vec<String> = Vec::new();
    // the current piece is `cur` followed by a carriage return when `cr` holds
    let mut cur = String::new();
    let mut cr = false;
    let n = s.unicode_len();
    let mut i: usize = 0;
    while i < n
        invariant
            n == s@.len(),
            i <= n,
            segments(s@.take(i as int)).len() == done.len() + 1,
            forall|j: int|
                0 <= j < done.len() ==> #[trigger] done@[j]@ == strip_cr(
                    segments(s@.take(i as int))[j],
                ),
            segments(s@.take(i as int)).last() == if cr {
                cur@.push('\r')
            } else {
                cur@
            },
            !cr ==> cur@.len() == 0 || cur@.last() != '\r',
        decreases n - i,
    {
        let c = s.get_char(i);
        let ghost prev = segments(s@.take(i as int));
        proof {
            assert(s@.take(i + 1).drop_last() == s@.take(i as int));
            lemma_segments_nonempty(s@.take(i as int));
        }
        if c == '\n' {
            proof {
                assert(strip_cr(prev.last()) == cur@);
            }
            done.push(cur);
            cur = String::new();
            cr = false;
        } else if c == '\r' {
            if cr {
                push_char(&mut cur, '\r');
            }
            cr = true;
        } else {
            if cr {
                push_char(&mut cur, '\r');
            }
            push_char(&mut cur, c);
            cr = false;
        }
        i = i + 1;
        proof {
            let next = segments(s@.take(i as int));
            assert forall|j: int| 0 <= j < done.len() implies #[trigger] done@[j]@ == strip_cr(
                next[j],
            ) by {
                if j < prev.len() - 1 {
                    assert(next[j] == prev[j]);
                }
            }
        }
    }
    proof {
        assert(s@.take(n as int) == s@);
    }
    if cr {
        push_char(&mut cur, '\r');
    }
    if cur.as_str().unicode_len() > 0 {
        done.push(cur);
    }
    proof {
        assert(views(done@) =~= lines_of(s@));
    }
    done
}

/// One entry of an alignment of two sequences of lines.
#[derive(Debug)]
pub enum DiffLine {
    /// A line only the left side has.
    Left(String),
    /// A line both sides have: the left one and the right one, which are equal.
    Both(String, String),
    /// A line only the right side has.
    Right(String),
}

/// The left lines of an alignment, in order.
pub open spec fn left_parts(d: Seq<DiffLine>) -> Seq<Seq<char>>
    decreases d.len(),
{
    if d.len() == 0 {
        Seq::empty()
    } else {
        let p = left_parts(d.drop_last());
        match d.last() {
            DiffLine::Left(l) => p.push(l@),
            DiffLine::Both(l, _) => p.push(l@),
            DiffLine::Right(_) => p,
        }
    }
}

/// The right lines of an alignment, in order.
pub open spec fn right_parts(d: Seq<DiffLine>) -> Seq<Seq<char>>
    decreases d.len(),
{
    if d.len() == 0 {
        Seq::empty()
    } else {
        let p = right_parts(d.drop_last());
        match d.last() {
            DiffLine::Left(_) => p,
            DiffLine::Both(_, r) => p.push(r@),
            DiffLine::Right(r) => p.push(r@),
        }
    }
}

/// The number of entries that pair a left line with a right line.
pub open spec fn count_both(d: Seq<DiffLine>) -> nat
    decreases d.len(),
{
    if d.len() == 0 {
        0
    } else {
        count_both(d.drop_last()) + if d.last() is Both { 1nat } else { 0nat }
    }
}

/// The length of a longest common subsequence of `a` and `b`.
pub open spec fn lcs_len(a: Seq<Seq<char>>, b: Seq<Seq<char>>) -> nat
    decreases a.len() + b.len(),
{
    if a.len() == 0 || b.len() == 0 {
        0
    } else if a.last() == b.last() {
        1 + lcs_len(a.drop_last(), b.drop_last())
    } else {
        let x = lcs_len(a.drop_last(), b);
        let y = lcs_len(a, b.drop_last());
        if x >= y { x } else { y }
    }
}

/// Paired lines are equal.
pub open spec fn pairs_equal(d: Seq<DiffLine>) -> bool {
    forall|i: int| 0 <= i < d.len() ==> (#[trigger] d[i] is Both ==> d[i]->Both_0@ == d[i]->Both_1@)
}

/// `d` aligns `a` with `b`: each side is recovered in order, paired lines are
/// equal, and as many lines are paired as a longest common subsequence has.
pub open spec fn is_alignment(d: Seq<DiffLine>, a: Seq<Seq<char>>, b: Seq<Seq<char>>) -> bool {
    &&& left_parts(d) == a
    &&& right_parts(d) == b
    &&& pairs_equal(d)
    &&& count_both(d) == lcs_len(a, b)
}

/// No entry of `d` is a line of one side only.
pub open spec fn all_paired(d: Seq<DiffLine>) -> bool {
    forall|i: int| 0 <= i < d.len() ==> #[trigger] d[i] is Both
}

/// Relies on `diff::slice`: a longest-common-subsequence alignment of two
/// slices, comparing items with `==`.
#[verifier::external_body]
fn slice_diff(left: &Vec<String>, right: &Vec<String>) -> (r: Vec<DiffLine>)
    ensures
        is_alignment(r@, views(left@), views(right@)),
{
    diff::slice(left.as_slice(), right.as_slice()).into_iter().map(|d| match d {
        diff::Result::Left(l) => DiffLine::Left(l.clone()),
        diff::Result::Both(l, r) => DiffLine::Both(l.clone(), r.clone()),
        diff::Result::Right(r) => DiffLine::Right(r.clone()),
    }).collect()
}

/// Aligns the lines of `left` with the lines of `right`.
pub fn align(left: &str, right: &str) -> (r: Vec<DiffLine>)
    ensures
        is_alignment(r@, lines_of(left@), lines_of(right@)),
{
    let l = split_lines(left);
    let r = split_lines(right);
    slice_diff(&l, &r)
}

/// Whether every entry pairs a left line with a right line.
pub fn is_identical(d: &Vec<DiffLine>) -> (r: bool)
    ensures
        r == all_paired(d@),
{
    let mut i: usize = 0;
    while i < d.len()
        invariant
            i <= d.len(),
            forall|j: int| 0 <= j < i ==> #[trigger] d@[j] is Both,
        decreases d.len() - i,
    {
        match &d[i] {
            DiffLine::Both(_, _) => {},
            _ => {
                return false;
            },
        }
        i = i + 1;
    }
    true
}

proof fn lemma_lcs_self(a: Seq<Seq<char>>)
    ensures
        lcs_len(a, a) == a.len(),
    decreases a.len(),
{
    if a.len() > 0 {
        lemma_lcs_self(a.drop_last());
    }
}

proof fn lemma_parts_len(d: Seq<DiffLine>)
    ensures
        left_parts(d).len() >= count_both(d),
        right_parts(d).len() >= count_both(d),
        left_parts(d).len() == count_both(d) && right_parts(d).len() == count_both(d)
            ==> all_paired(d),
    decreases d.len(),
{
    if d.len() > 0 {
        lemma_parts_len(d.drop_last());
        if left_parts(d).len() == count_both(d) && right_parts(d).len() == count_both(d) {
            assert forall|i: int| 0 <= i < d.len() implies #[trigger] d[i] is Both by {
                if i < d.len() - 1 {
                    assert(d[i] == d.drop_last()[i]);
                }
            }
        }
    }
}

proof fn lemma_paired_sides_equal(d: Seq<DiffLine>)
    requires
        all_paired(d),
        pairs_equal(d),
    ensures
        left_parts(d) == right_parts(d),
    decreases d.len(),
{
    if d.len() > 0 {
        let e = d.drop_last();
        assert forall|i: int| 0 <= i < e.len() implies #[trigger] e[i] is Both by {
            assert(e[i] == d[i]);
        }
        assert forall|i: int| 0 <= i < e.len() && #[trigger] e[i] is Both implies e[i]->Both_0@
            == e[i]->Both_1@ by {
            assert(e[i] == d[i]);
        }
        lemma_paired_sides_equal(e);
        assert(d[d.len() - 1] is Both);
    }
}

/// An alignment pairs every line exactly when both sides hold the same lines.
pub proof fn lemma_all_paired_iff_equal(d: Seq<DiffLine>, a: Seq<Seq<char>>, b: Seq<Seq<char>>)
    requires
        is_alignment(d, a, b),
    ensures
        all_paired(d) <==> a == b,
{
    if all_paired(d) {
        lemma_paired_sides_equal(d);
    }
    if a == b {
        lemma_lcs_self(a);
        lemma_parts_len(d);
    }
}

/// Aligning two texts with equal lines gives no line of one side only.
pub proof fn lemma_equal_inputs_align_fully(left: Seq<char>, right: Seq<char>, d: Seq<DiffLine>)
    requires
        left == right,
        is_alignment(d, lines_of(left), lines_of(right)),
    ensures
        all_paired(d),
{
    lemma_all_paired_iff_equal(d, lines_of(left), lines_of(right));
}

/// The lines of one side taken from an alignment, in order, are the lines of
/// that side's text.
pub proof fn lemma_alignment_reconstructs(left: Seq<char>, right: Seq<char>, d: Seq<DiffLine>)
    requires
        is_alignment(d, lines_of(left), lines_of(right)),
    ensures
        left_parts(d) == lines_of(left),
        right_parts(d) == lines_of(right),
{
}

} // verus!
