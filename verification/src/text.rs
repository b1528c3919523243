//! Character-level text utilities: line splitting with the usual
//! newline/carriage-return conventions, joining lines back together, and
//! repeated prefix/suffix stripping for name derivation.

use vstd::prelude::*;
use vstd::string::StrSliceExecFns;

verus! {

/// An optional text as an optional sequence of characters.
pub open spec fn opt_text_view(o: Option<String>) -> Option<Seq<char>> {
    match o {
        Some(s) => Some(s@),
        None => None,
    }
}

/// Index of the first occurrence of `c` in `l`, or `l.len()` if absent.
pub open spec fn first_at(l: Seq<char>, c: char) -> int
    decreases l.len(),
{
    if l.len() == 0 {
        0
    } else if l[0] == c {
        0
    } else {
        1 + first_at(l.skip(1), c)
    }
}

pub proof fn lemma_first_at(l: Seq<char>, c: char)
    ensures
        0 <= first_at(l, c) <= l.len(),
        forall|k: int| 0 <= k < first_at(l, c) ==> l[k] != c,
        first_at(l, c) < l.len() ==> l[first_at(l, c)] == c,
    decreases l.len(),
{
    if l.len() == 0 {
    } else if l[0] == c {
    } else {
        lemma_first_at(l.skip(1), c);
        assert forall|k: int| 0 <= k < first_at(l, c) implies l[k] != c by {
            if k > 0 {
                assert(l.skip(1)[k - 1] == l[k]);
            }
        }
        if first_at(l, c) < l.len() {
            assert(l.skip(1)[first_at(l, c) - 1] == l[first_at(l, c)]);
        }
    }
}

/// The first occurrence is pinned down by its characterization.
pub proof fn lemma_first_at_is(l: Seq<char>, c: char, j: int)
    requires
        0 <= j <= l.len(),
        forall|k: int| 0 <= k < j ==> l[k] != c,
        j < l.len() ==> l[j] == c,
    ensures
        first_at(l, c) == j,
{
    lemma_first_at(l, c);
    if first_at(l, c) < j {
        assert(l[first_at(l, c)] == c);
    }
    if j < first_at(l, c) {
        assert(l[j] != c);
    }
}

/// A line with its trailing carriage return removed, if it has one.
pub open spec fn strip_cr(l: Seq<char>) -> Seq<char> {
    if l.len() > 0 && l[l.len() - 1] == '\r' {
        l.drop_last()
    } else {
        l
    }
}

/// The lines of a text: split at `'\n'`, where a line ending `"\r\n"` loses
/// the `'\r'` and a final line ending is optional.
pub open spec fn spec_lines(s: Seq<char>) -> Seq<Seq<char>>
    decreases s.len(),
{
    if s.len() == 0 {
        Seq::empty()
    } else {
        let i = first_at(s, '\n');
        if 0 <= i < s.len() {
            seq![strip_cr(s.take(i))] + spec_lines(s.skip(i + 1))
        } else {
            seq![s]
        }
    }
}

/// The lines joined back with single `'\n'` separators.
pub open spec fn join_nl(ls: Seq<Seq<char>>) -> Seq<char>
    decreases ls.len(),
{
    if ls.len() == 0 {
        Seq::empty()
    } else if ls.len() == 1 {
        ls[0]
    } else {
        ls[0] + seq!['\n'] + join_nl(ls.skip(1))
    }
}

pub proof fn lemma_join_nl_push(ls: Seq<Seq<char>>, x: Seq<char>)
    requires
        ls.len() > 0,
    ensures
        join_nl(ls.push(x)) == join_nl(ls) + seq!['\n'] + x,
    decreases ls.len(),
{
    if ls.len() == 1 {
        assert(ls.push(x).skip(1) =~= seq![x]);
        assert(ls.push(x)[0] == ls[0]);
        assert(join_nl(seq![x]) == x);
        assert(join_nl(ls) == ls[0]);
    } else {
        assert(ls.push(x).skip(1) =~= ls.skip(1).push(x));
        lemma_join_nl_push(ls.skip(1), x);
        assert((ls[0] + seq!['\n'] + (join_nl(ls.skip(1)) + seq!['\n'] + x)) =~= ((ls[0]
            + seq!['\n'] + join_nl(ls.skip(1))) + seq!['\n'] + x));
    }
}

/// The characters of a string as a vector, for index-based scanning.
pub fn chars_vec(s: &str) -> (v: Vec<char>)
    ensures
        v@ == s@,
{
    let n = s.unicode_len();
    let mut v: Vec<char> = Vec::new();
    let mut i: usize = 0;
    while i < n
        invariant
            i <= n,
            n == s@.len(),
            v@ == s@.take(i as int),
        decreases n - i,
    {
        let c = s.get_char(i);
        v.push(c);
        proof {
            assert(v@ =~= s@.take(i + 1 as int));
        }
        i += 1;
    }
    proof {
        assert(v@ =~= s@);
    }
    v
}

/// The ranges `bs` are exactly the character ranges of the lines of `t`.
pub open spec fn bounds_ok(bs: Seq<(usize, usize)>, t: Seq<char>) -> bool {
    bs.len() == spec_lines(t).len() && forall|k: int|
        0 <= k < bs.len() ==> (#[trigger] bs[k]).0 <= bs[k].1 <= t.len() && t.subrange(
            bs[k].0 as int,
            bs[k].1 as int,
        ) == spec_lines(t)[k]
}

/// The character range `[start, end)` of each line of `t`, in order.
#[verifier::loop_isolation(false)]
pub fn line_bounds(t: &Vec<char>) -> (bs: Vec<(usize, usize)>)
    ensures
        bounds_ok(bs@, t@),
{
    let ghost full: Seq<Seq<char>> = spec_lines(t@);
    let n = t.len();
    let mut bs: Vec<(usize, usize)> = Vec::new();
    let mut start: usize = 0;
    let mut i: usize = 0;
    proof {
        assert(t@.skip(0) =~= t@);
        assert(full =~= full.take(0) + spec_lines(t@));
    }
    while i < n
        invariant
            start <= i <= n,
            n == t@.len(),
            full == spec_lines(t@),
            forall|k: int| start <= k < i ==> t@[k] != '\n',
            bs@.len() <= full.len(),
            forall|k: int|
                0 <= k < bs@.len() ==> #[trigger] bs@[k].0 <= bs@[k].1 <= t@.len()
                    && t@.subrange(bs@[k].0 as int, bs@[k].1 as int) == full[k],
            full == full.take(bs@.len() as int) + spec_lines(t@.skip(start as int)),
        decreases n - i,
    {
        if t[i] == '\n' {
            let end = if i > start && t[i - 1] == '\r' {
                i - 1
            } else {
                i
            };
            proof {
                let rest = t@.skip(start as int);
                assert forall|k: int| 0 <= k < i - start implies rest[k] != '\n' by {
                    assert(rest[k] == t@[start + k]);
                }
                assert(rest[i - start] == t@[i as int]);
                lemma_first_at_is(rest, '\n', i - start);
                assert(rest.take(i - start) =~= t@.subrange(start as int, i as int));
                assert(rest.skip(i - start + 1) =~= t@.skip(i + 1 as int));
                assert(strip_cr(t@.subrange(start as int, i as int)) =~= t@.subrange(
                    start as int,
                    end as int,
                ));
                assert(spec_lines(rest) == seq![t@.subrange(start as int, end as int)]
                    + spec_lines(t@.skip(i + 1 as int)));
                let m = bs@.len() as int;
                assert(full == full.take(m) + spec_lines(rest));
                assert(full == full.take(m) + (seq![t@.subrange(start as int, end as int)]
                    + spec_lines(t@.skip(i + 1 as int))));
                assert(full[m] == t@.subrange(start as int, end as int));
                assert(full.take(m + 1) =~= full.take(m).push(
                    t@.subrange(start as int, end as int),
                ));
                assert(full =~= full.take(m + 1) + spec_lines(t@.skip(i + 1 as int)));
            }
            let ghost old_bs = bs@;
            bs.push((start, end));
            proof {
                assert forall|k: int|
                    0 <= k < bs@.len() implies #[trigger] bs@[k].0 <= bs@[k].1 <= t@.len()
                    && t@.subrange(bs@[k].0 as int, bs@[k].1 as int) == full[k] by {
                    if k < old_bs.len() {
                        assert(bs@[k] == old_bs[k]);
                    } else {
                        assert(bs@[k] == (start, end));
                    }
                }
            }
            start = i + 1;
        }
        i += 1;
    }
    if start < n {
        proof {
            let rest = t@.skip(start as int);
            assert forall|k: int| 0 <= k < rest.len() implies rest[k] != '\n' by {
                assert(rest[k] == t@[start + k]);
            }
            lemma_first_at_is(rest, '\n', rest.len() as int);
            assert(rest =~= t@.subrange(start as int, n as int));
            let m = bs@.len() as int;
            assert(spec_lines(rest) == seq![rest]);
            assert(full == full.take(m) + seq![rest]);
            assert(full[m] == rest);
            assert(full =~= full.take(m).push(rest));
        }
        bs.push((start, n));
    } else {
        proof {
            assert(t@.skip(start as int) =~= Seq::<char>::empty());
            assert(full =~= full.take(bs@.len() as int));
        }
    }
    proof {
        assert(bounds_ok(bs@, t@));
    }
    bs
}

/// `s` with every leading copy of `p` removed, as `str::trim_start_matches`
/// does for a nonempty pattern.
pub open spec fn strip_prefix_reps(s: Seq<char>, p: Seq<char>) -> Seq<char>
    decreases s.len(),
{
    if p.len() > 0 && p.len() <= s.len() && s.take(p.len() as int) == p {
        strip_prefix_reps(s.skip(p.len() as int), p)
    } else {
        s
    }
}

/// `s` with every trailing copy of `p` removed, as `str::trim_end_matches`
/// does for a nonempty pattern.
pub open spec fn strip_suffix_reps(s: Seq<char>, p: Seq<char>) -> Seq<char>
    decreases s.len(),
{
    if p.len() > 0 && p.len() <= s.len() && s.skip(s.len() - p.len()) == p {
        strip_suffix_reps(s.take(s.len() - p.len()), p)
    } else {
        s
    }
}

/// Whether `p` occurs in `fp` at position `i`.
#[verifier::loop_isolation(false)]
fn match_at(fp: &Vec<char>, i: usize, p: &Vec<char>) -> (r: bool)
    requires
        i + p@.len() <= fp@.len(),
    ensures
        r == (fp@.subrange(i as int, i + p@.len()) == p@),
{
    let n = fp.len();
    let m = p.len();
    let mut k: usize = 0;
    while k < m
        invariant
            k <= m,
            i + m <= n,
            forall|j: int| 0 <= j < k ==> fp@[i + j] == p@[j],
        decreases m - k,
    {
        if fp[i + k] != p[k] {
            proof {
                assert(fp@.subrange(i as int, i + p@.len())[k as int] == fp@[i + k]);
            }
            return false;
        }
        k += 1;
    }
    proof {
        assert(fp@.subrange(i as int, i + p@.len()) =~= p@);
    }
    true
}

/// The position after all leading copies of `p` from `from` on.
#[verifier::loop_isolation(false)]
pub fn strip_prefix_all(fp: &Vec<char>, from: usize, p: &Vec<char>) -> (r: usize)
    requires
        from <= fp@.len(),
    ensures
        from <= r <= fp@.len(),
        fp@.skip(r as int) == strip_prefix_reps(fp@.skip(from as int), p@),
{
    let n = fp.len();
    let m = p.len();
    if m == 0 {
        return from;
    }
    let mut i: usize = from;
    let mut stop = false;
    while !stop
        invariant
            from <= i <= n,
            strip_prefix_reps(fp@.skip(from as int), p@) == strip_prefix_reps(
                fp@.skip(i as int),
                p@,
            ),
            stop ==> strip_prefix_reps(fp@.skip(i as int), p@) == fp@.skip(i as int),
        decreases n - i, (if stop {
            0int
        } else {
            1int
        }),
    {
        if n - i < m {
            stop = true;
        } else if !match_at(fp, i, p) {
            proof {
                assert(fp@.skip(i as int).take(m as int) =~= fp@.subrange(i as int, i + m));
            }
            stop = true;
        } else {
            proof {
                assert(fp@.skip(i as int).take(m as int) =~= fp@.subrange(i as int, i + m));
                assert(fp@.skip(i as int).skip(m as int) =~= fp@.skip(i + m));
            }
            i += m;
        }
    }
    i
}

/// The position before all trailing copies of `p` inside `[from, to)`.
#[verifier::loop_isolation(false)]
pub fn strip_suffix_all(fp: &Vec<char>, from: usize, to: usize, p: &Vec<char>) -> (r: usize)
    requires
        from <= to <= fp@.len(),
    ensures
        from <= r <= to,
        fp@.subrange(from as int, r as int) == strip_suffix_reps(
            fp@.subrange(from as int, to as int),
            p@,
        ),
{
    let m = p.len();
    if m == 0 {
        return to;
    }
    let mut j: usize = to;
    let mut stop = false;
    while !stop
        invariant
            from <= j <= to,
            strip_suffix_reps(fp@.subrange(from as int, to as int), p@) == strip_suffix_reps(
                fp@.subrange(from as int, j as int),
                p@,
            ),
            stop ==> strip_suffix_reps(fp@.subrange(from as int, j as int), p@) == fp@.subrange(
                from as int,
                j as int,
            ),
        decreases j - from, (if stop {
            0int
        } else {
            1int
        }),
    {
        let ghost s = fp@.subrange(from as int, j as int);
        if j - from < m {
            stop = true;
        } else if !match_at(fp, j - m, p) {
            proof {
                assert(s.skip(s.len() - m) =~= fp@.subrange(j - m, j as int));
            }
            stop = true;
        } else {
            proof {
                assert(s.skip(s.len() - m) =~= fp@.subrange(j - m, j as int));
                assert(s.take(s.len() - m) =~= fp@.subrange(from as int, j - m));
            }
            j -= m;
        }
    }
    j
}

} // verus!
