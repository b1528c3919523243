//! The variable merger: environment entries and caller-supplied extra
//! arguments are combined into one variable mapping in which an
//! extra-argument value always wins on a key collision.
//!
//! The mapping is a sequence of entries read with last-writer-wins lookup,
//! the same reading the template engine applies when the entries are
//! collected into its lookup object. Appending the extra arguments after the
//! environment entries therefore gives every extra-argument binding the last
//! word, and no entry is ever dropped.

use vstd::prelude::*;

verus! {

/// Last-writer-wins lookup of key `k` among the entries.
pub open spec fn assoc_find(entries: Seq<(String, serde_json::Value)>, k: Seq<char>) -> Option<
    serde_json::Value,
>
    decreases entries.len(),
{
    if entries.len() == 0 {
        None
    } else if entries.last().0@ == k {
        Some(entries.last().1)
    } else {
        assoc_find(entries.drop_last(), k)
    }
}

/// All keys of the entries are distinct.
pub open spec fn distinct_keys(entries: Seq<(String, serde_json::Value)>) -> bool {
    forall|i: int, j: int|
        0 <= i < j < entries.len() ==> (#[trigger] entries[i]).0@ != (#[trigger] entries[j]).0@
}

/// Looking a key up in concatenated entries reads the later part first.
pub proof fn lemma_assoc_find_concat(
    a: Seq<(String, serde_json::Value)>,
    b: Seq<(String, serde_json::Value)>,
    k: Seq<char>,
)
    ensures
        assoc_find(a + b, k) == (if assoc_find(b, k) is Some {
            assoc_find(b, k)
        } else {
            assoc_find(a, k)
        }),
    decreases b.len(),
{
    if b.len() == 0 {
        assert(a + b =~= a);
    } else {
        let ab = a + b;
        assert(ab.last() == b.last());
        assert(ab.drop_last() =~= a + b.drop_last());
        lemma_assoc_find_concat(a, b.drop_last(), k);
    }
}

/// Merge environment entries and extra arguments into one variable mapping:
/// the environment entries, then the extra arguments.
///
/// No entry is ever dropped, and under last-writer-wins lookup a key bound
/// by the extra arguments is bound to the extra-argument value, whatever the
/// environment binds it to; a key the extra arguments leave alone keeps its
/// environment binding.
pub fn merge_vars(
    env_entries: &Vec<(String, serde_json::Value)>,
    extra_args: &Vec<(String, serde_json::Value)>,
) -> (r: Vec<(String, serde_json::Value)>)
    ensures
        r@ == env_entries@ + extra_args@,
        forall|k: Seq<char>|
            #[trigger] assoc_find(r@, k) == (if assoc_find(extra_args@, k) is Some {
                assoc_find(extra_args@, k)
            } else {
                assoc_find(env_entries@, k)
            }),
{
    let mut r: Vec<(String, serde_json::Value)> = Vec::new();
    let ne = env_entries.len();
    let mut i: usize = 0;
    while i < ne
        invariant
            i <= ne,
            ne == env_entries@.len(),
            r@ == env_entries@.take(i as int),
        decreases ne - i,
    {
        r.push((env_entries[i].0.clone(), env_entries[i].1.clone()));
        proof {
            assert(r@ =~= env_entries@.take(i + 1 as int));
        }
        i += 1;
    }
    let nx = extra_args.len();
    let mut j: usize = 0;
    proof {
        assert(env_entries@.take(ne as int) =~= env_entries@);
        assert(r@ =~= env_entries@ + extra_args@.take(0));
    }
    while j < nx
        invariant
            j <= nx,
            nx == extra_args@.len(),
            r@ == env_entries@ + extra_args@.take(j as int),
        decreases nx - j,
    {
        r.push((extra_args[j].0.clone(), extra_args[j].1.clone()));
        proof {
            assert(r@ =~= env_entries@ + extra_args@.take(j + 1 as int));
        }
        j += 1;
    }
    proof {
        assert(r@ =~= env_entries@ + extra_args@);
        assert forall|k: Seq<char>|
            #[trigger] assoc_find(r@, k) == (if assoc_find(extra_args@, k) is Some {
                assoc_find(extra_args@, k)
            } else {
                assoc_find(env_entries@, k)
            }) by {
            lemma_assoc_find_concat(env_entries@, extra_args@, k);
        }
    }
    r
}

} // verus!
