//! Lists of names, read as sets.

use vstd::prelude::*;

verus! {

/// The set of names that a list holds.
pub open spec fn name_set(v: Seq<String>) -> Set<Seq<char>> {
    Set::new(|n: Seq<char>| exists|i: int| 0 <= i < v.len() && v[i]@ == n)
}

/// No name occurs twice in the list.
pub open spec fn distinct_names(v: Seq<String>) -> bool {
    forall|i: int, j: int| 0 <= i < v.len() && 0 <= j < v.len() && i != j ==> v[i]@ != v[j]@
}

/// Where `n` stands in `v`, if it does.
pub fn position_of(v: &Vec<String>, n: &String) -> (r: Option<usize>)
    ensures
        match r {
            Some(i) => i < v@.len() && v@[i as int]@ == n@,
            None => !name_set(v@).contains(n@),
        },
{
    let mut i: usize = 0;
    while i < v.len()
        invariant
            i <= v@.len(),
            forall|j: int| 0 <= j < i ==> v@[j]@ != n@,
        decreases v@.len() - i,
    {
        if v[i] == *n {
            return Some(i);
        }
        i = i + 1;
    }
    None
}

/// Whether `n` is in the list.
pub fn contains_name(v: &Vec<String>, n: &String) -> (r: bool)
    ensures
        r == name_set(v@).contains(n@),
{
    match position_of(v, n) {
        Some(i) => {
            assert(name_set(v@).contains(n@)) by {
                assert(v@[i as int]@ == n@);
            }
            true
        },
        None => false,
    }
}

/// Adds `n`, which the list does not hold yet.
pub fn push_name(v: &mut Vec<String>, n: String)
    requires
        distinct_names(old(v)@),
        !name_set(old(v)@).contains(n@),
    ensures
        distinct_names(final(v)@),
        name_set(final(v)@) == name_set(old(v)@).insert(n@),
{
    let ghost pre = v@;
    v.push(n);
    let ghost post = v@;
    assert forall|i: int, j: int| 0 <= i < post.len() && 0 <= j < post.len() && i != j implies post[i]@
        != post[j]@ by {
        if i == pre.len() {
            assert(!(pre[j]@ == n@ && 0 <= j < pre.len()));
        } else if j == pre.len() {
            assert(!(pre[i]@ == n@ && 0 <= i < pre.len()));
        }
    }
    assert forall|m: Seq<char>| #[trigger] name_set(pre).insert(n@).contains(m) implies name_set(
        post,
    ).contains(m) by {
        if m == n@ {
            assert(post[pre.len() as int]@ == m);
        } else {
            let k = choose|k: int| 0 <= k < pre.len() && pre[k]@ == m;
            assert(post[k]@ == m);
        }
    }
    assert forall|m: Seq<char>| #[trigger] name_set(post).contains(m) implies name_set(pre).insert(
        n@,
    ).contains(m) by {
        let k = choose|k: int| 0 <= k < post.len() && post[k]@ == m;
        if k < pre.len() {
            assert(pre[k]@ == m);
        }
    }
    assert(name_set(post) =~= name_set(pre).insert(n@));
}

/// Takes `n` out of the list; says whether it was there.
pub fn remove_name(v: &mut Vec<String>, n: &String) -> (removed: bool)
    requires
        distinct_names(old(v)@),
    ensures
        distinct_names(final(v)@),
        removed == name_set(old(v)@).contains(n@),
        name_set(final(v)@) == name_set(old(v)@).remove(n@),
{
    let ghost pre = v@;
    match position_of(v, n) {
        None => {
            assert(name_set(pre) =~= name_set(pre).remove(n@));
            false
        },
        Some(i) => {
            v.remove(i);
            let ghost post = v@;
            assert(post =~= pre.remove(i as int));
            assert forall|a: int, b: int|
                0 <= a < post.len() && 0 <= b < post.len() && a != b implies post[a]@ != post[b]@ by {
                let a0 = if a < i { a } else { a + 1 };
                let b0 = if b < i { b } else { b + 1 };
                assert(post[a] == pre[a0] && post[b] == pre[b0]);
            }
            assert forall|m: Seq<char>| #[trigger] name_set(pre).remove(n@).contains(m) implies name_set(
                post,
            ).contains(m) by {
                let k = choose|k: int| 0 <= k < pre.len() && pre[k]@ == m;
                if k < i {
                    assert(post[k]@ == m);
                } else {
                    assert(k != i);
                    assert(post[k - 1]@ == m);
                }
            }
            assert forall|m: Seq<char>| #[trigger] name_set(post).contains(m) implies name_set(
                pre,
            ).remove(n@).contains(m) by {
                let k = choose|k: int| 0 <= k < post.len() && post[k]@ == m;
                let k0 = if k < i { k } else { k + 1 };
                assert(pre[k0]@ == m);
                assert(k0 != i);
            }
            assert(name_set(post) =~= name_set(pre).remove(n@));
            assert(name_set(pre).contains(n@)) by {
                assert(pre[i as int]@ == n@);
            }
            true
        },
    }
}

/// A copy of the list.
pub fn copy_names(v: &Vec<String>) -> (r: Vec<String>)
    ensures
        r@ == v@,
{
    let mut r: Vec<String> = Vec::new();
    let mut i: usize = 0;
    while i < v.len()
        invariant
            i <= v@.len(),
            r@ == v@.take(i as int),
        decreases v@.len() - i,
    {
        r.push(v[i].clone());
        assert(v@.take(i as int + 1) =~= v@.take(i as int).push(v@[i as int]));
        i = i + 1;
    }
    assert(v@.take(v@.len() as int) =~= v@);
    r
}

/// The names of a prefix one longer are those of the prefix and the next one.
pub proof fn lemma_name_set_take_step(v: Seq<String>, i: int)
    requires
        0 <= i < v.len(),
    ensures
        name_set(v.take(i + 1)) == name_set(v.take(i)).insert(v[i]@),
{
    let a = v.take(i + 1);
    let b = v.take(i);
    assert forall|m: Seq<char>| #[trigger] name_set(a).contains(m) implies name_set(b).insert(v[i]@).contains(m) by {
        let k = choose|k: int| 0 <= k < a.len() && a[k]@ == m;
        if k < i {
            assert(b[k]@ == m);
        }
    }
    assert forall|m: Seq<char>| #[trigger] name_set(b).insert(v[i]@).contains(m) implies name_set(a).contains(m) by {
        if m == v[i]@ {
            assert(a[i]@ == m);
        } else {
            let k = choose|k: int| 0 <= k < b.len() && b[k]@ == m;
            assert(a[k]@ == m);
        }
    }
    assert(name_set(a) =~= name_set(b).insert(v[i]@));
}

} // verus!
