use vstd::prelude::*;

verus! {

/// A scope of named bindings, in the order they were made; the latest
/// binding of a name is the one that counts.
pub type Assoc<V> = Seq<(Seq<char>, V)>;

/// The value of the latest binding of `k` in a scope.
pub open spec fn assoc_get<V>(s: Assoc<V>, k: Seq<char>) -> Option<V>
    decreases s.len(),
{
    if s.len() == 0 {
        None
    } else if s.last().0 == k {
        Some(s.last().1)
    } else {
        assoc_get(s.drop_last(), k)
    }
}

/// The scope with the latest binding of `k` given the value `v` (unchanged
/// when `k` is not bound).
pub open spec fn assoc_set<V>(s: Assoc<V>, k: Seq<char>, v: V) -> Assoc<V>
    decreases s.len(),
{
    if s.len() == 0 {
        s
    } else if s.last().0 == k {
        s.drop_last().push((k, v))
    } else {
        assoc_set(s.drop_last(), k, v).push(s.last())
    }
}

/// The scope with `k` bound to `v`: its latest binding replaced, or a new
/// binding added.
pub open spec fn assoc_put<V>(s: Assoc<V>, k: Seq<char>, v: V) -> Assoc<V> {
    if assoc_get(s, k) is Some {
        assoc_set(s, k, v)
    } else {
        s.push((k, v))
    }
}

/// Lookup through a stack of scopes, from the innermost (last) outwards.
pub open spec fn stack_get<V>(sc: Seq<Assoc<V>>, k: Seq<char>) -> Option<V>
    decreases sc.len(),
{
    if sc.len() == 0 {
        None
    } else {
        match assoc_get(sc.last(), k) {
            Some(v) => Some(v),
            None => stack_get(sc.drop_last(), k),
        }
    }
}

/// The stack after binding `k` to `v` in its innermost scope (unchanged
/// when there is no scope).
pub open spec fn stack_put<V>(sc: Seq<Assoc<V>>, k: Seq<char>, v: V) -> Seq<Assoc<V>> {
    if sc.len() == 0 {
        sc
    } else {
        sc.drop_last().push(assoc_put(sc.last(), k, v))
    }
}

/// The stack after adding the binding `k` to `v` to its innermost scope
/// (unchanged when there is no scope).
pub open spec fn stack_push<V>(sc: Seq<Assoc<V>>, k: Seq<char>, v: V) -> Seq<Assoc<V>> {
    if sc.len() == 0 {
        sc
    } else {
        sc.drop_last().push(sc.last().push((k, v)))
    }
}

/// The stack without its innermost scope; `None` when only the outermost
/// scope is left.
pub open spec fn stack_pop<V>(sc: Seq<Assoc<V>>) -> Option<Seq<Assoc<V>>> {
    if sc.len() == 1 {
        None
    } else if sc.len() == 0 {
        Some(sc)
    } else {
        Some(sc.drop_last())
    }
}

/// A binding just added is what a lookup of its name finds, and the lookup
/// of every other name is unchanged.
pub proof fn law_stack_push_get<V>(sc: Seq<Assoc<V>>, k: Seq<char>, v: V, other: Seq<char>)
    requires
        sc.len() >= 1,
    ensures
        stack_get(stack_push(sc, k, v), k) == Some(v),
        other != k ==> stack_get(stack_push(sc, k, v), other) == stack_get(sc, other),
{
    let r = stack_push(sc, k, v);
    assert(r.last().drop_last() == sc.last());
    assert(r.drop_last() == sc.drop_last());
}

pub proof fn lemma_assoc_last_match<V>(m: Assoc<V>, k: Seq<char>, j: int, v: V)
    requires
        0 <= j < m.len(),
        m[j].0 == k,
        forall|i: int| j < i < m.len() ==> m[i].0 != k,
    ensures
        assoc_get(m, k) == Some(m[j].1),
        assoc_set(m, k, v) == m.update(j, (k, v)),
    decreases m.len(),
{
    if j < m.len() - 1 {
        lemma_assoc_last_match(m.drop_last(), k, j, v);
        assert(m.drop_last().update(j, (k, v)).push(m.last()) =~= m.update(j, (k, v)));
    } else {
        assert(m.drop_last().push((k, v)) =~= m.update(j, (k, v)));
    }
}

pub proof fn lemma_assoc_no_match<V>(m: Assoc<V>, k: Seq<char>)
    requires
        forall|i: int| 0 <= i < m.len() ==> m[i].0 != k,
    ensures
        assoc_get(m, k) is None,
    decreases m.len(),
{
    if m.len() > 0 {
        lemma_assoc_no_match(m.drop_last(), k);
    }
}

pub proof fn lemma_stack_innermost<V>(sc: Seq<Assoc<V>>, k: Seq<char>, i: int)
    requires
        0 <= i < sc.len(),
        assoc_get(sc[i], k) is Some,
        forall|j: int| i < j < sc.len() ==> assoc_get(#[trigger] sc[j], k) is None,
    ensures
        stack_get(sc, k) == assoc_get(sc[i], k),
    decreases sc.len(),
{
    if i < sc.len() - 1 {
        lemma_stack_innermost(sc.drop_last(), k, i);
    }
}

pub proof fn lemma_stack_unbound<V>(sc: Seq<Assoc<V>>, k: Seq<char>)
    requires
        forall|j: int| 0 <= j < sc.len() ==> assoc_get(#[trigger] sc[j], k) is None,
    ensures
        stack_get(sc, k) is None,
    decreases sc.len(),
{
    if sc.len() > 0 {
        lemma_stack_unbound(sc.drop_last(), k);
    }
}

/// A binding just made in the innermost scope is what a lookup finds.
pub proof fn law_stack_put_get<V>(sc: Seq<Assoc<V>>, k: Seq<char>, v: V, other: Seq<char>)
    requires
        sc.len() >= 1,
    ensures
        stack_get(stack_put(sc, k, v), k) == Some(v),
        other != k ==> stack_get(stack_put(sc, k, v), other) == stack_get(sc, other),
{
    let top = sc.last();
    if assoc_get(top, k) is Some {
        lemma_assoc_set_get(top, k, v, other);
    } else {
        assert(top.push((k, v)).drop_last() == top);
    }
    assert(stack_put(sc, k, v).drop_last() == sc.drop_last());
}

pub proof fn lemma_assoc_set_get<V>(m: Assoc<V>, k: Seq<char>, v: V, other: Seq<char>)
    requires
        assoc_get(m, k) is Some,
    ensures
        assoc_get(assoc_set(m, k, v), k) == Some(v),
        other != k ==> assoc_get(assoc_set(m, k, v), other) == assoc_get(m, other),
    decreases m.len(),
{
    if m.last().0 == k {
        assert(assoc_set(m, k, v).drop_last() == m.drop_last());
    } else {
        lemma_assoc_set_get(m.drop_last(), k, v, other);
        assert(assoc_set(m, k, v).drop_last() == assoc_set(m.drop_last(), k, v));
    }
}

pub proof fn lemma_assoc_put_get<V>(m: Assoc<V>, k: Seq<char>, v: V)
    ensures
        assoc_get(assoc_put(m, k, v), k) == Some(v),
{
    if assoc_get(m, k) is Some {
        lemma_assoc_set_get(m, k, v, k);
    }
}

/// The position of the latest binding of `key` in a scope.
pub fn assoc_find<V>(scope: &Vec<(String, V)>, key: &String) -> (r: Option<usize>)
    ensures
        match r {
            Some(j) => {
                &&& j < scope@.len()
                &&& scope@[j as int].0@ == key@
                &&& forall|i: int| j < i < scope@.len() ==> scope@[i].0@ != key@
            },
            None => forall|i: int| 0 <= i < scope@.len() ==> scope@[i].0@ != key@,
        },
{
    let mut j = scope.len();
    while j > 0
        invariant
            j <= scope@.len(),
            forall|i: int| j <= i < scope@.len() ==> scope@[i].0@ != key@,
        decreases j,
    {
        j = j - 1;
        if scope[j].0 == *key {
            return Some(j);
        }
    }
    None
}

} // verus!
