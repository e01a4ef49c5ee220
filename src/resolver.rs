use vstd::prelude::*;
use crate::model::{implies_directly, reaches, reaches_within, ResourceType, ResourceTypeView};
use crate::model::names;
use crate::names::index_of;

verus! {

/// How many positions of `s` are marked.
pub open spec fn count_marked(s: Seq<bool>) -> nat
    decreases s.len(),
{
    if s.len() == 0 {
        0
    } else {
        count_marked(s.drop_last()) + if s.last() {
            1nat
        } else {
            0nat
        }
    }
}

/// Some role at a marked position is named `x`.
pub open spec fn marked_name(roles: Seq<Seq<char>>, marks: Seq<bool>, x: Seq<char>) -> bool {
    exists|m: int| 0 <= m < marks.len() && marks[m] && #[trigger] roles[m] == x
}

/// Every role that `r` directly implies is marked.
pub open spec fn closed_at(
    t: ResourceTypeView,
    marks: Seq<bool>,
    r: Seq<char>,
) -> bool {
    forall|j: int|
        0 <= j < t.implications.len() && (#[trigger] t.implications[j]).1 == r ==> marked_name(
            t.roles,
            marks,
            t.implications[j].0,
        )
}

proof fn lemma_count_bound(s: Seq<bool>)
    ensures
        count_marked(s) <= s.len(),
    decreases s.len(),
{
    if s.len() > 0 {
        lemma_count_bound(s.drop_last());
    }
}

proof fn lemma_count_push_false(s: Seq<bool>)
    ensures
        count_marked(s.push(false)) == count_marked(s),
{
    assert(s.push(false).drop_last() =~= s);
}

proof fn lemma_count_mark(s: Seq<bool>, i: int)
    requires
        0 <= i < s.len(),
        !s[i],
    ensures
        count_marked(s.update(i, true)) == count_marked(s) + 1,
    decreases s.len(),
{
    let u = s.update(i, true);
    if i == s.len() - 1 {
        assert(u.drop_last() =~= s.drop_last());
    } else {
        assert(u.drop_last() =~= s.drop_last().update(i, true));
        lemma_count_mark(s.drop_last(), i);
    }
}

pub proof fn lemma_reaches_refl(t: ResourceTypeView, a: Seq<char>)
    ensures
        reaches(t, a, a),
{
    assert(reaches_within(t, a, a, 0));
}

pub proof fn lemma_reaches_step(t: ResourceTypeView, a: Seq<char>, b: Seq<char>, c: Seq<char>)
    requires
        reaches(t, a, b),
        implies_directly(t, b, c),
    ensures
        reaches(t, a, c),
{
    let n = choose|n: nat| reaches_within(t, a, b, n);
    let m: nat = n + 1;
    assert(((m - 1) as nat) == n);
    assert(reaches_within(t, a, b, (m - 1) as nat) && implies_directly(t, b, c));
    assert(reaches_within(t, a, c, m));
}

proof fn lemma_marks_grow(roles: Seq<Seq<char>>, old_marks: Seq<bool>, new_marks: Seq<bool>)
    requires
        old_marks.len() == new_marks.len(),
        forall|m: int| 0 <= m < old_marks.len() && old_marks[m] ==> new_marks[m],
    ensures
        forall|x: Seq<char>| marked_name(roles, old_marks, x) ==> marked_name(roles, new_marks, x),
{
    assert forall|x: Seq<char>| marked_name(roles, old_marks, x) implies marked_name(
        roles,
        new_marks,
        x,
    ) by {
        let m = choose|m: int| 0 <= m < old_marks.len() && old_marks[m] && #[trigger] roles[m] == x;
        assert(new_marks[m]);
    }
}

/// A marking that holds `start` and is closed under implication holds every
/// role that `start` reaches.
proof fn lemma_closed_complete(
    t: ResourceTypeView,
    marks: Seq<bool>,
    start: Seq<char>,
    x: Seq<char>,
    n: nat,
)
    requires
        marks.len() <= t.roles.len(),
        marked_name(t.roles, marks, start),
        forall|m: int| 0 <= m < marks.len() && marks[m] ==> closed_at(t, marks, #[trigger] t.roles[m]),
        reaches_within(t, start, x, n),
    ensures
        marked_name(t.roles, marks, x),
    decreases n,
{
    if n > 0 {
        let prev = (n - 1) as nat;
        if !reaches_within(t, start, x, prev) {
            assert(reaches_within(t, start, x, n));
            assert(exists|mid: Seq<char>|
                #![trigger implies_directly(t, mid, x)]
                reaches_within(t, start, mid, prev) && implies_directly(t, mid, x));
            let mid = choose|mid: Seq<char>|
                reaches_within(t, start, mid, prev) && #[trigger] implies_directly(t, mid, x);
            lemma_closed_complete(t, marks, start, mid, prev);
            let m = choose|m: int| 0 <= m < marks.len() && marks[m] && #[trigger] t.roles[m] == mid;
            assert(closed_at(t, marks, t.roles[m]));
            assert(t.implications.contains((x, mid)));
            let j = choose|j: int| 0 <= j < t.implications.len() && t.implications[j] == (x, mid);
            assert(t.implications[j].1 == mid);
            assert(t.implications[j].0 == x);
        } else {
            lemma_closed_complete(t, marks, start, x, prev);
        }
    }
}

/// Every implication names a declared role as the role it confers.
pub open spec fn targets_declared(t: ResourceTypeView) -> bool {
    forall|i: int| 0 <= i < t.implications.len() ==> t.roles.contains(#[trigger] t.implications[i].0)
}

/// Marks, by position in the role list, the roles that holding the role at
/// position `start` confers. A visited mark per role keeps the walk finite on
/// any implication graph, cyclic or not.
pub fn reachable_marks(t: &ResourceType, start: usize) -> (marks: Vec<bool>)
    requires
        start < t.roles.len(),
        targets_declared(t@),
    ensures
        marks.len() == t.roles.len(),
        forall|k: int| 0 <= k < marks.len() && marks@[k] ==> reaches(t@, t@.roles[start as int], #[trigger] t@.roles[k]),
        forall|x: Seq<char>| reaches(t@, t@.roles[start as int], x) ==> marked_name(t@.roles, marks@, x),
{
    let ghost tv = t@;
    let ghost s = tv.roles[start as int];
    let n = t.roles.len();
    let mut marks: Vec<bool> = Vec::new();
    let mut i: usize = 0;
    while i < n
        invariant
            i <= n,
            marks.len() == i,
            count_marked(marks@) == 0,
            forall|k: int| 0 <= k < i ==> !marks@[k],
        decreases n - i,
    {
        proof {
            lemma_count_push_false(marks@);
        }
        marks.push(false);
        i = i + 1;
    }
    proof {
        lemma_count_mark(marks@, start as int);
    }
    marks.set(start, true);
    let mut pending: Vec<usize> = Vec::new();
    pending.push(start);
    proof {
        lemma_reaches_refl(tv, s);
        assert(pending@[0] == start);
        assert forall|k: int| 0 <= k < n && marks@[k] implies k == start by {}
    }
    while pending.len() > 0
        invariant
            tv == t@,
            s == tv.roles[start as int],
            n == t.roles.len(),
            targets_declared(tv),
            marks.len() == n,
            start < n,
            marks@[start as int],
            count_marked(marks@) <= n,
            pending@.no_duplicates(),
            forall|q: int| 0 <= q < pending.len() ==> (#[trigger] pending@[q]) < n && marks@[pending@[q] as int],
            forall|k: int| 0 <= k < n && marks@[k] ==> reaches(tv, s, #[trigger] tv.roles[k]),
            forall|k: int|
                0 <= k < n && marks@[k] && !pending@.contains(k as usize) ==> closed_at(
                    tv,
                    marks@,
                    #[trigger] tv.roles[k],
                ),
        decreases 2 * (n - count_marked(marks@)) + pending.len(),
    {
        let ghost before = 2 * (n - count_marked(marks@)) + pending.len();
        let ghost pend0 = pending@;
        let x = pending.pop().unwrap();
        let ghost popped = pending@;
        proof {
            assert forall|k: int|
                0 <= k < n && marks@[k] && !pending@.contains(k as usize) && k != x implies closed_at(
                    tv,
                    marks@,
                    #[trigger] tv.roles[k],
                ) by {
                assert(pend0 =~= popped.push(x));
                if pend0.contains(k as usize) {
                    let q = choose|q: int| 0 <= q < pend0.len() && pend0[q] == k as usize;
                    if q < popped.len() {
                        assert(popped[q] == k as usize);
                    }
                }
            }
        }
        let mut j: usize = 0;
        while j < t.implications.len()
            invariant
                tv == t@,
                s == tv.roles[start as int],
                n == t.roles.len(),
                targets_declared(tv),
                marks.len() == n,
                x < n,
                start < n,
                marks@[x as int],
                marks@[start as int],
                count_marked(marks@) <= n,
                j <= t.implications.len(),
                2 * (n - count_marked(marks@)) + pending.len() < before,
                pending@.no_duplicates(),
                !pending@.contains(x),
                forall|q: int| 0 <= q < popped.len() ==> pending@.contains(#[trigger] popped[q]),
                forall|q: int| 0 <= q < pending.len() ==> (#[trigger] pending@[q]) < n && marks@[pending@[q] as int],
                forall|k: int| 0 <= k < n && marks@[k] ==> reaches(tv, s, #[trigger] tv.roles[k]),
                forall|k: int|
                    0 <= k < n && marks@[k] && !pending@.contains(k as usize) && k != x ==> closed_at(
                        tv,
                        marks@,
                        #[trigger] tv.roles[k],
                    ),
                forall|jj: int|
                    0 <= jj < j && (#[trigger] tv.implications[jj]).1 == tv.roles[x as int] ==> marked_name(
                        tv.roles,
                        marks@,
                        tv.implications[jj].0,
                    ),
            decreases t.implications.len() - j,
        {
            if t.implications[j].implied_by == t.roles[x] {
                assert(tv.implications[j as int] == t.implications@[j as int]@);
                match index_of(&t.roles, &t.implications[j].implied) {
                    Some(y) => {
                        if !marks[y] {
                            let ghost old_marks = marks@;
                            let ghost old_pending = pending@;
                            proof {
                                lemma_count_mark(marks@, y as int);
                                lemma_count_bound(marks@.update(y as int, true));
                                assert(implies_directly(tv, tv.roles[x as int], tv.roles[y as int])) by {
                                    assert(tv.implications[j as int] == (tv.roles[y as int], tv.roles[x as int]));
                                }
                                lemma_reaches_step(tv, s, tv.roles[x as int], tv.roles[y as int]);
                            }
                            marks.set(y, true);
                            pending.push(y);
                            proof {
                                lemma_marks_grow(tv.roles, old_marks, marks@);
                                assert(!old_pending.contains(y)) by {
                                    if old_pending.contains(y) {
                                        let q = choose|q: int| 0 <= q < old_pending.len() && old_pending[q] == y;
                                        assert(old_marks[old_pending[q] as int]);
                                    }
                                }
                                assert forall|q: int| 0 <= q < popped.len() implies pending@.contains(#[trigger] popped[q]) by {
                                    let w = choose|w: int| 0 <= w < old_pending.len() && old_pending[w] == popped[q];
                                    assert(pending@[w] == popped[q]);
                                }
                                assert(marked_name(tv.roles, marks@, tv.implications[j as int].0)) by {
                                    assert(marks@[y as int]);
                                }
                                assert(pending@.last() == y);
                                assert(pending@[pending.len() - 1] == y);
                                assert forall|k: int|
                                    0 <= k < n && marks@[k] && !pending@.contains(k as usize) && k != x implies closed_at(
                                        tv,
                                        marks@,
                                        #[trigger] tv.roles[k],
                                    ) by {
                                    assert(k != y);
                                    assert(old_marks[k]);
                                    if old_pending.contains(k as usize) {
                                        let q = choose|q: int| 0 <= q < old_pending.len() && old_pending[q] == k as usize;
                                        assert(pending@[q] == old_pending[q]);
                                    }
                                    assert(closed_at(tv, old_marks, tv.roles[k]));
                                    assert forall|jj: int|
                                        0 <= jj < tv.implications.len() && (#[trigger] tv.implications[jj]).1 == tv.roles[k] implies marked_name(
                                            tv.roles,
                                            marks@,
                                            tv.implications[jj].0,
                                        ) by {
                                        assert(marked_name(tv.roles, old_marks, tv.implications[jj].0));
                                    }
                                }
                                assert forall|jj: int|
                                    0 <= jj < j && (#[trigger] tv.implications[jj]).1 == tv.roles[x as int] implies marked_name(
                                        tv.roles,
                                        marks@,
                                        tv.implications[jj].0,
                                    ) by {
                                    assert(marked_name(tv.roles, old_marks, tv.implications[jj].0));
                                }
                            }
                        } else {
                            proof {
                                assert(tv.roles[y as int] == t.roles@[y as int]@);
                                assert(marked_name(tv.roles, marks@, tv.implications[j as int].0)) by {
                                    assert(marks@[y as int]);
                                }
                            }
                        }
                    },
                    None => {
                        proof {
                            assert(tv.roles.contains(tv.implications[j as int].0));
                        }
                    },
                }
            }
            j = j + 1;
        }
        proof {
            assert forall|k: int|
                0 <= k < n && marks@[k] && !pending@.contains(k as usize) implies closed_at(
                    tv,
                    marks@,
                    #[trigger] tv.roles[k],
                ) by {}
        }
    }
    proof {
        assert forall|m: int| 0 <= m < marks.len() && marks@[m] implies closed_at(tv, marks@, #[trigger] tv.roles[m]) by {
            assert(!pending@.contains(m as usize));
        }
        assert(marked_name(tv.roles, marks@, s)) by {
            assert(marks@[start as int]);
        }
        assert forall|x: Seq<char>| reaches(tv, s, x) implies marked_name(tv.roles, marks@, x) by {
            let n = choose|n: nat| reaches_within(tv, s, x, n);
            lemma_closed_complete(tv, marks@, s, x, n);
        }
    }
    marks
}

/// Whether a role at a marked position is named `x`.
pub fn is_marked_name(roles: &Vec<String>, marks: &Vec<bool>, x: &String) -> (r: bool)
    requires
        marks.len() == roles.len(),
    ensures
        r == marked_name(names(roles@), marks@, x@),
{
    let ghost rv = names(roles@);
    let mut m: usize = 0;
    while m < marks.len()
        invariant
            marks.len() == roles.len(),
            rv == names(roles@),
            m <= marks.len(),
            forall|q: int| 0 <= q < m && marks@[q] ==> rv[q] != x@,
        decreases marks.len() - m,
    {
        if marks[m] && roles[m] == *x {
            proof {
                assert(rv[m as int] == x@);
            }
            return true;
        }
        m = m + 1;
    }
    false
}

/// The roles that holding the role at position `start` confers, itself
/// included, each once per position it holds in the role list.
pub fn closure_of(t: &ResourceType, start: usize) -> (r: Vec<String>)
    requires
        start < t.roles.len(),
        targets_declared(t@),
    ensures
        forall|x: Seq<char>| names(r@).contains(x) <==> reaches(t@, t@.roles[start as int], x),
{
    let ghost tv = t@;
    let marks = reachable_marks(t, start);
    let mut out: Vec<String> = Vec::new();
    let mut m: usize = 0;
    while m < marks.len()
        invariant
            tv == t@,
            marks.len() == t.roles.len(),
            m <= marks.len(),
            forall|k: int| 0 <= k < marks.len() && marks@[k] ==> reaches(tv, tv.roles[start as int], #[trigger] tv.roles[k]),
            forall|x: Seq<char>| names(out@).contains(x) <==> exists|q: int| 0 <= q < m && marks@[q] && #[trigger] tv.roles[q] == x,
        decreases marks.len() - m,
    {
        if marks[m] {
            let ghost before = out@;
            out.push(t.roles[m].clone());
            proof {
                assert(names(out@) =~= names(before).push(tv.roles[m as int]));
                assert forall|x: Seq<char>| names(out@).contains(x) <==> exists|q: int| 0 <= q < m + 1 && marks@[q] && #[trigger] tv.roles[q] == x by {
                    if names(out@).contains(x) && !names(before).contains(x) {
                        assert(x == tv.roles[m as int]);
                    }
                    if names(before).contains(x) {
                        let w = choose|w: int| 0 <= w < names(before).len() && names(before)[w] == x;
                        assert(names(out@)[w] == x);
                    }
                    if exists|q: int| 0 <= q < m + 1 && marks@[q] && #[trigger] tv.roles[q] == x {
                        let q = choose|q: int| 0 <= q < m + 1 && marks@[q] && #[trigger] tv.roles[q] == x;
                        if q == m {
                            assert(names(out@)[before.len() as int] == x);
                        }
                    }
                }
            }
        } else {
            proof {
                assert forall|x: Seq<char>| names(out@).contains(x) <==> exists|q: int| 0 <= q < m + 1 && marks@[q] && #[trigger] tv.roles[q] == x by {
                    if exists|q: int| 0 <= q < m + 1 && marks@[q] && #[trigger] tv.roles[q] == x {
                        let q = choose|q: int| 0 <= q < m + 1 && marks@[q] && #[trigger] tv.roles[q] == x;
                        assert(q != m);
                    }
                }
            }
        }
        m = m + 1;
    }
    proof {
        assert forall|x: Seq<char>| names(out@).contains(x) <==> reaches(tv, tv.roles[start as int], x) by {
            if reaches(tv, tv.roles[start as int], x) {
                assert(marked_name(tv.roles, marks@, x));
            }
        }
    }
    out
}

} // verus!
