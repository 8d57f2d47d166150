//! The order in which tasks are listed: pinned tasks first, then open before
//! done, then overdue, then those with a due date (earliest first); tasks
//! that tie keep their relative order.

use vstd::prelude::*;
use crate::todo::Todo;

verus! {

/// Whether `t` has a due date that lies before `now`.
pub open spec fn is_overdue(t: Todo, now: u64) -> bool {
    t.due_date > 0 && t.due_date < now
}

/// 2^64: larger than any due date, so that one integer orders tasks by the
/// list's criteria taken one after the other.
pub open spec fn rank_unit() -> int {
    0x1_0000_0000_0000_0000
}

/// The place of `t` in the list order at time `now`: a smaller rank is listed
/// earlier, equal ranks tie.
pub open spec fn rank(t: Todo, now: u64) -> int {
    (if t.pinned { 0int } else { 8int }) * rank_unit()
        + (if t.done { 4int } else { 0int }) * rank_unit()
        + (if is_overdue(t, now) { 0int } else { 2int }) * rank_unit()
        + (if t.due_date > 0 { 0int } else { 1int }) * rank_unit()
        + (if t.due_date > 0 { t.due_date as int } else { 0int })
}

/// Whether `s` is listed in order at time `now`.
pub open spec fn sorted_by_rank(s: Seq<Todo>, now: u64) -> bool {
    forall|i: int, j: int| 0 <= i <= j < s.len() ==> rank(s[i], now) <= rank(s[j], now)
}

/// The tasks of `s` whose rank is `r`, in their order in `s`.
pub open spec fn rank_class(s: Seq<Todo>, r: int, now: u64) -> Seq<Todo>
    decreases s.len(),
{
    if s.len() == 0 {
        Seq::empty()
    } else if rank(s.last(), now) == r {
        rank_class(s.drop_last(), r, now).push(s.last())
    } else {
        rank_class(s.drop_last(), r, now)
    }
}

/// `out` lists the tasks of `inp` in order, and tasks of equal rank keep their
/// relative order: a stable sort.
pub open spec fn stably_sorted_from(out: Seq<Todo>, inp: Seq<Todo>, now: u64) -> bool {
    &&& out.len() == inp.len()
    &&& sorted_by_rank(out, now)
    &&& forall|r: int| #[trigger] rank_class(out, r, now) == rank_class(inp, r, now)
}

/// The tasks of a given rank in a concatenation are those of each part.
pub proof fn lemma_rank_class_add(a: Seq<Todo>, b: Seq<Todo>, r: int, now: u64)
    ensures
        rank_class(a + b, r, now) == rank_class(a, r, now) + rank_class(b, r, now),
    decreases b.len(),
{
    if b.len() == 0 {
        assert(a + b =~= a);
        assert(rank_class(b, r, now) =~= Seq::<Todo>::empty());
        assert(rank_class(a, r, now) + rank_class(b, r, now) =~= rank_class(a, r, now));
    } else {
        assert((a + b).drop_last() =~= a + b.drop_last());
        assert((a + b).last() == b.last());
        lemma_rank_class_add(a, b.drop_last(), r, now);
        if rank(b.last(), now) == r {
            assert(rank_class(a, r, now) + rank_class(b.drop_last(), r, now).push(b.last())
                =~= (rank_class(a, r, now) + rank_class(b.drop_last(), r, now)).push(b.last()));
        }
    }
}

/// A sequence holding no task of rank `r` has an empty class `r`.
pub proof fn lemma_rank_class_none(s: Seq<Todo>, r: int, now: u64)
    requires
        forall|i: int| 0 <= i < s.len() ==> rank(#[trigger] s[i], now) != r,
    ensures
        rank_class(s, r, now) == Seq::<Todo>::empty(),
    decreases s.len(),
{
    if s.len() > 0 {
        lemma_rank_class_none(s.drop_last(), r, now);
    }
}

/// Inserting `x` after every task of rank at most its own, and before every
/// task of greater rank, appends `x` to its class and leaves the others alone.
proof fn lemma_insert_class(out: Seq<Todo>, p: int, x: Todo, r: int, now: u64)
    requires
        0 <= p <= out.len(),
        forall|q: int| p <= q < out.len() ==> rank(#[trigger] out[q], now) > rank(x, now),
    ensures
        rank_class(out.insert(p, x), r, now) == if r == rank(x, now) {
            rank_class(out, r, now).push(x)
        } else {
            rank_class(out, r, now)
        },
{
    let a = out.take(p);
    let b = out.skip(p);
    assert(out =~= a + b);
    assert(out.insert(p, x) =~= a + (seq![x] + b));
    lemma_rank_class_add(a, b, r, now);
    lemma_rank_class_add(a, seq![x] + b, r, now);
    lemma_rank_class_add(seq![x], b, r, now);
    assert(seq![x].drop_last() =~= Seq::<Todo>::empty());
    assert(rank_class(Seq::<Todo>::empty(), r, now) =~= Seq::<Todo>::empty());
    if r == rank(x, now) {
        assert forall|i: int| 0 <= i < b.len() implies rank(#[trigger] b[i], now) != r by {
            assert(b[i] == out[p + i]);
        }
        lemma_rank_class_none(b, r, now);
        assert(rank_class(seq![x], r, now) =~= seq![x]);
        assert(rank_class(a, r, now) + (seq![x] + Seq::<Todo>::empty()) =~= rank_class(a, r, now).push(x));
        assert(rank_class(a, r, now) + Seq::<Todo>::empty() =~= rank_class(a, r, now));
    } else {
        assert(rank_class(seq![x], r, now) =~= Seq::<Todo>::empty());
        assert(Seq::<Todo>::empty() + rank_class(b, r, now) =~= rank_class(b, r, now));
    }
}

/// A task of rank `r` is in `s` when class `r` of `s` is not empty.
proof fn lemma_class_member(s: Seq<Todo>, r: int, now: u64)
    requires
        rank_class(s, r, now).len() > 0,
    ensures
        exists|i: int| 0 <= i < s.len() && rank(#[trigger] s[i], now) == r,
    decreases s.len(),
{
    if rank(s.last(), now) == r {
        assert(rank(s[s.len() - 1], now) == r);
    } else {
        lemma_class_member(s.drop_last(), r, now);
        let i = choose|i: int| 0 <= i < s.drop_last().len() && rank(#[trigger] s.drop_last()[i], now) == r;
        assert(s[i] == s.drop_last()[i]);
    }
}

/// Putting a list that is already in order in order changes nothing: a
/// stable sort of a sorted list gives the list back, so sorting twice is
/// sorting once.
pub proof fn lemma_sorted_stays(out: Seq<Todo>, inp: Seq<Todo>, now: u64)
    requires
        sorted_by_rank(inp, now),
        stably_sorted_from(out, inp, now),
    ensures
        out == inp,
    decreases inp.len(),
{
    if inp.len() == 0 {
        assert(out =~= inp);
    } else {
        let r1 = rank(out.last(), now);
        let r2 = rank(inp.last(), now);
        assert(rank_class(out, r1, now) == rank_class(out.drop_last(), r1, now).push(out.last()));
        assert(rank_class(inp, r2, now) == rank_class(inp.drop_last(), r2, now).push(inp.last()));
        assert(rank_class(inp, r1, now) == rank_class(out, r1, now));
        assert(rank_class(out, r2, now) == rank_class(inp, r2, now));
        lemma_class_member(inp, r1, now);
        lemma_class_member(out, r2, now);
        let i = choose|i: int| 0 <= i < inp.len() && rank(#[trigger] inp[i], now) == r1;
        let j = choose|j: int| 0 <= j < out.len() && rank(#[trigger] out[j], now) == r2;
        assert(rank(inp[i], now) <= rank(inp[inp.len() - 1], now));
        assert(rank(out[j], now) <= rank(out[out.len() - 1], now));
        assert(r1 == r2);
        assert(out.last() == rank_class(out, r1, now).last());
        assert(inp.last() == rank_class(inp, r1, now).last());
        let o = out.drop_last();
        let n = inp.drop_last();
        assert forall|r: int| #[trigger] rank_class(o, r, now) == rank_class(n, r, now) by {
            assert(rank_class(out, r, now) == rank_class(inp, r, now));
            if r == r1 {
                assert(rank_class(o, r, now) =~= rank_class(out, r, now).drop_last());
                assert(rank_class(n, r, now) =~= rank_class(inp, r, now).drop_last());
            }
        }
        assert(sorted_by_rank(o, now)) by {
            assert forall|a: int, b: int| 0 <= a <= b < o.len() implies rank(o[a], now) <= rank(o[b], now) by {
                assert(o[a] == out[a] && o[b] == out[b]);
            }
        }
        assert(sorted_by_rank(n, now)) by {
            assert forall|a: int, b: int| 0 <= a <= b < n.len() implies rank(n[a], now) <= rank(n[b], now) by {
                assert(n[a] == inp[a] && n[b] == inp[b]);
            }
        }
        lemma_sorted_stays(o, n, now);
        assert(out =~= o.push(out.last()));
        assert(inp =~= n.push(inp.last()));
    }
}

/// Whether `a` is listed strictly before `b` at time `now`.
pub fn goes_before(a: &Todo, b: &Todo, now: u64) -> (r: bool)
    ensures
        r == (rank(*a, now) < rank(*b, now)),
{
    if a.pinned != b.pinned {
        return a.pinned;
    }
    if a.done != b.done {
        return !a.done;
    }
    let a_overdue = a.due_date > 0 && a.due_date < now;
    let b_overdue = b.due_date > 0 && b.due_date < now;
    if a_overdue != b_overdue {
        return a_overdue;
    }
    let a_has_due = a.due_date > 0;
    let b_has_due = b.due_date > 0;
    if a_has_due != b_has_due {
        return a_has_due;
    }
    if a_has_due && b_has_due {
        return a.due_date < b.due_date;
    }
    false
}

/// Puts the tasks in list order at time `now`, keeping the relative order of
/// tasks that tie.
pub fn sort_by_rank(todos: &mut Vec<Todo>, now: u64)
    ensures
        stably_sorted_from(final(todos)@, old(todos)@, now),
        final(todos)@.to_multiset() == old(todos)@.to_multiset(),
{
    let mut src: Vec<Todo> = Vec::new();
    std::mem::swap(&mut src, todos);
    let ghost orig = src@;
    let ghost mut k: int = 0;
    assert(todos@ =~= orig.take(0));
    while src.len() > 0
        invariant
            0 <= k <= orig.len(),
            src@ == orig.skip(k),
            todos@.len() == k,
            sorted_by_rank(todos@, now),
            todos@.to_multiset() == orig.take(k).to_multiset(),
            forall|r: int| #[trigger] rank_class(todos@, r, now) == rank_class(orig.take(k), r, now),
        decreases src@.len(),
    {
        let x = src.remove(0);
        assert(x == orig[k]);
        assert(src@ =~= orig.skip(k + 1));
        let mut p: usize = 0;
        while p < todos.len() && !goes_before(&x, &todos[p], now)
            invariant
                p <= todos@.len(),
                forall|q: int| 0 <= q < p ==> rank(#[trigger] todos@[q], now) <= rank(x, now),
            decreases todos@.len() - p,
        {
            p = p + 1;
        }
        let ghost old_out = todos@;
        assert forall|q: int| p <= q < old_out.len() implies rank(#[trigger] old_out[q], now) > rank(x, now) by {
            assert(rank(old_out[p as int], now) <= rank(old_out[q], now));
        }
        let ghost xv = x;
        todos.insert(p, x);
        proof {
            assert(orig.take(k + 1) =~= orig.take(k).push(xv));
            assert(orig.take(k + 1).drop_last() =~= orig.take(k));
            assert forall|r: int| #[trigger] rank_class(todos@, r, now) == rank_class(orig.take(k + 1), r, now) by {
                lemma_insert_class(old_out, p as int, xv, r, now);
            }
            assert forall|i: int, j: int| 0 <= i <= j < todos@.len() implies
                rank(todos@[i], now) <= rank(todos@[j], now) by {
                assert(todos@ == old_out.insert(p as int, xv));
                if i < p && j > p {
                    assert(todos@[j] == old_out[j - 1]);
                    assert(rank(old_out[i], now) <= rank(old_out[j - 1], now));
                } else if i > p {
                    assert(rank(old_out[i - 1], now) <= rank(old_out[j - 1], now));
                } else if j < p {
                    assert(rank(old_out[i], now) <= rank(old_out[j], now));
                } else if i == p && j > p {
                    assert(todos@[j] == old_out[j - 1]);
                } else if i < p && j == p {
                    assert(todos@[i] == old_out[i]);
                }
            }
            broadcast use vstd::seq_lib::group_to_multiset_ensures;
            assert(todos@.remove(p as int) =~= old_out);
            assert(todos@[p as int] == xv);
            assert(todos@.to_multiset().remove(xv) =~= old_out.to_multiset());
            assert(todos@.contains(xv));
            assert(todos@.to_multiset() =~= old_out.to_multiset().insert(xv));
            k = k + 1;
        }
    }
    assert(orig.take(k) =~= orig);
}

} // verus!
