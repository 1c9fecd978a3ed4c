//! What holds of a queue over every sequence of operations.
//!
//! A trace is a sequence of pushes and pops. The functions here say where a
//! trace leaves the two buffers, what its pops answer, and how many elements
//! it moves from one buffer to the other. `Queue::push` and `Queue::pop` take
//! the buffers from one state to the next as `step` does, so what is proved
//! here of traces holds of every run of a queue. The lemmas relate a trace to
//! a plain sequence that grows at its tail and shrinks at its head, and bound
//! the work that a trace spends on moving elements.

use vstd::prelude::*;
use crate::queue::Buffers;

verus! {

/// One operation on a queue.
pub enum Op<T> {
    /// Put an element at the back.
    Push(T),
    /// Ask for the element at the front.
    Pop,
}

/// The buffers after one operation.
pub open spec fn step<T>(b: Buffers<T>, op: Op<T>) -> Buffers<T> {
    match op {
        Op::Push(t) => b.pushed(t),
        Op::Pop => b.popped(),
    }
}

/// The buffers after the operations of `ops`, first to last.
pub open spec fn after<T>(b: Buffers<T>, ops: Seq<Op<T>>) -> Buffers<T>
    decreases ops.len(),
{
    if ops.len() == 0 {
        b
    } else {
        step(after(b, ops.drop_last()), ops.last())
    }
}

/// What the pops of `ops` answer, one entry for each pop, in their order.
pub open spec fn answers<T>(b: Buffers<T>, ops: Seq<Op<T>>) -> Seq<Option<T>>
    decreases ops.len(),
{
    if ops.len() == 0 {
        Seq::empty()
    } else {
        let before = answers(b, ops.drop_last());
        match ops.last() {
            Op::Push(_) => before,
            Op::Pop => before.push(after(b, ops.drop_last()).front()),
        }
    }
}

/// How many elements the pops of `ops` move from `younger` to `older`, all
/// told.
pub open spec fn moved<T>(b: Buffers<T>, ops: Seq<Op<T>>) -> nat
    decreases ops.len(),
{
    if ops.len() == 0 {
        0
    } else {
        let before = moved(b, ops.drop_last());
        match ops.last() {
            Op::Push(_) => before,
            Op::Pop => before + after(b, ops.drop_last()).transfer_size(),
        }
    }
}

/// How many of `ops` are pushes.
pub open spec fn pushes<T>(ops: Seq<Op<T>>) -> nat
    decreases ops.len(),
{
    if ops.len() == 0 {
        0
    } else {
        pushes(ops.drop_last()) + if ops.last() is Push { 1nat } else { 0nat }
    }
}

/// How many of `given` hold an element.
pub open spec fn served<T>(given: Seq<Option<T>>) -> nat
    decreases given.len(),
{
    if given.len() == 0 {
        0
    } else {
        served(given.drop_last()) + if given.last() is Some { 1nat } else { 0nat }
    }
}

/// A push for each element of `vs`, in their order.
pub open spec fn push_each<T>(vs: Seq<T>) -> Seq<Op<T>> {
    Seq::new(vs.len(), |i: int| Op::Push(vs[i]))
}

/// `n` pops.
pub open spec fn pop_times<T>(n: nat) -> Seq<Op<T>> {
    Seq::new(n, |i: int| Op::Pop)
}

/// Each element of `vs` as the answer of a pop.
pub open spec fn each_some<T>(vs: Seq<T>) -> Seq<Option<T>> {
    Seq::new(vs.len(), |i: int| Some(vs[i]))
}

/// A plain sequence after one operation: a push appends at the tail, a pop
/// removes the head, if there is one.
pub open spec fn step_plain<T>(s: Seq<T>, op: Op<T>) -> Seq<T> {
    match op {
        Op::Push(t) => s.push(t),
        Op::Pop => if s.len() == 0 {
            s
        } else {
            s.drop_first()
        },
    }
}

/// A plain sequence after the operations of `ops`, first to last.
pub open spec fn after_plain<T>(s: Seq<T>, ops: Seq<Op<T>>) -> Seq<T>
    decreases ops.len(),
{
    if ops.len() == 0 {
        s
    } else {
        step_plain(after_plain(s, ops.drop_last()), ops.last())
    }
}

/// What the pops of `ops` answer on a plain sequence: its head, or `None`
/// where it holds nothing.
pub open spec fn answers_plain<T>(s: Seq<T>, ops: Seq<Op<T>>) -> Seq<Option<T>>
    decreases ops.len(),
{
    if ops.len() == 0 {
        Seq::empty()
    } else {
        let before = answers_plain(s, ops.drop_last());
        let now = after_plain(s, ops.drop_last());
        match ops.last() {
            Op::Push(_) => before,
            Op::Pop => before.push(
                if now.len() == 0 {
                    None
                } else {
                    Some(now.first())
                },
            ),
        }
    }
}

/// Whatever the pushes and pops and however they alternate, the queue answers
/// each pop as a plain sequence does, with the element that has waited
/// longest or with `None`, and holds afterwards what the plain sequence holds.
pub proof fn lemma_queue_is_plain_sequence<T>(b: Buffers<T>, ops: Seq<Op<T>>)
    ensures
        after(b, ops).content() == after_plain(b.content(), ops),
        answers(b, ops) == answers_plain(b.content(), ops),
    decreases ops.len(),
{
    if ops.len() > 0 {
        let head = ops.drop_last();
        lemma_queue_is_plain_sequence(b, head);
        let now = after(b, head);
        match ops.last() {
            Op::Push(t) => {
                now.lemma_pushed_content(t);
            },
            Op::Pop => {
                now.lemma_empty_content();
                now.lemma_popped_content();
            },
        }
    }
}

/// A trace in two parts does what its parts do one after the other.
pub proof fn lemma_trace_in_two_parts<T>(b: Buffers<T>, first: Seq<Op<T>>, second: Seq<Op<T>>)
    ensures
        after(b, first + second) == after(after(b, first), second),
        answers(b, first + second) == answers(b, first) + answers(after(b, first), second),
        moved(b, first + second) == moved(b, first) + moved(after(b, first), second),
        pushes(first + second) == pushes(first) + pushes(second),
    decreases second.len(),
{
    let mid = after(b, first);
    if second.len() == 0 {
        assert(first + second =~= first);
        assert(answers(b, first) + answers(mid, second) =~= answers(b, first));
    } else {
        let head = second.drop_last();
        assert((first + second).drop_last() =~= first + head);
        assert((first + second).last() == second.last());
        lemma_trace_in_two_parts(b, first, head);
        let given = answers(b, first);
        let next = after(mid, head).front();
        assert(given + answers(mid, head).push(next) =~= (given + answers(mid, head)).push(next));
    }
}

/// Pushes alone put their elements behind what is queued, in the order of
/// the pushes, and leave `older` as it is.
pub proof fn lemma_push_each<T>(b: Buffers<T>, vs: Seq<T>)
    ensures
        after(b, push_each(vs)).older == b.older,
        after(b, push_each(vs)).younger == b.younger + vs,
        after(b, push_each(vs)).content() == b.content() + vs,
        answers(b, push_each(vs)) == Seq::<Option<T>>::empty(),
        pushes(push_each(vs)) == vs.len(),
    decreases vs.len(),
{
    if vs.len() == 0 {
        assert(b.younger + vs =~= b.younger);
    } else {
        let head = vs.drop_last();
        assert(push_each(vs).drop_last() =~= push_each(head));
        assert(push_each(vs).last() == Op::Push(vs.last()));
        lemma_push_each(b, head);
        assert((b.younger + head).push(vs.last()) =~= b.younger + vs);
    }
    assert(after(b, push_each(vs)).content() =~= b.content() + vs);
}

/// As many pops as there are elements queued answer with those elements,
/// front to back, and leave both buffers empty.
pub proof fn lemma_drain<T>(b: Buffers<T>)
    ensures
        answers(b, pop_times(b.content().len())) == each_some(b.content()),
        after(b, pop_times(b.content().len())).is_empty(),
{
    let s = b.content();
    lemma_pops_take_prefix(s, s.len());
    lemma_queue_is_plain_sequence(b, pop_times(s.len()));
    assert(s.take(s.len() as int) =~= s);
    after(b, pop_times(s.len())).lemma_empty_content();
}

/// On a plain sequence, `n` pops answer with its first `n` elements and leave
/// the others.
proof fn lemma_pops_take_prefix<T>(s: Seq<T>, n: nat)
    requires
        n <= s.len(),
    ensures
        answers_plain(s, pop_times(n)) == each_some(s.take(n as int)),
        after_plain(s, pop_times(n)) == s.skip(n as int),
    decreases n,
{
    if n == 0 {
        assert(s.skip(0) =~= s);
        assert(each_some(s.take(0)) =~= Seq::<Option<T>>::empty());
    } else {
        let m = (n - 1) as nat;
        assert(pop_times::<T>(n).drop_last() =~= pop_times::<T>(m));
        lemma_pops_take_prefix(s, m);
        assert(s.skip(m as int).drop_first() =~= s.skip(n as int));
        let next = Some(s.skip(m as int).first());
        assert(each_some(s.take(m as int)).push(next) =~= each_some(s.take(n as int)));
    }
}

/// First in, first out: pushes alone, followed by a pop for each element
/// then queued, answer first with what was queued before, then with the
/// pushed elements in the order in which they were pushed, and leave the queue
/// empty. On a queue that was empty, as many pops as pushes answer with the
/// pushed elements in their order.
pub proof fn lemma_first_in_first_out<T>(b: Buffers<T>, vs: Seq<T>)
    ensures
        ({
            let ops = push_each(vs) + pop_times(b.content().len() + vs.len());
            &&& answers(b, ops) == each_some(b.content() + vs)
            &&& after(b, ops).is_empty()
        }),
        b.is_empty() ==> answers(b, push_each(vs) + pop_times(vs.len())) == each_some(vs),
{
    let pops = pop_times::<T>(b.content().len() + vs.len());
    let all = each_some(b.content() + vs);
    lemma_push_each(b, vs);
    lemma_drain(after(b, push_each(vs)));
    lemma_trace_in_two_parts(b, push_each(vs), pops);
    assert(Seq::<Option<T>>::empty() + all =~= all);
    if b.is_empty() {
        b.lemma_empty_content();
        assert(b.content() + vs =~= vs);
    }
}

/// Elements are neither lost nor made: what is queued and what the pops gave
/// out add up to what was queued at the start and what was pushed.
pub proof fn lemma_nothing_lost<T>(b: Buffers<T>, ops: Seq<Op<T>>)
    ensures
        after(b, ops).content().len() + served(answers(b, ops)) == b.content().len() + pushes(ops),
    decreases ops.len(),
{
    if ops.len() > 0 {
        let head = ops.drop_last();
        lemma_nothing_lost(b, head);
        let now = after(b, head);
        match ops.last() {
            Op::Push(t) => {
                now.lemma_pushed_content(t);
            },
            Op::Pop => {
                now.lemma_empty_content();
                now.lemma_popped_content();
                let given = answers(b, ops);
                assert(given.drop_last() =~= answers(b, head));
                assert(given.last() == now.front());
            },
        }
    }
}

/// A queue that started empty is empty again exactly when its pops have given
/// out every element that was pushed; while one is still to come, it is not
/// empty.
pub proof fn lemma_emptiness<T>(ops: Seq<Op<T>>)
    ensures
        Buffers::<T>::empty().is_empty(),
        ({
            let start = Buffers::<T>::empty();
            after(start, ops).is_empty() <==> served(answers(start, ops)) == pushes(ops)
        }),
{
    let start = Buffers::<T>::empty();
    lemma_nothing_lost(start, ops);
    start.lemma_empty_content();
    after(start, ops).lemma_empty_content();
}

/// Each element changes buffer once at most: the elements moved so far and
/// those still in `younger` are the ones that `younger` held at the start and
/// those pushed since.
pub proof fn lemma_each_element_moves_once<T>(b: Buffers<T>, ops: Seq<Op<T>>)
    ensures
        moved(b, ops) + after(b, ops).younger.len() == b.younger.len() + pushes(ops),
    decreases ops.len(),
{
    if ops.len() > 0 {
        lemma_each_element_moves_once(b, ops.drop_last());
    }
}

/// On a queue that starts empty, a trace moves no more elements between the
/// buffers than it pushes, and so no more than it has operations.
pub proof fn lemma_moves_bounded<T>(ops: Seq<Op<T>>)
    ensures
        moved(Buffers::<T>::empty(), ops) <= pushes(ops) <= ops.len(),
{
    lemma_each_element_moves_once(Buffers::<T>::empty(), ops);
    lemma_pushes_bounded(ops);
}

/// A trace has no more pushes than operations.
proof fn lemma_pushes_bounded<T>(ops: Seq<Op<T>>)
    ensures
        pushes(ops) <= ops.len(),
    decreases ops.len(),
{
    if ops.len() > 0 {
        lemma_pushes_bounded(ops.drop_last());
    }
}

} // verus!
