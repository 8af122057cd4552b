//! What holds of every heap, stated over the level-order model.

use crate::heap_order::lemma_inserted_is_ordered;
use crate::heap_order::lemma_ordered_root_leads;
use crate::heap_order::lemma_small_heap_stays_ordered;
use crate::level_order::drained;
use crate::level_order::drained_up_to;
use crate::level_order::extracted;
use crate::level_order::heap_ordered;
use crate::level_order::in_priority_order;
use crate::level_order::inserted;
use crate::level_order::lemma_extracted_elements;
use crate::level_order::lemma_inserted_elements;
use crate::level_order::root_leads;
use crate::level_order::root_leads_for;
use crate::level_order::root_leads_throughout;
use crate::order::lemma_irreflexive;
use crate::order::total_order;
use crate::order::Comparator;
use vstd::prelude::*;

verus! {

/// The heap that results from adding `values`, one after the other, to `s`.
pub open spec fn with_all_added<T: Ord>(c: Comparator, s: Seq<T>, values: Seq<T>) -> Seq<T>
    decreases values.len(),
{
    if values.len() == 0 {
        s
    } else {
        inserted(c, with_all_added(c, s, values.drop_last()), values.last())
    }
}

/// The heap property holds of `s` and of each heap that the next `n`
/// extractions leave.
pub open spec fn stays_ordered_for<T: Ord>(c: Comparator, s: Seq<T>, n: nat) -> bool
    decreases n,
{
    heap_ordered(c, s) && (n == 0 || s.len() == 0 || stays_ordered_for(
        c,
        extracted(c, s),
        (n - 1) as nat,
    ))
}

/// The heap property holds of `s` and of each heap that extraction leaves
/// while `s` is emptied.
pub open spec fn stays_ordered_throughout<T: Ord>(c: Comparator, s: Seq<T>) -> bool {
    stays_ordered_for(c, s, s.len())
}

/// Additions to a heap that has the heap property leave it with the heap
/// property.
pub proof fn lemma_additions_keep_order<T: Ord>(c: Comparator, s: Seq<T>, values: Seq<T>)
    requires
        total_order::<T>(),
        heap_ordered(c, s),
    ensures
        heap_ordered(c, with_all_added(c, s, values)),
    decreases values.len(),
{
    if values.len() > 0 {
        lemma_additions_keep_order(c, s, values.drop_last());
        lemma_inserted_is_ordered(c, with_all_added(c, s, values.drop_last()), values.last());
    }
}

/// After any sequence of additions to an empty heap, no element of the heap
/// outranks its parent.
pub proof fn lemma_built_heap_is_ordered<T: Ord>(c: Comparator, values: Seq<T>)
    requires
        total_order::<T>(),
    ensures
        heap_ordered(c, with_all_added(c, Seq::<T>::empty(), values)),
{
    lemma_additions_keep_order(c, Seq::<T>::empty(), values);
}

/// Additions put exactly the added values into the heap.
pub proof fn lemma_additions_elements<T: Ord>(c: Comparator, s: Seq<T>, values: Seq<T>)
    ensures
        with_all_added(c, s, values).len() == s.len() + values.len(),
        with_all_added(c, s, values).to_multiset() == s.to_multiset().add(values.to_multiset()),
    decreases values.len(),
{
    broadcast use vstd::multiset::group_multiset_axioms;

    if values.len() == 0 {
        assert(values.to_multiset() =~= vstd::multiset::Multiset::<T>::empty()) by {
            vstd::seq_lib::to_multiset_len(values);
        }
        assert(s.to_multiset().add(values.to_multiset()) =~= s.to_multiset());
    } else {
        let front = values.drop_last();
        lemma_additions_elements(c, s, front);
        lemma_inserted_elements(c, with_all_added(c, s, front), values.last());
        assert(values =~= front.push(values.last()));
        vstd::seq_lib::to_multiset_build(front, values.last());
        assert(s.to_multiset().add(front.to_multiset()).insert(values.last())
            =~= s.to_multiset().add(values.to_multiset()));
    }
}

/// Emptying a heap yields each of its elements exactly once.
pub proof fn lemma_drained_elements<T: Ord>(c: Comparator, s: Seq<T>)
    ensures
        drained(c, s).len() == s.len(),
        drained(c, s).to_multiset() == s.to_multiset(),
{
    lemma_drained_up_to_elements(c, s, s.len());
}

proof fn lemma_drained_up_to_elements<T: Ord>(c: Comparator, s: Seq<T>, n: nat)
    requires
        s.len() <= n,
    ensures
        drained_up_to(c, s, n).len() == s.len(),
        drained_up_to(c, s, n).to_multiset() == s.to_multiset(),
        drained_up_to(c, s, n) == drained(c, s),
    decreases n,
{
    broadcast use vstd::multiset::group_multiset_axioms;

    if s.len() == 0 {
        assert(s =~= drained_up_to(c, s, n));
    } else {
        let rest = extracted(c, s);
        lemma_extracted_elements(c, s);
        lemma_drained_up_to_elements(c, rest, (n - 1) as nat);
        lemma_drained_up_to_elements(c, rest, (s.len() - 1) as nat);
        let tail = drained_up_to(c, rest, (n - 1) as nat);
        assert(seq![s[0]] + tail =~= tail.insert(0, s[0]));
        vstd::seq_lib::to_multiset_insert(tail, 0, s[0]);
        vstd::seq_lib::to_multiset_contains(s, s[0]);
        assert(s.contains(s[0]));
        assert(s.to_multiset().remove(s[0]).insert(s[0]) =~= s.to_multiset());
    }
}

/// Emptying a heap to which `values` were added, starting from an empty heap,
/// yields exactly the added values.
pub proof fn lemma_drain_yields_what_was_added<T: Ord>(c: Comparator, values: Seq<T>)
    ensures
        drained(c, with_all_added(c, Seq::<T>::empty(), values)).to_multiset()
            == values.to_multiset(),
{
    broadcast use vstd::multiset::group_multiset_axioms;

    let built = with_all_added(c, Seq::<T>::empty(), values);
    lemma_additions_elements(c, Seq::<T>::empty(), values);
    lemma_drained_elements(c, built);
    assert(Seq::<T>::empty().to_multiset() =~= vstd::multiset::Multiset::<T>::empty()) by {
        vstd::seq_lib::to_multiset_len(Seq::<T>::empty());
    }
    assert(Seq::<T>::empty().to_multiset().add(values.to_multiset()) =~= values.to_multiset());
}

/// Emptying a heap yields its elements in priority order exactly when, at
/// each extraction, no element of the heap outranks the root.
pub proof fn lemma_drained_in_order<T: Ord>(c: Comparator, s: Seq<T>)
    requires
        total_order::<T>(),
    ensures
        in_priority_order(c, drained(c, s)) <==> root_leads_throughout(c, s),
{
    lemma_drained_up_to_in_order(c, s, s.len());
}

proof fn lemma_drained_up_to_in_order<T: Ord>(c: Comparator, s: Seq<T>, n: nat)
    requires
        total_order::<T>(),
        s.len() <= n,
    ensures
        in_priority_order(c, drained_up_to(c, s, n)) <==> root_leads_for(c, s, n),
    decreases n,
{
    if s.len() > 0 {
        let rest = extracted(c, s);
        let tail = drained_up_to(c, rest, (n - 1) as nat);
        let d = drained_up_to(c, s, n);
        lemma_extracted_elements(c, s);
        lemma_drained_up_to_elements(c, rest, (n - 1) as nat);
        lemma_drained_up_to_elements(c, s, n);
        lemma_drained_up_to_in_order(c, rest, (n - 1) as nat);
        assert(d =~= seq![s[0]] + tail);
        assert(d[0] == s[0]);
        assert forall|j: int| 1 <= j < d.len() implies #[trigger] d[j] == tail[j - 1] by {}
        if in_priority_order(c, d) {
            assert forall|i: int| 0 <= i < s.len() implies !c.outranks(#[trigger] s[i], s[0]) by {
                vstd::seq_lib::to_multiset_contains(s, s[i]);
                vstd::seq_lib::to_multiset_contains(d, s[i]);
                assert(s.contains(s[i]));
                let j = choose|j: int| 0 <= j < d.len() && d[j] == s[i];
                if j == 0 {
                    lemma_irreflexive(c, s[0]);
                } else {
                    assert(!c.outranks(d[j], d[0]));
                }
            }
            assert forall|i: int, j: int| 0 <= i < j < tail.len() implies !c.outranks(
                #[trigger] tail[j],
                #[trigger] tail[i],
            ) by {
                assert(tail[j] == d[j + 1]);
                assert(tail[i] == d[i + 1]);
            }
        }
        if root_leads_for(c, s, n) {
            assert forall|i: int, j: int| 0 <= i < j < d.len() implies !c.outranks(
                #[trigger] d[j],
                #[trigger] d[i],
            ) by {
                if i == 0 {
                    let e = tail[j - 1];
                    broadcast use vstd::multiset::group_multiset_axioms;

                    vstd::seq_lib::to_multiset_contains(tail, e);
                    vstd::seq_lib::to_multiset_contains(s, e);
                    assert(tail.contains(e));
                    assert(s.contains(e));
                    let k = choose|k: int| 0 <= k < s.len() && s[k] == e;
                    assert(!c.outranks(s[k], s[0]));
                } else {
                    assert(!c.outranks(tail[j - 1], tail[i - 1]));
                }
            }
        }
    }
}

/// Where each extraction leaves the heap property intact, emptying the heap
/// yields its elements in priority order.
pub proof fn lemma_ordered_drain_in_order<T: Ord>(c: Comparator, s: Seq<T>)
    requires
        total_order::<T>(),
        stays_ordered_throughout(c, s),
    ensures
        in_priority_order(c, drained(c, s)),
{
    lemma_stays_ordered_root_leads(c, s, s.len());
    lemma_drained_in_order(c, s);
}

proof fn lemma_stays_ordered_root_leads<T: Ord>(c: Comparator, s: Seq<T>, n: nat)
    requires
        total_order::<T>(),
        stays_ordered_for(c, s, n),
    ensures
        root_leads_for(c, s, n),
    decreases n,
{
    if n > 0 && s.len() > 0 {
        lemma_ordered_root_leads(c, s);
        lemma_stays_ordered_root_leads(c, extracted(c, s), (n - 1) as nat);
    }
}

/// A heap of at most five elements that has the heap property yields its
/// elements in priority order when it is emptied.
pub proof fn lemma_small_heap_drains_in_order<T: Ord>(c: Comparator, s: Seq<T>)
    requires
        total_order::<T>(),
        heap_ordered(c, s),
        s.len() <= 5,
    ensures
        in_priority_order(c, drained(c, s)),
{
    lemma_small_heap_stays_ordered_for(c, s, s.len());
    lemma_ordered_drain_in_order(c, s);
}

/// Up to five values added to an empty heap come out in priority order when
/// the heap is emptied.
pub proof fn lemma_few_additions_drain_in_order<T: Ord>(c: Comparator, values: Seq<T>)
    requires
        total_order::<T>(),
        values.len() <= 5,
    ensures
        in_priority_order(c, drained(c, with_all_added(c, Seq::<T>::empty(), values))),
{
    lemma_built_heap_is_ordered(c, values);
    lemma_additions_elements(c, Seq::<T>::empty(), values);
    lemma_small_heap_drains_in_order(c, with_all_added(c, Seq::<T>::empty(), values));
}

proof fn lemma_small_heap_stays_ordered_for<T: Ord>(c: Comparator, s: Seq<T>, n: nat)
    requires
        total_order::<T>(),
        heap_ordered(c, s),
        s.len() <= 5,
    ensures
        stays_ordered_for(c, s, n),
    decreases n,
{
    if n > 0 && s.len() > 0 {
        lemma_small_heap_stays_ordered(c, s);
        lemma_extracted_elements(c, s);
        lemma_small_heap_stays_ordered_for(c, extracted(c, s), (n - 1) as nat);
    }
}

/// One call on a heap: an addition of a value, or an extraction.
pub enum Call<T> {
    Add(T),
    Next,
}

/// The heap after `calls` were made on `s`, one after the other.
pub open spec fn after_calls<T: Ord>(c: Comparator, s: Seq<T>, calls: Seq<Call<T>>) -> Seq<T>
    decreases calls.len(),
{
    if calls.len() == 0 {
        s
    } else {
        let before = after_calls(c, s, calls.drop_last());
        match calls.last() {
            Call::Add(value) => inserted(c, before, value),
            Call::Next => extracted(c, before),
        }
    }
}

/// How many of `calls` are additions.
pub open spec fn additions<T>(calls: Seq<Call<T>>) -> nat
    decreases calls.len(),
{
    if calls.len() == 0 {
        0
    } else if calls.last() is Add {
        additions(calls.drop_last()) + 1
    } else {
        additions(calls.drop_last())
    }
}

/// How many of `calls`, made on `s`, are extractions that find the heap
/// non-empty and so yield an element.
pub open spec fn yields<T: Ord>(c: Comparator, s: Seq<T>, calls: Seq<Call<T>>) -> nat
    decreases calls.len(),
{
    if calls.len() == 0 {
        0
    } else if calls.last() is Next && after_calls(c, s, calls.drop_last()).len() > 0 {
        yields(c, s, calls.drop_last()) + 1
    } else {
        yields(c, s, calls.drop_last())
    }
}

/// After any sequence of calls the heap holds as many elements as it held
/// before, plus one for each addition, minus one for each extraction that
/// yielded an element. For a heap that was empty at first, its length is the
/// number of additions minus the number of elements yielded.
pub proof fn lemma_length_accounts_for_calls<T: Ord>(
    c: Comparator,
    s: Seq<T>,
    calls: Seq<Call<T>>,
)
    ensures
        after_calls(c, s, calls).len() == s.len() + additions(calls) - yields(c, s, calls),
    decreases calls.len(),
{
    if calls.len() > 0 {
        let before = after_calls(c, s, calls.drop_last());
        lemma_length_accounts_for_calls(c, s, calls.drop_last());
        match calls.last() {
            Call::Add(value) => {
                lemma_inserted_elements(c, before, value);
            },
            Call::Next => {
                lemma_extracted_elements(c, before);
            },
        }
    }
}

/// An empty heap to which nothing is added stays empty and yields nothing,
/// however often extraction is tried.
pub proof fn lemma_empty_heap_yields_nothing<T: Ord>(
    c: Comparator,
    s: Seq<T>,
    calls: Seq<Call<T>>,
)
    requires
        s.len() == 0,
        additions(calls) == 0,
    ensures
        after_calls(c, s, calls) == s,
        yields(c, s, calls) == 0,
{
    lemma_length_accounts_for_calls(c, s, calls);
    assert(after_calls(c, s, calls) =~= s);
}

/// An element added to an empty heap is the root, and extracting it leaves
/// the heap empty.
pub proof fn lemma_add_then_next<T: Ord>(c: Comparator, s: Seq<T>, value: T)
    requires
        s.len() == 0,
    ensures
        inserted(c, s, value) == seq![value],
        extracted(c, inserted(c, s, value)) == s,
{
    assert(s.push(value) =~= seq![value]);
    lemma_extracted_elements(c, seq![value]);
    assert(extracted(c, seq![value]) =~= s);
}

} // verus!
