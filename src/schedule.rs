//! Ordering of fetched fragments: results land in slots by index, so the output follows the
//! enumeration order whatever order the fetches complete in; plus the names that keep the files
//! and the muxer's manifest in that order.
use vstd::prelude::*;

use crate::fetch::FetchError;
use crate::text::{decimal, decimal_string};

verus! {

/// A page or fragment to fetch, with its position in the enumeration: the one key of the
/// final order.
pub struct FetchTarget {
    pub index: usize,
    pub url: String,
}

/// The targets of a list of addresses, numbered in list order from 0.
pub fn enumerate_targets(urls: &Vec<String>) -> (r: Vec<FetchTarget>)
    ensures
        r@.len() == urls@.len(),
        forall|i: int| 0 <= i < r@.len() ==> (#[trigger] r@[i]).index == i && r@[i].url@ == urls@[i]@,
{
    let mut out: Vec<FetchTarget> = Vec::new();
    let mut i: usize = 0;
    while i < urls.len()
        invariant
            i <= urls@.len(),
            out@.len() == i,
            forall|k: int| 0 <= k < i ==> (#[trigger] out@[k]).index == k && out@[k].url@ == urls@[k]@,
        decreases urls@.len() - i,
    {
        out.push(FetchTarget { index: i, url: urls[i].clone() });
        i = i + 1;
    }
    out
}

/// One slot per fetch target; slot `i` receives the result of target `i`.
pub struct FragmentSlots<T> {
    slots: Vec<Option<T>>,
}

impl<T> View for FragmentSlots<T> {
    type V = Seq<Option<T>>;

    closed spec fn view(&self) -> Seq<Option<T>> {
        self.slots@
    }
}

/// The slots after results arrive in the order of `done`, each a (target index, result) pair.
pub open spec fn fill<T>(slots: Seq<Option<T>>, done: Seq<(int, T)>) -> Seq<Option<T>>
    decreases done.len(),
{
    if done.len() == 0 {
        slots
    } else {
        fill(slots, done.drop_last()).update(done.last().0, Some(done.last().1))
    }
}

/// `n` empty slots.
pub open spec fn empty_slots<T>(n: nat) -> Seq<Option<T>> {
    Seq::new(n, |i: int| None::<T>)
}

/// Each of the targets `0..n` arrives exactly once in `done`.
pub open spec fn each_once<T>(n: nat, done: Seq<(int, T)>) -> bool {
    &&& forall|j: int| 0 <= j < done.len() ==> 0 <= #[trigger] done[j].0 < n
    &&& forall|j1: int, j2: int|
        0 <= j1 < done.len() && 0 <= j2 < done.len() && j1 != j2 ==> #[trigger] done[j1].0
            != #[trigger] done[j2].0
    &&& forall|i: int| 0 <= i < n ==> #[trigger] arrives(done, i)
}

/// Target `i` completes somewhere in `done`.
pub open spec fn arrives<T>(done: Seq<(int, T)>, i: int) -> bool {
    exists|j: int| 0 <= j < done.len() && #[trigger] done[j].0 == i
}

impl<T> FragmentSlots<T> {
    /// `n` empty slots.
    pub fn new(n: usize) -> (r: Self)
        ensures
            r@ == empty_slots::<T>(n as nat),
    {
        let mut slots: Vec<Option<T>> = Vec::new();
        let mut i: usize = 0;
        while i < n
            invariant
                i <= n,
                slots@ == empty_slots::<T>(i as nat),
            decreases n - i,
        {
            slots.push(None);
            i = i + 1;
            assert(slots@ =~= empty_slots::<T>(i as nat));
        }
        FragmentSlots { slots }
    }

    /// Number of slots.
    pub fn len(&self) -> (r: usize)
        ensures
            r == self@.len(),
    {
        self.slots.len()
    }

    /// Puts the result of target `index` in its slot.
    pub fn store(&mut self, index: usize, value: T)
        requires
            index < old(self)@.len(),
        ensures
            final(self)@ == old(self)@.update(index as int, Some(value)),
    {
        self.slots[index] = Some(value);
    }

    /// Whether every slot holds a result.
    pub fn is_complete(&self) -> (r: bool)
        ensures
            r == forall|i: int| 0 <= i < self@.len() ==> self@[i] is Some,
    {
        let mut i: usize = 0;
        while i < self.slots.len()
            invariant
                i <= self@.len(),
                forall|k: int| 0 <= k < i ==> self@[k] is Some,
            decreases self@.len() - i,
        {
            if self.slots[i].is_none() {
                return false;
            }
            i = i + 1;
        }
        true
    }

    /// The results in slot order, once every slot holds one; `None` while one is empty.
    pub fn into_ordered(self) -> (r: Option<Vec<T>>)
        ensures
            r is Some <==> forall|i: int| 0 <= i < self@.len() ==> self@[i] is Some,
            r matches Some(v) ==> v@.len() == self@.len() && forall|i: int|
                0 <= i < self@.len() ==> self@[i] == Some(#[trigger] v@[i]),
    {
        if !self.is_complete() {
            return None;
        }
        let ghost full = self@;
        let mut rest = self.slots;
        let mut out: Vec<T> = Vec::new();
        while rest.len() > 0
            invariant
                out@.len() + rest@.len() == full.len(),
                forall|i: int| 0 <= i < out@.len() ==> full[i] == Some(#[trigger] out@[i]),
                forall|i: int| 0 <= i < rest@.len() ==> #[trigger] rest@[i] == full[out@.len() + i],
                forall|i: int| 0 <= i < full.len() ==> full[i] is Some,
            decreases rest@.len(),
        {
            let ghost before = rest@;
            let item = rest.remove(0);
            assert(item == full[out@.len() as int]);
            assert forall|i: int| 0 <= i < rest@.len() implies #[trigger] rest@[i] == full[out@.len()
                + 1 + i] by {
                assert(rest@[i] == before[i + 1]);
            }
            match item {
                Some(v) => out.push(v),
                None => {},
            }
        }
        Some(out)
    }
}

proof fn lemma_fill_holds<T>(slots: Seq<Option<T>>, done: Seq<(int, T)>, j: int)
    requires
        0 <= j < done.len(),
        forall|k: int| 0 <= k < done.len() ==> 0 <= #[trigger] done[k].0 < slots.len(),
        forall|j1: int, j2: int|
            0 <= j1 < done.len() && 0 <= j2 < done.len() && j1 != j2 ==> #[trigger] done[j1].0
                != #[trigger] done[j2].0,
    ensures
        fill(slots, done).len() == slots.len(),
        fill(slots, done)[done[j].0] == Some(done[j].1),
    decreases done.len(),
{
    lemma_fill_len(slots, done);
    let d = done.drop_last();
    assert forall|k: int| 0 <= k < d.len() implies 0 <= #[trigger] d[k].0 < slots.len() by {
        assert(d[k] == done[k]);
    }
    lemma_fill_len(slots, d);
    if j < done.len() - 1 {
        assert(d[j] == done[j]);
        assert forall|j1: int, j2: int|
            0 <= j1 < d.len() && 0 <= j2 < d.len() && j1 != j2 implies #[trigger] d[j1].0
                != #[trigger] d[j2].0 by {
            assert(d[j1] == done[j1]);
            assert(d[j2] == done[j2]);
        }
        lemma_fill_holds(slots, d, j);
        assert(done[j].0 != done[done.len() - 1].0);
    }
}

proof fn lemma_fill_len<T>(slots: Seq<Option<T>>, done: Seq<(int, T)>)
    requires
        forall|k: int| 0 <= k < done.len() ==> 0 <= #[trigger] done[k].0 < slots.len(),
    ensures
        fill(slots, done).len() == slots.len(),
    decreases done.len(),
{
    if done.len() > 0 {
        let d = done.drop_last();
        assert forall|k: int| 0 <= k < d.len() implies 0 <= #[trigger] d[k].0 < slots.len() by {
            assert(d[k] == done[k]);
        }
        lemma_fill_len(slots, d);
    }
}

/// Order under concurrency: when each of `n` targets completes exactly once, in any order, the
/// slots end up all filled and slot `i` holds the result of target `i`; so two completion orders
/// of the same results give the same ordered output.
pub proof fn lemma_completion_order_irrelevant<T>(
    n: nat,
    done: Seq<(int, T)>,
    other: Seq<(int, T)>,
)
    requires
        each_once(n, done),
        other.to_set() == done.to_set(),
        each_once(n, other),
    ensures
        fill(empty_slots::<T>(n), done).len() == n,
        forall|i: int| 0 <= i < n ==> fill(empty_slots::<T>(n), done)[i] is Some,
        forall|j: int|
            0 <= j < done.len() ==> fill(empty_slots::<T>(n), done)[#[trigger] done[j].0] == Some(
                done[j].1,
            ),
        fill(empty_slots::<T>(n), done) == fill(empty_slots::<T>(n), other),
{
    let e = empty_slots::<T>(n);
    lemma_fill_len(e, done);
    lemma_fill_len(e, other);
    assert forall|j: int| 0 <= j < done.len() implies fill(e, done)[#[trigger] done[j].0] == Some(
        done[j].1,
    ) by {
        lemma_fill_holds(e, done, j);
    }
    assert forall|i: int| 0 <= i < n implies fill(e, done)[i] is Some by {
        assert(arrives(done, i));
        let j = choose|j: int| 0 <= j < done.len() && #[trigger] done[j].0 == i;
        lemma_fill_holds(e, done, j);
    }
    assert forall|i: int| 0 <= i < n implies fill(e, done)[i] == fill(e, other)[i] by {
        assert(arrives(done, i));
        let j = choose|j: int| 0 <= j < done.len() && #[trigger] done[j].0 == i;
        lemma_fill_holds(e, done, j);
        assert(done.to_set().contains(done[j]));
        assert(other.to_set().contains(done[j]));
        let k = choose|k: int| 0 <= k < other.len() && other[k] == done[j];
        lemma_fill_holds(e, other, k);
    }
    assert(fill(e, done) =~= fill(e, other));
}

/// Name of the file that holds fragment `index`.
pub open spec fn fragment_name(index: nat) -> Seq<char> {
    decimal(index) + seq!['.', 'h', 't', 'm', 'l']
}

/// The manifest line that lists fragment `index`.
pub open spec fn manifest_line(index: nat) -> Seq<char> {
    seq!['f', 'i', 'l', 'e', ' ', '.', '/'] + fragment_name(index) + seq!['\n']
}

/// The manifest of fragments `0..n`, one line each, in index order.
pub open spec fn manifest_text(n: nat) -> Seq<char>
    decreases n,
{
    if n == 0 {
        Seq::empty()
    } else {
        manifest_text((n - 1) as nat) + manifest_line((n - 1) as nat)
    }
}

/// The file name of fragment `index`: its decimal index and the extension.
pub fn fragment_file_name(index: usize) -> (r: String)
    ensures
        r@ == fragment_name(index as nat),
{
    let mut name = decimal_string(index as u64);
    name.append(".html");
    proof {
        reveal_strlit(".html");
    }
    assert(name@ =~= fragment_name(index as nat));
    name
}

/// The manifest that hands fragments `0..count` to the muxer, in index order.
pub fn manifest(count: usize) -> (r: String)
    ensures
        r@ == manifest_text(count as nat),
{
    let mut out = String::new();
    let mut i: usize = 0;
    while i < count
        invariant
            i <= count,
            out@ == manifest_text(i as nat),
        decreases count - i,
    {
        proof {
            reveal_strlit("file ./");
            reveal_strlit("\n");
        }
        let ghost before = out@;
        out.append("file ./");
        let name = fragment_file_name(i);
        out.append(name.as_str());
        out.append("\n");
        assert(out@ =~= before + manifest_line(i as nat));
        i = i + 1;
    }
    out
}

/// Whether a run fetches the next fragment after one has completed: a sequential run stops at
/// its first failure, a parallel run lets every fetch finish.
pub fn continue_after(parallel: bool, failed: bool) -> (r: bool)
    ensures
        r == (parallel || !failed),
{
    parallel || !failed
}

/// The indices of the failed results, in index order.
pub open spec fn failed_indices(results: Seq<Result<(), FetchError>>) -> Seq<int>
    decreases results.len(),
{
    if results.len() == 0 {
        Seq::empty()
    } else {
        let head = failed_indices(results.drop_last());
        if results.last() is Err {
            head.push(results.len() - 1)
        } else {
            head
        }
    }
}

/// The indices of the fragments whose fetch failed, in index order.
pub fn failed_fragments(results: &Vec<Result<(), FetchError>>) -> (r: Vec<usize>)
    ensures
        r@.map_values(|i: usize| i as int) == failed_indices(results@),
{
    let mut out: Vec<usize> = Vec::new();
    let mut i: usize = 0;
    while i < results.len()
        invariant
            i <= results@.len(),
            out@.map_values(|k: usize| k as int) == failed_indices(results@.subrange(0, i as int)),
        decreases results@.len() - i,
    {
        let ghost prefix = results@.subrange(0, i as int);
        assert(results@.subrange(0, i + 1).drop_last() =~= prefix);
        assert(results@.subrange(0, i + 1).last() == results@[i as int]);
        if results[i].is_err() {
            out.push(i);
            assert(out@.map_values(|k: usize| k as int) =~= failed_indices(prefix).push(i as int));
        }
        i = i + 1;
    }
    assert(results@.subrange(0, results@.len() as int) =~= results@);
    out
}

/// Whether every fetch succeeded.
fn all_ok(v: &Vec<Result<(), FetchError>>) -> (r: bool)
    ensures
        r == forall|i: int| 0 <= i < v@.len() ==> v@[i] is Ok,
{
    let mut i: usize = 0;
    while i < v.len()
        invariant
            i <= v@.len(),
            forall|k: int| 0 <= k < i ==> v@[k] is Ok,
        decreases v@.len() - i,
    {
        if v[i].is_err() {
            assert(!(v@[i as int] is Ok));
            return false;
        }
        i = i + 1;
    }
    true
}

/// Whether the fragments may be handed to the muxer: every slot was filled and every fetch
/// succeeded. A run with a failed or missing fragment produces no media file.
pub fn mux_ready(results: &Option<Vec<Result<(), FetchError>>>) -> (r: bool)
    ensures
        r == (results matches Some(v) && forall|i: int| 0 <= i < v@.len() ==> v@[i] is Ok),
{
    match results {
        None => false,
        Some(v) => all_ok(v),
    }
}

} // verus!
