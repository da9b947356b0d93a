use vstd::prelude::*;
use vstd::std_specs::cmp::PartialEqSpec;
use std::marker::PhantomData;
use itertools::Itertools;
use bitvec::array::BitArray;
use bitvec::order::Lsb0;
use crate::error::WalletError;

verus! {

/// The indices at which `marks` holds `true`, in ascending order.
pub open spec fn true_positions(marks: Seq<bool>) -> Seq<usize>
    decreases marks.len(),
{
    if marks.len() == 0 {
        Seq::empty()
    } else {
        let rest = true_positions(marks.drop_last());
        if marks.last() {
            rest.push((marks.len() - 1) as usize)
        } else {
            rest
        }
    }
}

/// How many entries of `marks` are `true`.
pub open spec fn count_true(marks: Seq<bool>) -> nat
    decreases marks.len(),
{
    if marks.len() == 0 {
        0
    } else {
        count_true(marks.drop_last()) + if marks.last() { 1nat } else { 0nat }
    }
}

/// `true_positions` lists exactly the marked indices, each once, in strictly
/// ascending order, so its length is the number of marks.
pub proof fn lemma_true_positions(marks: Seq<bool>)
    requires
        marks.len() <= usize::MAX,
    ensures
        true_positions(marks).len() == count_true(marks),
        count_true(marks) <= marks.len(),
        forall|k: int|
            0 <= k < true_positions(marks).len() ==> {
                &&& (#[trigger] true_positions(marks)[k]) < marks.len()
                &&& marks[true_positions(marks)[k] as int]
            },
        forall|j: int, k: int|
            0 <= j < k < true_positions(marks).len() ==> true_positions(marks)[j]
                < true_positions(marks)[k],
        forall|i: int|
            0 <= i < marks.len() && marks[i] ==> true_positions(marks).contains(i as usize),
    decreases marks.len(),
{
    if marks.len() > 0 {
        let front = marks.drop_last();
        let rest = true_positions(front);
        let all = true_positions(marks);
        lemma_true_positions(front);
        assert forall|i: int| 0 <= i < marks.len() && marks[i] implies all.contains(
            i as usize,
        ) by {
            if i < front.len() {
                assert(front[i]);
                let k = choose|k: int| 0 <= k < rest.len() && rest[k] == i as usize;
                assert(all[k] == i as usize);
            } else {
                assert(all[all.len() - 1] == i as usize);
            }
        }
    }
}

/// Complementary marks split the length between them.
pub proof fn lemma_count_true_complement(marks: Seq<bool>, others: Seq<bool>)
    requires
        marks.len() == others.len(),
        forall|i: int| 0 <= i < marks.len() ==> marks[i] == !others[i],
    ensures
        count_true(marks) + count_true(others) == marks.len(),
    decreases marks.len(),
{
    if marks.len() > 0 {
        lemma_count_true_complement(marks.drop_last(), others.drop_last());
    }
}

/// With no mark set, nothing is counted and no position is listed.
pub proof fn lemma_no_marks(marks: Seq<bool>)
    requires
        forall|i: int| 0 <= i < marks.len() ==> !marks[i],
    ensures
        count_true(marks) == 0,
        true_positions(marks) == Seq::<usize>::empty(),
    decreases marks.len(),
{
    if marks.len() > 0 {
        lemma_no_marks(marks.drop_last());
    }
}

/// Reads one mark; the predicate handed to `positions`.
fn is_marked(mark: &bool) -> (r: bool)
    ensures
        r == *mark,
{
    *mark
}

/// Calls `itertools::Itertools::positions` on the marks and collects what it
/// yields with `collect_vec`. The contract is what itertools documents of
/// `positions`: the indices of all elements that satisfy the predicate,
/// counted from the start of the iterator.
#[verifier::external_body]
fn marked_positions(marks: &Vec<bool>) -> (r: Vec<usize>)
    ensures
        r@ == true_positions(marks@),
{
    marks.iter().positions(is_marked).collect_vec()
}

/// Bit `index` of a byte buffer, each byte read least significant bit first.
pub open spec fn bit_at(data: Seq<u8>, index: int) -> bool {
    (data[index / 8] >> ((index % 8) as u8)) & 1u8 == 1u8
}

/// The bits of a byte buffer, eight per byte.
pub open spec fn bits_of(data: Seq<u8>) -> Seq<bool> {
    Seq::new(8 * data.len(), |i: int| bit_at(data, i))
}

/// Calls `BitSlice::set` on the buffer viewed as a `BitArray` in `Lsb0` order:
/// the bit at `index` takes `value` and every other bit keeps its value.
#[verifier::external_body]
fn set_bit<const N: usize>(data: &mut [u8; N], index: usize, value: bool)
    requires
        index < 8 * N,
    ensures
        bits_of(final(data)@) == bits_of(old(data)@).update(index as int, value),
{
    let mut bits = BitArray::<[u8; N], Lsb0>::new(*data);
    bits.set(index, value);
    *data = bits.into_inner();
}

/// Reads the bit at `index` by indexing the buffer viewed as a `BitArray` in
/// `Lsb0` order.
#[verifier::external_body]
fn get_bit<const N: usize>(data: &[u8; N], index: usize) -> (r: bool)
    requires
        index < 8 * N,
    ensures
        r == bits_of(data@)[index as int],
{
    BitArray::<[u8; N], Lsb0>::new(*data)[index]
}

/// Calls `BitSlice::count_ones` on the buffer viewed as a `BitArray`: the
/// number of bits that are set.
#[verifier::external_body]
fn count_ones<const N: usize>(data: &[u8; N]) -> (r: usize)
    ensures
        r == count_true(bits_of(data@)),
{
    BitArray::<[u8; N], Lsb0>::new(*data).count_ones()
}

/// Calls `BitSlice::iter_ones` on the buffer viewed as a `BitArray` in `Lsb0`
/// order and collects what it yields: the index of each set bit, ascending.
#[verifier::external_body]
fn ones<const N: usize>(data: &[u8; N]) -> (r: Vec<usize>)
    ensures
        r@ == true_positions(bits_of(data@)),
{
    BitArray::<[u8; N], Lsb0>::new(*data).iter_ones().collect()
}

/// `==` on `A` decides equality of values.
pub open spec fn eq_is_identity<A: PartialEq>() -> bool {
    &&& A::obeys_eq_spec()
    &&& forall|x: A, y: A| #[trigger] x.eq_spec(&y) <==> x == y
}

/// A slot of a registry whose items have type `A`.
#[derive(Debug, PartialEq)]
pub struct OptArrayRef<A> {
    id: usize,
    item_type: PhantomData<A>,
}

impl<A> Clone for OptArrayRef<A> {
    fn clone(&self) -> (r: Self)
        ensures
            r == *self,
    {
        OptArrayRef { id: self.id, item_type: PhantomData }
    }
}

impl<A> Copy for OptArrayRef<A> {

}

impl<A> View for OptArrayRef<A> {
    type V = usize;

    /// The slot's number.
    closed spec fn view(&self) -> usize {
        self.id
    }
}

impl<A> OptArrayRef<A> {
    /// The slot with the given number.
    pub(crate) fn new(id: usize) -> (r: Self)
        ensures
            r@ == id,
    {
        Self { id, item_type: PhantomData }
    }

    /// The slot's number.
    pub fn id(&self) -> (r: usize)
        ensures
            r == self@,
    {
        self.id
    }
}

/// The slot numbers of a list of references.
pub open spec fn ref_ids<A>(refs: Seq<OptArrayRef<A>>) -> Seq<usize> {
    Seq::new(refs.len(), |i: int| refs[i]@)
}

/// Which slots are empty.
pub open spec fn free_marks<A>(slots: Seq<Option<A>>) -> Seq<bool> {
    Seq::new(slots.len(), |i: int| slots[i] is None)
}

/// Which slots hold an item.
pub open spec fn live_marks<A>(slots: Seq<Option<A>>) -> Seq<bool> {
    Seq::new(slots.len(), |i: int| slots[i] is Some)
}

/// Which slots hold one of `items`.
pub open spec fn holder_marks<A>(slots: Seq<Option<A>>, items: Seq<A>) -> Seq<bool> {
    Seq::new(slots.len(), |i: int| slots[i] is Some && items.contains(slots[i]->Some_0))
}

/// `slots` after the first `n` of `items` went, in order, into the slots that
/// `free` lists.
pub open spec fn place_first<A>(slots: Seq<Option<A>>, free: Seq<usize>, items: Seq<A>, n: nat) -> Seq<
    Option<A>,
>
    decreases n,
{
    if n == 0 {
        slots
    } else {
        place_first(slots, free, items, (n - 1) as nat).update(
            free[n - 1] as int,
            Some(items[n - 1]),
        )
    }
}

/// `slots` after every item went into the lowest slot that was empty at its
/// turn.
pub open spec fn placed<A>(slots: Seq<Option<A>>, items: Seq<A>) -> Seq<Option<A>> {
    place_first(slots, true_positions(free_marks(slots)), items, items.len())
}

/// Whether each of `items` is held by some slot.
pub open spec fn all_held<A>(slots: Seq<Option<A>>, items: Seq<A>) -> bool {
    forall|k: int| 0 <= k < items.len() ==> slots.contains(Some(#[trigger] items[k]))
}

/// `slots` with every slot that holds one of `items` emptied.
pub open spec fn without<A>(slots: Seq<Option<A>>, items: Seq<A>) -> Seq<Option<A>> {
    Seq::new(
        slots.len(),
        |i: int|
            if slots[i] is Some && items.contains(slots[i]->Some_0) {
                None
            } else {
                slots[i]
            },
    )
}

/// `flags` with the flags numbered in `ids` set to `value`.
pub open spec fn with_slots(flags: Seq<bool>, ids: Seq<usize>, value: bool) -> Seq<bool> {
    Seq::new(flags.len(), |i: int| if has_id(ids, i) { value } else { flags[i] })
}

/// Whether `ids` names slot `i`.
pub open spec fn has_id(ids: Seq<usize>, i: int) -> bool {
    exists|k: int| 0 <= k < ids.len() && #[trigger] ids[k] as int == i
}

/// `flags` with the flags at the marked indices set to `value`.
pub open spec fn with_marked(flags: Seq<bool>, marks: Seq<bool>, value: bool) -> Seq<bool> {
    Seq::new(flags.len(), |i: int| if i < marks.len() && marks[i] { value } else { flags[i] })
}

/// Setting the flags at the positions of the marks sets the marked flags.
pub proof fn lemma_with_slots_of_marks(flags: Seq<bool>, marks: Seq<bool>, value: bool)
    requires
        marks.len() <= usize::MAX,
    ensures
        with_slots(flags, true_positions(marks), value) == with_marked(flags, marks, value),
{
    lemma_true_positions(marks);
    let ids = true_positions(marks);
    assert forall|i: int| 0 <= i < flags.len() implies with_slots(flags, ids, value)[i]
        == with_marked(flags, marks, value)[i] by {
        if i < marks.len() && marks[i] {
            assert(ids.contains(i as usize));
            let k = choose|k: int| 0 <= k < ids.len() && ids[k] == i as usize;
            assert(ids[k] as int == i);
        } else if has_id(ids, i) {
            let k = choose|k: int| 0 <= k < ids.len() && #[trigger] ids[k] as int == i;
            assert(marks[ids[k] as int]);
        }
    }
    assert(with_slots(flags, ids, value) =~= with_marked(flags, marks, value));
}

/// Placing items empties no slot and keeps the number of slots.
pub proof fn lemma_place_first_keeps_live<A>(
    slots: Seq<Option<A>>,
    free: Seq<usize>,
    items: Seq<A>,
    n: nat,
)
    requires
        n <= free.len(),
        n <= items.len(),
        forall|k: int| 0 <= k < free.len() ==> (#[trigger] free[k]) < slots.len(),
    ensures
        place_first(slots, free, items, n).len() == slots.len(),
        forall|i: int|
            0 <= i < slots.len() && slots[i] is Some ==> (#[trigger] place_first(
                slots,
                free,
                items,
                n,
            )[i]) is Some,
    decreases n,
{
    if n > 0 {
        lemma_place_first_keeps_live(slots, free, items, (n - 1) as nat);
    }
}

/// What placing the first `n` items does: item `j` stands in the slot that
/// the free list names at `j`, and every other slot is as it was.
pub proof fn lemma_place_first<A>(slots: Seq<Option<A>>, free: Seq<usize>, items: Seq<A>, n: nat)
    requires
        n <= free.len(),
        n <= items.len(),
        forall|k: int| 0 <= k < free.len() ==> (#[trigger] free[k]) < slots.len(),
        forall|j: int, k: int| 0 <= j < k < free.len() ==> free[j] < free[k],
    ensures
        place_first(slots, free, items, n).len() == slots.len(),
        forall|j: int|
            0 <= j < n ==> place_first(slots, free, items, n)[(#[trigger] free[j]) as int] == Some(
                items[j],
            ),
        forall|i: int|
            0 <= i < slots.len() && (forall|j: int| 0 <= j < n ==> free[j] != i) ==> (
            #[trigger] place_first(slots, free, items, n)[i]) == slots[i],
    decreases n,
{
    if n > 0 {
        lemma_place_first(slots, free, items, (n - 1) as nat);
        let before = place_first(slots, free, items, (n - 1) as nat);
        let after = place_first(slots, free, items, n);
        assert forall|j: int| 0 <= j < n implies after[(#[trigger] free[j]) as int] == Some(
            items[j],
        ) by {
            if j < n - 1 {
                assert(free[j] < free[n - 1]);
                assert(before[free[j] as int] == Some(items[j]));
            }
        }
        assert forall|i: int|
            0 <= i < slots.len() && (forall|j: int| 0 <= j < n ==> free[j] != i) implies (
        #[trigger] after[i]) == slots[i] by {
            assert(free[n - 1] != i);
            assert(forall|j: int| 0 <= j < n - 1 ==> free[j] != i);
            assert(before[i] == slots[i]);
        }
    }
}

/// Every item goes into the lowest slot that is empty at its turn: when item
/// `j` is placed, the slot it takes is empty and every lower slot holds an
/// item. In the end item `j` stands in that slot, and the slots that took no
/// item are as they were.
pub proof fn lemma_placed_lowest<A>(slots: Seq<Option<A>>, items: Seq<A>)
    requires
        slots.len() <= usize::MAX,
        items.len() <= count_true(free_marks(slots)),
    ensures
        items.len() <= true_positions(free_marks(slots)).len(),
        placed(slots, items).len() == slots.len(),
        forall|j: int|
            0 <= j < items.len() ==> placed(slots, items)[(#[trigger] true_positions(
                free_marks(slots),
            )[j]) as int] == Some(items[j]),
        forall|i: int|
            0 <= i < slots.len() && (forall|j: int|
                0 <= j < items.len() ==> true_positions(free_marks(slots))[j] != i) ==> (
            #[trigger] placed(slots, items)[i]) == slots[i],
        forall|j: int|
            0 <= j < items.len() ==> (#[trigger] place_first(
                slots,
                true_positions(free_marks(slots)),
                items,
                j as nat,
            ))[true_positions(free_marks(slots))[j] as int] is None,
        forall|j: int, i: int|
            0 <= j < items.len() && 0 <= i < true_positions(free_marks(slots))[j] ==> (
            #[trigger] place_first(slots, true_positions(free_marks(slots)), items, j as nat)[i])
                is Some,
{
    let marks = free_marks(slots);
    let free = true_positions(marks);
    lemma_true_positions(marks);
    lemma_place_first(slots, free, items, items.len());
    assert forall|j: int| 0 <= j < items.len() implies (#[trigger] place_first(
        slots,
        free,
        items,
        j as nat,
    ))[free[j] as int] is None by {
        lemma_place_first(slots, free, items, j as nat);
        assert(marks[free[j] as int]);
        assert forall|k: int| 0 <= k < j implies free[k] != free[j] by {
            assert(free[k] < free[j]);
        }
    }
    assert forall|j: int, i: int| 0 <= j < items.len() && 0 <= i < free[j] implies (
    #[trigger] place_first(slots, free, items, j as nat)[i]) is Some by {
        lemma_place_first(slots, free, items, j as nat);
        lemma_place_first_keeps_live(slots, free, items, j as nat);
        if slots[i] is None {
            assert(marks[i]);
            assert(free.contains(i as usize));
            let k = choose|k: int| 0 <= k < free.len() && free[k] == i as usize;
            if k >= j {
                if k > j {
                    assert(free[j] < free[k]);
                }
            }
            assert(place_first(slots, free, items, j as nat)[free[k] as int] == Some(items[k]));
        }
    }
}

/// Removing items frees exactly the slots that held them: the empty slots
/// afterwards are those that were empty and those that held one of the
/// items, and none of the items is held any more.
pub proof fn lemma_without_frees_holders<A>(slots: Seq<Option<A>>, items: Seq<A>)
    ensures
        count_true(free_marks(without(slots, items))) == count_true(free_marks(slots))
            + count_true(holder_marks(slots, items)),
        forall|k: int|
            0 <= k < items.len() ==> !without(slots, items).contains(Some(#[trigger] items[k])),
    decreases slots.len(),
{
    if slots.len() > 0 {
        let front = slots.drop_last();
        lemma_without_frees_holders(front, items);
        assert(free_marks(without(slots, items)).drop_last() =~= free_marks(
            without(front, items),
        ));
        assert(free_marks(slots).drop_last() =~= free_marks(front));
        assert(holder_marks(slots, items).drop_last() =~= holder_marks(front, items));
    }
    assert forall|k: int| 0 <= k < items.len() implies !without(slots, items).contains(
        Some(#[trigger] items[k]),
    ) by {
        if without(slots, items).contains(Some(items[k])) {
            let i = choose|i: int|
                0 <= i < without(slots, items).len() && without(slots, items)[i] == Some(
                    items[k],
                );
            assert(slots[i] == Some(items[k]));
            assert(items.contains(items[k]));
        }
    }
}

/// Marks of which exactly one is set count one.
pub proof fn lemma_count_single(marks: Seq<bool>, i: int)
    requires
        0 <= i < marks.len(),
        marks[i],
        forall|j: int| 0 <= j < marks.len() && j != i ==> !marks[j],
    ensures
        count_true(marks) == 1,
    decreases marks.len(),
{
    let front = marks.drop_last();
    if i == marks.len() - 1 {
        lemma_no_marks(front);
    } else {
        lemma_count_single(front, i);
    }
}

/// `slots` with the slots numbered in `ids` emptied.
pub open spec fn cleared<A>(slots: Seq<Option<A>>, ids: Seq<usize>) -> Seq<Option<A>> {
    Seq::new(slots.len(), |i: int| if ids.contains(i as usize) { None } else { slots[i] })
}


/// A registry of a fixed number of slots, each empty or holding one item.
/// Slots are named by their index, which stays the same while the item is
/// held.
#[derive(Debug)]
pub struct OptArray<A, const SIZE: usize> {
    array: Vec<Option<A>>,
    free_slots: Vec<OptArrayRef<A>>,
}

impl<A, const SIZE: usize> OptArray<A, SIZE> {
    /// The number of slots is `SIZE`, and the free list names exactly the
    /// empty slots, lowest first.
    pub closed spec fn wf(&self) -> bool {
        &&& self.array@.len() == SIZE
        &&& ref_ids(self.free_slots@) == true_positions(free_marks(self.array@))
    }

    /// The number of slots on the free list.
    pub closed spec fn count_free(&self) -> nat {
        self.free_slots@.len()
    }

    /// The number of slots that hold an item.
    pub open spec fn count_live(&self) -> nat {
        count_true(live_marks(self@))
    }

    /// The empty slots, lowest first.
    pub open spec fn free_ids(&self) -> Seq<usize> {
        true_positions(free_marks(self@))
    }
}

impl<A: Copy, const SIZE: usize> Clone for OptArray<A, SIZE> {
    fn clone(&self) -> (r: Self)
        ensures
            r@ == self@,
            r.wf() == self.wf(),
            r.count_free() == self.count_free(),
    {
        let mut array: Vec<Option<A>> = Vec::new();
        let mut i: usize = 0;
        while i < self.array.len()
            invariant
                i <= self.array@.len(),
                array@ == self.array@.take(i as int),
            decreases self.array.len() - i,
        {
            array.push(self.array[i]);
            assert(self.array@.take(i + 1) =~= self.array@.take(i as int).push(self.array@[i as int]));
            i += 1;
        }
        assert(self.array@.take(self.array@.len() as int) =~= self.array@);
        let mut free_slots: Vec<OptArrayRef<A>> = Vec::new();
        let mut j: usize = 0;
        while j < self.free_slots.len()
            invariant
                j <= self.free_slots@.len(),
                free_slots@ == self.free_slots@.take(j as int),
            decreases self.free_slots.len() - j,
        {
            free_slots.push(self.free_slots[j]);
            assert(self.free_slots@.take(j + 1) =~= self.free_slots@.take(j as int).push(
                self.free_slots@[j as int],
            ));
            j += 1;
        }
        assert(self.free_slots@.take(self.free_slots@.len() as int) =~= self.free_slots@);
        OptArray { array, free_slots }
    }
}

impl<A, const SIZE: usize> View for OptArray<A, SIZE> {
    type V = Seq<Option<A>>;

    /// The slots, by index.
    closed spec fn view(&self) -> Seq<Option<A>> {
        self.array@
    }
}

/// The references to the given slots, in the same order.
fn refs_of<A>(ids: &Vec<usize>) -> (r: Vec<OptArrayRef<A>>)
    ensures
        ref_ids(r@) == ids@,
{
    let mut refs: Vec<OptArrayRef<A>> = Vec::new();
    let mut i: usize = 0;
    while i < ids.len()
        invariant
            i <= ids.len(),
            refs@.len() == i,
            forall|k: int| 0 <= k < i ==> refs@[k]@ == ids@[k],
        decreases ids.len() - i,
    {
        refs.push(OptArrayRef::new(ids[i]));
        i += 1;
    }
    assert(ref_ids(refs@) =~= ids@);
    refs
}

/// The empty slots of `array`, lowest first.
fn free_list<A>(array: &Vec<Option<A>>) -> (r: Vec<OptArrayRef<A>>)
    ensures
        ref_ids(r@) == true_positions(free_marks(array@)),
{
    let mut marks: Vec<bool> = Vec::new();
    let mut i: usize = 0;
    while i < array.len()
        invariant
            i <= array.len(),
            marks@.len() == i,
            forall|k: int| 0 <= k < i ==> marks@[k] == (array@[k] is None),
        decreases array.len() - i,
    {
        marks.push(array[i].is_none());
        i += 1;
    }
    assert(marks@ =~= free_marks(array@));
    let ids = marked_positions(&marks);
    refs_of(&ids)
}

impl<A: Copy + PartialEq, const SIZE: usize> OptArray<A, SIZE> {
    /// Every slot is either on the free list or live: the two counts add up
    /// to the capacity.
    pub proof fn lemma_free_and_live_fill_capacity(&self)
        requires
            self.wf(),
        ensures
            self@.len() == SIZE,
            self.count_free() == count_true(free_marks(self@)),
            self.count_free() + self.count_live() == SIZE,
    {
        lemma_true_positions(free_marks(self@));
        lemma_count_true_complement(free_marks(self@), live_marks(self@));
        assert(ref_ids(self.free_slots@).len() == self.free_slots@.len());
    }

    /// Takes over `vec` as the slots of a registry.
    pub fn from_vec(vec: Vec<Option<A>>) -> (r: OptArray<A, SIZE>)
        requires
            vec@.len() == SIZE,
        ensures
            r.wf(),
            r@ == vec@,
    {
        let free_slots = free_list(&vec);
        OptArray { array: vec, free_slots }
    }

    /// The number of empty slots.
    pub fn count_free_slots(&self) -> (r: usize)
        requires
            self.wf(),
        ensures
            r == self.count_free(),
            r + self.count_live() == SIZE,
    {
        proof {
            self.lemma_free_and_live_fill_capacity();
        }
        self.free_slots.len()
    }

    /// The number of slots that hold an item.
    pub fn count_live_slots(&self) -> (r: usize)
        requires
            self.wf(),
        ensures
            r == self.count_live(),
            r + self.count_free() == SIZE,
    {
        proof {
            self.lemma_free_and_live_fill_capacity();
        }
        self.array.len() - self.free_slots.len()
    }

    /// Whether `capacity` more items fit.
    pub fn has_capacity(&self, capacity: usize) -> (r: bool)
        ensures
            r == (self.count_free() >= capacity),
    {
        self.free_slots.len() >= capacity
    }

    /// What the slot holds.
    pub fn index(&self, r: OptArrayRef<A>) -> (item: &Option<A>)
        requires
            self.wf(),
            r@ < SIZE,
        ensures
            *item == self@[r@ as int],
    {
        &self.array[r.id]
    }

    /// What the slot with the given number holds.
    pub fn slot(&self, id: usize) -> (item: &Option<A>)
        requires
            self.wf(),
            id < SIZE,
        ensures
            *item == self@[id as int],
    {
        &self.array[id]
    }

    /// Puts every item of `add_items` into the lowest slot that is empty at
    /// its turn, or refuses and changes nothing when the empty slots are
    /// fewer than the items.
    pub fn insert_many(&mut self, add_items: &Vec<A>) -> (r: Result<(), WalletError>)
        requires
            old(self).wf(),
        ensures
            final(self).wf(),
            old(self).count_free() >= add_items@.len() ==> r is Ok && final(self)@ == placed(
                old(self)@,
                add_items@,
            ),
            old(self).count_free() < add_items@.len() ==> r == Err::<(), WalletError>(
                WalletError::InvalidArgument,
            ) && *final(self) == *old(self),
    {
        if !self.has_capacity(add_items.len()) {
            return Err(WalletError::InvalidArgument);
        }
        let ghost free = true_positions(free_marks(self.array@));
        proof {
            lemma_true_positions(free_marks(self.array@));
        }
        let mut i: usize = 0;
        while i < add_items.len()
            invariant
                i <= add_items.len(),
                add_items.len() <= self.free_slots@.len(),
                free == true_positions(free_marks(old(self).array@)),
                ref_ids(self.free_slots@) == free,
                forall|k: int| 0 <= k < free.len() ==> (#[trigger] free[k]) < SIZE,
                self.array@.len() == SIZE,
                self.array@ == place_first(old(self).array@, free, add_items@, i as nat),
            decreases add_items.len() - i,
        {
            let slot = self.free_slots[i];
            assert(slot@ == ref_ids(self.free_slots@)[i as int]);
            self.array[slot.id] = Some(add_items[i]);
            i += 1;
        }
        self.free_slots = free_list(&self.array);
        Ok(())
    }

    /// Empties the given slots.
    pub fn remove_by_refs(&mut self, refs: &Vec<OptArrayRef<A>>)
        requires
            old(self).wf(),
            forall|i: int| 0 <= i < refs@.len() ==> refs@[i]@ < SIZE,
        ensures
            final(self).wf(),
            final(self)@ == cleared(old(self)@, ref_ids(refs@)),
    {
        let mut i: usize = 0;
        while i < refs.len()
            invariant
                i <= refs.len(),
                forall|k: int| 0 <= k < refs@.len() ==> refs@[k]@ < SIZE,
                self.array@.len() == SIZE,
                self.array@ == cleared(old(self).array@, ref_ids(refs@).take(i as int)),
            decreases refs.len() - i,
        {
            let slot = refs[i];
            self.array[slot.id] = None;
            proof {
                let before = ref_ids(refs@).take(i as int);
                let after = ref_ids(refs@).take(i + 1);
                assert(after =~= before.push(slot@));
                assert forall|j: int| 0 <= j < SIZE implies self.array@[j] == cleared(
                    old(self).array@,
                    after,
                )[j] by {
                    if before.contains(j as usize) {
                        let k = choose|k: int| 0 <= k < before.len() && before[k] == j as usize;
                        assert(after[k] == j as usize);
                    } else if j == slot@ {
                        assert(after[i as int] == j as usize);
                    }
                }
                assert(self.array@ =~= cleared(old(self).array@, after));
            }
            i += 1;
        }
        assert(ref_ids(refs@).take(refs@.len() as int) =~= ref_ids(refs@));
        self.free_slots = free_list(&self.array);
    }

    /// The lowest slot that holds `item`, if any does.
    pub fn find_ref(&self, item: &A) -> (r: Option<OptArrayRef<A>>)
        requires
            self.wf(),
            eq_is_identity::<A>(),
        ensures
            match r {
                Some(slot) => {
                    &&& slot@ < SIZE
                    &&& self@[slot@ as int] == Some(*item)
                    &&& forall|j: int| 0 <= j < slot@ ==> self@[j] != Some(*item)
                },
                None => forall|j: int| 0 <= j < SIZE ==> self@[j] != Some(*item),
            },
    {
        let mut i: usize = 0;
        while i < self.array.len()
            invariant
                i <= self.array@.len(),
                self.array@.len() == SIZE,
                eq_is_identity::<A>(),
                forall|j: int| 0 <= j < i ==> self.array@[j] != Some(*item),
            decreases self.array.len() - i,
        {
            if let Some(held) = self.array[i] {
                if held == *item {
                    return Some(OptArrayRef::new(i));
                }
            }
            i += 1;
        }
        None
    }

    /// Every slot that holds one of `items`, lowest first.
    pub fn find_refs(&self, items: &Vec<A>) -> (r: Vec<OptArrayRef<A>>)
        requires
            self.wf(),
            eq_is_identity::<A>(),
        ensures
            ref_ids(r@) == true_positions(holder_marks(self@, items@)),
            forall|k: int| 0 <= k < r@.len() ==> (#[trigger] r@[k])@ < SIZE,
    {
        let mut marks: Vec<bool> = Vec::new();
        let mut i: usize = 0;
        while i < self.array.len()
            invariant
                i <= self.array@.len(),
                self.array@.len() == SIZE,
                eq_is_identity::<A>(),
                marks@.len() == i,
                forall|k: int| 0 <= k < i ==> marks@[k] == holder_marks(self.array@, items@)[k],
            decreases self.array.len() - i,
        {
            let held = match self.array[i] {
                Some(item) => contains_item(items, &item),
                None => false,
            };
            marks.push(held);
            i += 1;
        }
        assert(marks@ =~= holder_marks(self.array@, items@));
        let ids = marked_positions(&marks);
        let refs = refs_of(&ids);
        proof {
            lemma_true_positions(marks@);
            assert forall|k: int| 0 <= k < refs@.len() implies (#[trigger] refs@[k])@ < SIZE by {
                assert(refs@[k]@ == ref_ids(refs@)[k]);
            }
        }
        refs
    }

    /// Empties every slot that holds one of `items` and returns the slots it
    /// emptied, lowest first. An item that no slot holds is passed over.
    pub fn remove_items(&mut self, items: &Vec<A>) -> (r: Vec<OptArrayRef<A>>)
        requires
            old(self).wf(),
            eq_is_identity::<A>(),
        ensures
            final(self).wf(),
            ref_ids(r@) == true_positions(holder_marks(old(self)@, items@)),
            forall|k: int| 0 <= k < r@.len() ==> (#[trigger] r@[k])@ < SIZE,
            final(self)@ == without(old(self)@, items@),
    {
        let refs = self.find_refs(items);
        self.remove_by_refs(&refs);
        proof {
            let marks = holder_marks(old(self)@, items@);
            lemma_true_positions(marks);
            assert forall|i: int| 0 <= i < SIZE implies self@[i] == without(old(self)@, items@)[i] by {
                if marks[i] {
                    assert(true_positions(marks).contains(i as usize));
                } else if ref_ids(refs@).contains(i as usize) {
                    let k = choose|k: int|
                        0 <= k < ref_ids(refs@).len() && ref_ids(refs@)[k] == i as usize;
                    assert(marks[true_positions(marks)[k] as int]);
                }
            }
            assert(self@ =~= without(old(self)@, items@));
        }
        refs
    }

    /// Puts the items into the lowest empty slots, as `insert_many` does, and
    /// says whether they fitted. When they do not, nothing changes.
    pub fn add_items(&mut self, items: &Vec<A>) -> (r: bool)
        requires
            old(self).wf(),
        ensures
            final(self).wf(),
            r == (old(self).count_free() >= items@.len()),
            r ==> final(self)@ == placed(old(self)@, items@),
            !r ==> *final(self) == *old(self),
    {
        self.insert_many(items).is_ok()
    }

    /// Whether each of `items` is held by some slot.
    pub fn holds_all(&self, items: &Vec<A>) -> (r: bool)
        requires
            self.wf(),
            eq_is_identity::<A>(),
        ensures
            r == all_held(self@, items@),
    {
        let mut i: usize = 0;
        while i < items.len()
            invariant
                i <= items.len(),
                self.wf(),
                eq_is_identity::<A>(),
                forall|k: int| 0 <= k < i ==> self@.contains(Some(#[trigger] items@[k])),
            decreases items.len() - i,
        {
            match self.find_ref(&items[i]) {
                Some(slot) => {
                    assert(self@[slot@ as int] == Some(items@[i as int]));
                },
                None => {
                    assert(!self@.contains(Some(items@[i as int])));
                    return false;
                },
            }
            i += 1;
        }
        true
    }
}

/// A copy of the items, in the same order.
pub fn copy_items<A: Copy>(items: &Vec<A>) -> (r: Vec<A>)
    ensures
        r@ == items@,
{
    let mut copy: Vec<A> = Vec::new();
    let mut i: usize = 0;
    while i < items.len()
        invariant
            i <= items.len(),
            copy@ == items@.take(i as int),
        decreases items.len() - i,
    {
        copy.push(items[i]);
        assert(items@.take(i + 1) =~= items@.take(i as int).push(items@[i as int]));
        i += 1;
    }
    assert(items@.take(items@.len() as int) =~= items@);
    copy
}

/// Whether `items` holds `item`.
pub fn contains_item<A: Copy + PartialEq>(items: &Vec<A>, item: &A) -> (r: bool)
    requires
        eq_is_identity::<A>(),
    ensures
        r == items@.contains(*item),
{
    let mut i: usize = 0;
    while i < items.len()
        invariant
            i <= items.len(),
            eq_is_identity::<A>(),
            forall|k: int| 0 <= k < i ==> items@[k] != *item,
        decreases items.len() - i,
    {
        if items[i] == *item {
            return true;
        }
        i += 1;
    }
    false
}


/// One flag for each slot of a registry of items of type `A`, kept in
/// `STORAGE_SIZE` bytes, eight flags to a byte, least significant bit first.
#[derive(Debug)]
pub struct OptArrayFlags<A, const STORAGE_SIZE: usize> {
    bit_arr: [u8; STORAGE_SIZE],
    item_type: PhantomData<A>,
}

impl<A, const STORAGE_SIZE: usize> Clone for OptArrayFlags<A, STORAGE_SIZE> {
    fn clone(&self) -> (r: Self)
        ensures
            r == *self,
    {
        OptArrayFlags { bit_arr: self.bit_arr, item_type: PhantomData }
    }
}

impl<A, const STORAGE_SIZE: usize> Copy for OptArrayFlags<A, STORAGE_SIZE> {

}

impl<A, const STORAGE_SIZE: usize> View for OptArrayFlags<A, STORAGE_SIZE> {
    type V = Seq<bool>;

    /// The flags, by slot number.
    closed spec fn view(&self) -> Seq<bool> {
        bits_of(self.bit_arr@)
    }
}

/// No bit of a zero byte is set.
proof fn lemma_zero_byte_bits(shift: u8)
    requires
        shift < 8,
    ensures
        (0u8 >> shift) & 1u8 == 0u8,
{
    assert((0u8 >> shift) & 1u8 == 0u8) by (bit_vector)
        requires
            shift < 8,
    ;
}

impl<A, const STORAGE_SIZE: usize> OptArrayFlags<A, STORAGE_SIZE> {
    /// The bytes that hold the flags.
    pub closed spec fn bytes(&self) -> Seq<u8> {
        self.bit_arr@
    }

    /// The flags are the bits of the bytes.
    pub proof fn lemma_view_is_bits(&self)
        ensures
            self@ == bits_of(self.bytes()),
            self.bytes().len() == STORAGE_SIZE,
            self@.len() == 8 * STORAGE_SIZE,
    {
    }

    /// The flags that `data` holds.
    pub fn new(data: [u8; STORAGE_SIZE]) -> (r: Self)
        ensures
            r.bytes() == data@,
            r@ == bits_of(data@),
    {
        Self { bit_arr: data, item_type: PhantomData }
    }

    /// All flags off.
    pub fn zero() -> (r: Self)
        ensures
            r@.len() == 8 * STORAGE_SIZE,
            forall|i: int| 0 <= i < 8 * STORAGE_SIZE ==> !r@[i],
            forall|i: int| 0 <= i < STORAGE_SIZE ==> r.bytes()[i] == 0u8,
            count_true(r@) == 0,
    {
        let r = Self::new([0;STORAGE_SIZE]);
        proof {
            assert forall|i: int| 0 <= i < 8 * STORAGE_SIZE implies !r@[i] by {
                lemma_zero_byte_bits((i % 8) as u8);
            }
            lemma_no_marks(r@);
        }
        r
    }

    /// Turns the flag of slot `r` on.
    pub fn enable(&mut self, r: OptArrayRef<A>)
        requires
            r@ < 8 * STORAGE_SIZE,
        ensures
            final(self)@ == old(self)@.update(r@ as int, true),
    {
        set_bit(&mut self.bit_arr, r.id, true);
    }

    /// Turns the flag of slot `r` off.
    pub fn disable(&mut self, r: OptArrayRef<A>)
        requires
            r@ < 8 * STORAGE_SIZE,
        ensures
            final(self)@ == old(self)@.update(r@ as int, false),
    {
        set_bit(&mut self.bit_arr, r.id, false);
    }

    /// Sets the flag of every slot in `refs` to `value`.
    pub fn set_all(&mut self, refs: &Vec<OptArrayRef<A>>, value: bool)
        requires
            forall|k: int| 0 <= k < refs@.len() ==> (#[trigger] refs@[k])@ < 8 * STORAGE_SIZE,
        ensures
            final(self)@ == with_slots(old(self)@, ref_ids(refs@), value),
    {
        let mut i: usize = 0;
        while i < refs.len()
            invariant
                i <= refs.len(),
                forall|k: int| 0 <= k < refs@.len() ==> (#[trigger] refs@[k])@ < 8 * STORAGE_SIZE,
                self@.len() == old(self)@.len(),
                self@ == with_slots(old(self)@, ref_ids(refs@).take(i as int), value),
            decreases refs.len() - i,
        {
            let slot = refs[i];
            let ghost before = self@;
            set_bit(&mut self.bit_arr, slot.id, value);
            proof {
                let seen = ref_ids(refs@).take(i as int);
                let next = ref_ids(refs@).take(i + 1);
                assert(next =~= seen.push(slot@));
                assert forall|j: int| 0 <= j < self@.len() implies self@[j] == with_slots(
                    old(self)@,
                    next,
                    value,
                )[j] by {
                    if has_id(seen, j) {
                        let k = choose|k: int| 0 <= k < seen.len() && #[trigger] seen[k] as int == j;
                        assert(next[k] as int == j);
                    } else if j == slot@ {
                        assert(next[i as int] as int == j);
                    } else if has_id(next, j) {
                        let k = choose|k: int| 0 <= k < next.len() && #[trigger] next[k] as int == j;
                        assert(k < i ==> seen[k] as int == j);
                    }
                }
                assert(self@ =~= with_slots(old(self)@, next, value));
            }
            i += 1;
        }
        assert(ref_ids(refs@).take(refs@.len() as int) =~= ref_ids(refs@));
    }

    /// Whether the flag of slot `r` is on.
    pub fn is_enabled(&self, r: OptArrayRef<A>) -> (b: bool)
        requires
            r@ < 8 * STORAGE_SIZE,
        ensures
            b == self@[r@ as int],
    {
        get_bit(&self.bit_arr, r.id)
    }

    /// How many flags are on.
    pub fn count_enabled(&self) -> (r: usize)
        ensures
            r == count_true(self@),
    {
        count_ones(&self.bit_arr)
    }

    /// The slots whose flag is on, lowest first.
    pub fn iter_enabled(&self) -> (r: Vec<OptArrayRef<A>>)
        ensures
            ref_ids(r@) == true_positions(self@),
    {
        let ids = ones(&self.bit_arr);
        refs_of(&ids)
    }

    /// The bytes that hold the flags.
    pub fn as_bytes(&self) -> (r: &[u8])
        ensures
            r@ == self.bytes(),
    {
        self.bit_arr.as_slice()
    }
}

} // verus!
