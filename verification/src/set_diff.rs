//! The set difference that every comparison in this library rests on: what
//! was added, what was removed and what is common between an old and a new
//! collection.

use vstd::prelude::*;

verus! {

/// A value that can be a member of a set: it stands for a mathematical value,
/// its model, and two values can be tested for standing for the same one.
pub trait Element: Sized {
    /// What a value stands for.
    type Model;

    /// The mathematical value that `self` stands for.
    spec fn model(&self) -> Self::Model;

    /// Whether two values stand for the same mathematical value.
    fn same(&self, other: &Self) -> (b: bool)
        ensures
            b == (self.model() == other.model()),
    ;

    /// Another value that stands for the same mathematical value.
    fn duplicate(&self) -> (c: Self)
        ensures
            c.model() == self.model(),
    ;
}

impl Element for i32 {
    type Model = int;

    open spec fn model(&self) -> int {
        *self as int
    }

    fn same(&self, other: &Self) -> (b: bool) {
        *self == *other
    }

    fn duplicate(&self) -> (c: Self) {
        *self
    }
}

impl Element for usize {
    type Model = int;

    open spec fn model(&self) -> int {
        *self as int
    }

    fn same(&self, other: &Self) -> (b: bool) {
        *self == *other
    }

    fn duplicate(&self) -> (c: Self) {
        *self
    }
}

impl Element for String {
    type Model = Seq<char>;

    open spec fn model(&self) -> Seq<char> {
        self@
    }

    fn same(&self, other: &Self) -> (b: bool) {
        *self == *other
    }

    fn duplicate(&self) -> (c: Self) {
        self.clone()
    }
}

/// The models of a sequence of values, in order.
pub open spec fn models<T: Element>(items: Seq<T>) -> Seq<T::Model> {
    Seq::new(items.len(), |i: int| items[i].model())
}

/// The set of models that occur in a sequence of values.
pub open spec fn members<T: Element>(items: Seq<T>) -> Set<T::Model> {
    Set::new(|m: T::Model| exists|i: int| 0 <= i < items.len() && #[trigger] items[i].model() == m)
}

/// No model occurs twice in the sequence.
pub open spec fn distinct<T: Element>(items: Seq<T>) -> bool {
    forall|i: int, j: int|
        0 <= i < j < items.len() ==> #[trigger] items[i].model() != #[trigger] items[j].model()
}

/// The members of a sequence with one more value at its end.
pub proof fn lemma_members_push<T: Element>(items: Seq<T>, x: T)
    ensures
        members(items.push(x)) == members(items).insert(x.model()),
{
    let longer = items.push(x);
    assert forall|m: T::Model| members(longer).contains(m) <==> members(items).insert(
        x.model(),
    ).contains(m) by {
        if members(longer).contains(m) {
            let i = choose|i: int| 0 <= i < longer.len() && #[trigger] longer[i].model() == m;
            if i < items.len() {
                assert(items[i].model() == m);
            }
        }
        if members(items).contains(m) {
            let i = choose|i: int| 0 <= i < items.len() && #[trigger] items[i].model() == m;
            assert(longer[i].model() == m);
        }
        if m == x.model() {
            assert(longer[items.len() as int].model() == m);
        }
    }
    assert(members(longer) =~= members(items).insert(x.model()));
}

/// A sequence without values has no members.
pub proof fn lemma_members_empty<T: Element>(items: Seq<T>)
    requires
        items.len() == 0,
    ensures
        members(items) == Set::<T::Model>::empty(),
{
    assert(members(items) =~= Set::<T::Model>::empty());
}

/// An index at which the model `m` occurs in `items`, where it occurs at all.
pub open spec fn position<T: Element>(items: Seq<T>, m: T::Model) -> int {
    choose|i: int| 0 <= i < items.len() && #[trigger] items[i].model() == m
}

/// In a sequence without repetition a model occurs at one index only.
pub proof fn lemma_position<T: Element>(items: Seq<T>, i: int)
    requires
        distinct(items),
        0 <= i < items.len(),
    ensures
        position(items, items[i].model()) == i,
{
    let j = position(items, items[i].model());
    assert(0 <= j < items.len() && items[j].model() == items[i].model());
}

/// A sequence without repetition has as many members as values.
pub proof fn lemma_distinct_len<T: Element>(items: Seq<T>)
    requires
        distinct(items),
    ensures
        members(items).finite(),
        members(items).len() == items.len(),
    decreases items.len(),
{
    if items.len() == 0 {
        lemma_members_empty(items);
    } else {
        let front = items.drop_last();
        let last = items.last();
        lemma_distinct_len(front);
        lemma_members_push(front, last);
        assert(front.push(last) =~= items);
        if members(front).contains(last.model()) {
            let i = choose|i: int| 0 <= i < front.len() && #[trigger] front[i].model()
                == last.model();
            assert(items[i].model() == items[items.len() - 1].model());
        }
    }
}

/// The first index at which `x` occurs in `items`.
pub fn index_of<T: Element>(items: &Vec<T>, x: &T) -> (found: Option<usize>)
    ensures
        match found {
            Some(i) => i < items.len() && items[i as int].model() == x.model() && forall|j: int|
                0 <= j < i ==> #[trigger] items[j].model() != x.model(),
            None => !members(items@).contains(x.model()),
        },
{
    let mut i: usize = 0;
    while i < items.len()
        invariant
            i <= items.len(),
            forall|j: int| 0 <= j < i ==> #[trigger] items[j].model() != x.model(),
        decreases items.len() - i,
    {
        if items[i].same(x) {
            return Some(i);
        }
        i += 1;
    }
    None
}

/// Whether `x` is a member of `items`.
pub fn contains<T: Element>(items: &Vec<T>, x: &T) -> (found: bool)
    ensures
        found == members(items@).contains(x.model()),
{
    let mut i: usize = 0;
    while i < items.len()
        invariant
            i <= items.len(),
            forall|j: int| 0 <= j < i ==> #[trigger] items[j].model() != x.model(),
        decreases items.len() - i,
    {
        if items[i].same(x) {
            return true;
        }
        i += 1;
    }
    false
}

/// What is left of a sequence when every value is kept where it occurs
/// first and dropped where it occurs again.
pub open spec fn first_occurrences<M>(values: Seq<M>) -> Seq<M>
    decreases values.len(),
{
    if values.len() == 0 {
        Seq::empty()
    } else {
        let front = first_occurrences(values.drop_last());
        if front.contains(values.last()) {
            front
        } else {
            front.push(values.last())
        }
    }
}

/// The values that are in a set (`keep` set) or that are not (`keep`
/// unset), as a predicate.
pub open spec fn standing<M>(set: Set<M>, keep: bool) -> spec_fn(M) -> bool {
    |m: M| set.contains(m) == keep
}

/// The models of a sequence hold what its members hold.
pub proof fn lemma_models_members<T: Element>(items: Seq<T>)
    ensures
        forall|m: T::Model| models(items).contains(m) <==> members(items).contains(m),
{
    assert forall|m: T::Model| models(items).contains(m) <==> members(items).contains(m) by {
        if models(items).contains(m) {
            let i = choose|i: int| 0 <= i < models(items).len() && models(items)[i] == m;
            assert(items[i].model() == m);
        }
        if members(items).contains(m) {
            let i = choose|i: int| 0 <= i < items.len() && #[trigger] items[i].model() == m;
            assert(models(items)[i] == m);
        }
    }
}

/// The members of `items` that are members of `other` (`keep` set) or that
/// are not (`keep` unset), each once, in the order in which they occur
/// first.
fn select<T: Element>(items: &Vec<T>, other: &Vec<T>, keep: bool) -> (chosen: Vec<T>)
    ensures
        models(chosen@) == first_occurrences(
            models(items@).filter(standing(members(other@), keep)),
        ),
        distinct(chosen@),
        members(chosen@) == if keep {
            members(items@).intersect(members(other@))
        } else {
            members(items@).difference(members(other@))
        },
{
    let mut chosen: Vec<T> = Vec::new();
    let mut i: usize = 0;
    let ghost wanted_models = standing(members(other@), keep);
    proof {
        lemma_members_empty(chosen@);
        assert(models(items@.take(0)).filter(wanted_models) =~= Seq::<T::Model>::empty()) by {
            reveal(Seq::filter);
        }
        assert(models(chosen@) =~= first_occurrences(
            models(items@.take(0)).filter(wanted_models),
        ));
    }
    while i < items.len()
        invariant
            i <= items.len(),
            distinct(chosen@),
            wanted_models == standing(members(other@), keep),
            models(chosen@) == first_occurrences(
                models(items@.take(i as int)).filter(wanted_models),
            ),
            forall|m: T::Model|
                members(chosen@).contains(m) <==> (members(items@.take(i as int)).contains(m) && (
                members(other@).contains(m) == keep)),
        decreases items.len() - i,
    {
        let ghost before = chosen@;
        let ghost seen = items@.take(i as int);
        let in_other = contains(other, &items[i]);
        let wanted = in_other == keep;
        let fresh = wanted && !contains(&chosen, &items[i]);
        if fresh {
            chosen.push(items[i].duplicate());
            proof {
                lemma_members_push(before, chosen@[before.len() as int]);
                assert(chosen@ =~= before.push(chosen@[before.len() as int]));
            }
        }
        proof {
            assert(items@.take(i + 1) =~= seen.push(items[i as int]));
            lemma_members_push(seen, items[i as int]);
            let m = items[i as int].model();
            let kept = models(seen).filter(wanted_models);
            assert(models(items@.take(i + 1)) =~= models(seen).push(m));
            models(seen).lemma_filter_push(m, wanted_models);
            lemma_models_members(before);
            if wanted {
                assert(kept.push(m).drop_last() =~= kept);
                if fresh {
                    assert(models(chosen@) =~= models(before).push(m));
                }
            }
        }
        i += 1;
    }
    proof {
        assert(items@.take(i as int) =~= items@);
        if keep {
            assert(members(chosen@) =~= members(items@).intersect(members(other@)));
        } else {
            assert(members(chosen@) =~= members(items@).difference(members(other@)));
        }
    }
    chosen
}

/// The members of `items` that are not members of `other`, each once, in
/// the order in which they occur first.
pub fn difference<T: Element>(items: &Vec<T>, other: &Vec<T>) -> (rest: Vec<T>)
    ensures
        models(rest@) == first_occurrences(
            models(items@).filter(standing(members(other@), false)),
        ),
        distinct(rest@),
        members(rest@) == members(items@).difference(members(other@)),
{
    select(items, other, false)
}

/// The members of `items` that are also members of `other`, each once, in
/// the order in which they occur first.
pub fn intersection<T: Element>(items: &Vec<T>, other: &Vec<T>) -> (shared: Vec<T>)
    ensures
        models(shared@) == first_occurrences(
            models(items@).filter(standing(members(other@), true)),
        ),
        distinct(shared@),
        members(shared@) == members(items@).intersect(members(other@)),
{
    select(items, other, true)
}

/// How a new collection differs from an old one.
#[derive(Debug)]
pub struct SetDiff<T> {
    /// Members of the new collection that the old one lacks.
    pub added: Vec<T>,
    /// Members of the old collection that the new one lacks.
    pub removed: Vec<T>,
    /// Members of both.
    pub common: Vec<T>,
}

/// Compares an old collection with a new one. Each part of the result holds
/// every member once, however often it occurs in the arguments.
pub fn set_diff<T: Element>(old_items: &Vec<T>, new_items: &Vec<T>) -> (diff: SetDiff<T>)
    ensures
        models(diff.added@) == first_occurrences(
            models(new_items@).filter(standing(members(old_items@), false)),
        ),
        models(diff.removed@) == first_occurrences(
            models(old_items@).filter(standing(members(new_items@), false)),
        ),
        models(diff.common@) == first_occurrences(
            models(old_items@).filter(standing(members(new_items@), true)),
        ),
        distinct(diff.added@),
        distinct(diff.removed@),
        distinct(diff.common@),
        members(diff.added@) == members(new_items@).difference(members(old_items@)),
        members(diff.removed@) == members(old_items@).difference(members(new_items@)),
        members(diff.common@) == members(old_items@).intersect(members(new_items@)),
{
    SetDiff {
        added: difference(new_items, old_items),
        removed: difference(old_items, new_items),
        common: intersection(old_items, new_items),
    }
}

/// The first occurrences of a sequence hold the values that occur, none
/// of them twice.
pub proof fn lemma_first_occurrences<M>(values: Seq<M>)
    ensures
        forall|m: M| first_occurrences(values).contains(m) <==> values.contains(m),
        first_occurrences(values).no_duplicates(),
    decreases values.len(),
{
    if values.len() > 0 {
        let front = values.drop_last();
        let kept = first_occurrences(front);
        lemma_first_occurrences(front);
        assert forall|m: M| first_occurrences(values).contains(m) <==> values.contains(m) by {
            if first_occurrences(values).contains(m) {
                if kept.contains(m) {
                    assert(front.contains(m));
                    let k = choose|k: int| 0 <= k < front.len() && front[k] == m;
                    assert(values[k] == m);
                } else {
                    let k = choose|k: int|
                        0 <= k < first_occurrences(values).len() && first_occurrences(values)[k]
                            == m;
                    assert(k == kept.len());
                    assert(values[values.len() - 1] == m);
                }
            }
            if values.contains(m) {
                let k = choose|k: int| 0 <= k < values.len() && values[k] == m;
                if k < front.len() {
                    assert(front[k] == m);
                    assert(front.contains(m));
                    assert(kept.contains(m));
                    let j = choose|j: int| 0 <= j < kept.len() && kept[j] == m;
                    assert(first_occurrences(values)[j] == m);
                } else {
                    if kept.contains(m) {
                    } else {
                        assert(first_occurrences(values)[kept.len() as int] == m);
                    }
                }
            }
        }
    }
}

/// A sequence without repetition is its own first occurrences.
pub proof fn lemma_first_occurrences_of_distinct<M>(values: Seq<M>)
    requires
        values.no_duplicates(),
    ensures
        first_occurrences(values) == values,
    decreases values.len(),
{
    if values.len() > 0 {
        let front = values.drop_last();
        lemma_first_occurrences_of_distinct(front);
        lemma_first_occurrences(front);
        if front.contains(values.last()) {
            let k = choose|k: int| 0 <= k < front.len() && front[k] == values.last();
            assert(values[k] == values[values.len() - 1]);
        }
        assert(front.push(values.last()) =~= values);
    } else {
        assert(first_occurrences(values) =~= values);
    }
}

/// The models of a sequence without repetition do not repeat, and the
/// other way round.
pub proof fn lemma_distinct_models<T: Element>(items: Seq<T>)
    ensures
        distinct(items) <==> models(items).no_duplicates(),
{
    if distinct(items) {
        assert forall|i: int, j: int|
            0 <= i < models(items).len() && 0 <= j < models(items).len() && i != j implies models(
            items,
        )[i] != models(items)[j] by {
            if i < j {
                assert(items[i].model() != items[j].model());
            } else {
                assert(items[j].model() != items[i].model());
            }
        }
    }
    if models(items).no_duplicates() {
        assert forall|i: int, j: int| 0 <= i < j < items.len() implies (
        #[trigger] items[i]).model() != (#[trigger] items[j]).model() by {
            assert(models(items)[i] != models(items)[j]);
        }
    }
}

/// Appends a value to a list unless the list has it as a member.
pub fn push_once<T: Element>(list: &mut Vec<T>, x: T)
    requires
        distinct(old(list)@),
    ensures
        distinct(final(list)@),
        models(final(list)@) == if models(old(list)@).contains(x.model()) {
            models(old(list)@)
        } else {
            models(old(list)@).push(x.model())
        },
        members(final(list)@) == members(old(list)@).insert(x.model()),
{
    let ghost before = list@;
    proof {
        lemma_models_members(before);
    }
    if !contains(list, &x) {
        list.push(x);
        proof {
            lemma_members_push(before, list@[before.len() as int]);
            assert(list@ =~= before.push(list@[before.len() as int]));
            assert(models(list@) =~= models(before).push(x.model()));
            assert forall|a: int| 0 <= a < before.len() implies (#[trigger] before[a]).model()
                != x.model() by {
                assert(members(before).contains(before[a].model()));
            }
        }
    } else {
        proof {
            assert(members(before).insert(x.model()) =~= members(before));
        }
    }
}

/// The first occurrences of a sequence with one more value at its end.
pub proof fn lemma_first_occurrences_push<M>(values: Seq<M>, m: M)
    ensures
        first_occurrences(values.push(m)) == if first_occurrences(values).contains(m) {
            first_occurrences(values)
        } else {
            first_occurrences(values).push(m)
        },
{
    assert(values.push(m).drop_last() =~= values);
}

/// Whether no member occurs twice in a list.
pub fn is_distinct<T: Element>(items: &Vec<T>) -> (yes: bool)
    ensures
        yes == distinct(items@),
{
    let mut j: usize = 0;
    while j < items.len()
        invariant
            j <= items.len(),
            forall|a: int, b: int|
                0 <= a < b < j ==> (#[trigger] items[a]).model() != (#[trigger] items[b]).model(),
        decreases items.len() - j,
    {
        let mut i: usize = 0;
        while i < j
            invariant
                i <= j < items.len(),
                forall|a: int| 0 <= a < i ==> (#[trigger] items[a]).model() != items[j as int].model(),
            decreases j - i,
        {
            if items[i].same(&items[j]) {
                return false;
            }
            i += 1;
        }
        j += 1;
    }
    true
}

} // verus!
