//! The tag-diff engine: which mods to link to a tag and which to unlink from
//! it, so that the tag's members become a chosen set.

use crate::set_diff::{
    difference, distinct, Element, first_occurrences, lemma_distinct_len, members, models, set_diff,
    standing,
};
use crate::text::{decimal_digits, push_decimal_digits};
use vstd::prelude::*;
use vstd::string::*;

verus! {

/// The mods to link: members of the target that are not current members.
pub open spec fn to_link(current: Set<int>, target: Set<int>) -> Set<int> {
    target.difference(current)
}

/// The mods to unlink: current members that are not members of the target.
pub open spec fn to_unlink(current: Set<int>, target: Set<int>) -> Set<int> {
    current.difference(target)
}

/// The members after `link` has been linked and then `unlink` unlinked.
pub open spec fn applied(current: Set<int>, link: Set<int>, unlink: Set<int>) -> Set<int> {
    current.union(link).difference(unlink)
}

/// The changes that turn a tag's current members into the target members.
#[derive(Debug)]
pub struct TagDiff {
    /// Mods that get a link to the tag.
    pub to_link: Vec<i32>,
    /// Mods that lose their link to the tag.
    pub to_unlink: Vec<i32>,
}

impl TagDiff {
    /// Whether there is nothing to do.
    pub fn is_empty(&self) -> (nothing: bool)
        ensures
            nothing == (members(self.to_link@) == Set::<int>::empty() && members(self.to_unlink@)
                == Set::<int>::empty()),
    {
        proof {
            if self.to_link.len() == 0 {
                crate::set_diff::lemma_members_empty(self.to_link@);
            } else {
                assert(members(self.to_link@).contains(self.to_link[0].model()));
            }
            if self.to_unlink.len() == 0 {
                crate::set_diff::lemma_members_empty(self.to_unlink@);
            } else {
                assert(members(self.to_unlink@).contains(self.to_unlink[0].model()));
            }
        }
        self.to_link.len() == 0 && self.to_unlink.len() == 0
    }
}

/// Computes the links to add and to remove for a tag whose members are
/// `current` and shall be `target`. Each mod is named at most once, however
/// often it occurs in the arguments.
pub fn tag_diff(current: &Vec<i32>, target: &Vec<i32>) -> (diff: TagDiff)
    ensures
        models(diff.to_link@) == first_occurrences(
            models(target@).filter(standing(members(current@), false)),
        ),
        models(diff.to_unlink@) == first_occurrences(
            models(current@).filter(standing(members(target@), false)),
        ),
        distinct(diff.to_link@),
        distinct(diff.to_unlink@),
        members(diff.to_link@) == to_link(members(current@), members(target@)),
        members(diff.to_unlink@) == to_unlink(members(current@), members(target@)),
{
    let diff = set_diff(current, target);
    TagDiff { to_link: diff.added, to_unlink: diff.removed }
}

/// The members of a tag after the links of `diff` have been added and
/// removed, each once.
pub fn apply_tag_diff(current: &Vec<i32>, diff: &TagDiff) -> (after: Vec<i32>)
    ensures
        models(after@) == first_occurrences(
            (models(current@) + models(diff.to_link@)).filter(
                standing(members(diff.to_unlink@), false),
            ),
        ),
        distinct(after@),
        members(after@) == applied(
            members(current@),
            members(diff.to_link@),
            members(diff.to_unlink@),
        ),
{
    let mut linked: Vec<i32> = Vec::new();
    let mut i: usize = 0;
    while i < current.len()
        invariant
            i <= current.len(),
            linked@ == current@.take(i as int),
        decreases current.len() - i,
    {
        linked.push(current[i]);
        proof {
            assert(linked@ =~= current@.take(i + 1));
        }
        i += 1;
    }
    let mut k: usize = 0;
    proof {
        assert(current@.take(i as int) =~= current@);
        assert(linked@ =~= current@ + diff.to_link@.take(0));
    }
    while k < diff.to_link.len()
        invariant
            k <= diff.to_link.len(),
            linked@ == current@ + diff.to_link@.take(k as int),
        decreases diff.to_link.len() - k,
    {
        linked.push(diff.to_link[k]);
        proof {
            assert(linked@ =~= current@ + diff.to_link@.take(k + 1));
        }
        k += 1;
    }
    proof {
        assert(diff.to_link@.take(k as int) =~= diff.to_link@);
        lemma_members_concat(current@, diff.to_link@);
        assert(models(linked@) =~= models(current@) + models(diff.to_link@));
    }
    difference(&linked, &diff.to_unlink)
}

/// The members of two sequences joined are the members of either.
pub proof fn lemma_members_concat<T: Element>(first: Seq<T>, second: Seq<T>)
    ensures
        members(first + second) == members(first).union(members(second)),
{
    let joined = first + second;
    assert forall|m: T::Model| members(joined).contains(m) <==> members(first).union(
        members(second),
    ).contains(m) by {
        if members(joined).contains(m) {
            let i = choose|i: int| 0 <= i < joined.len() && #[trigger] joined[i].model() == m;
            if i < first.len() {
                assert(first[i].model() == m);
            } else {
                assert(second[i - first.len()].model() == m);
            }
        }
        if members(first).contains(m) {
            let i = choose|i: int| 0 <= i < first.len() && #[trigger] first[i].model() == m;
            assert(joined[i].model() == m);
        }
        if members(second).contains(m) {
            let i = choose|i: int| 0 <= i < second.len() && #[trigger] second[i].model() == m;
            assert(joined[first.len() + i].model() == m);
        }
    }
    assert(members(joined) =~= members(first).union(members(second)));
}

/// No mod is both linked and unlinked.
pub proof fn lemma_diff_disjoint(current: Set<int>, target: Set<int>)
    ensures
        to_link(current, target).intersect(to_unlink(current, target)) == Set::<int>::empty(),
{
    assert(to_link(current, target).intersect(to_unlink(current, target)) =~= Set::<
        int,
    >::empty());
}

/// Linking and then unlinking what the diff names turns the current members
/// into exactly the target members.
pub proof fn lemma_diff_reaches_target(current: Set<int>, target: Set<int>)
    ensures
        applied(current, to_link(current, target), to_unlink(current, target)) == target,
{
    assert(applied(current, to_link(current, target), to_unlink(current, target)) =~= target);
}

/// Where the target equals the current members there is nothing to link and
/// nothing to unlink.
pub proof fn lemma_diff_of_equal_sets(current: Set<int>, target: Set<int>)
    requires
        current == target,
    ensures
        to_link(current, target) == Set::<int>::empty(),
        to_unlink(current, target) == Set::<int>::empty(),
{
    assert(to_link(current, target) =~= Set::<int>::empty());
    assert(to_unlink(current, target) =~= Set::<int>::empty());
}

/// The diff is minimal: whatever links and unlinks reach the target hold at
/// least what the diff names.
pub proof fn lemma_diff_minimal(
    current: Set<int>,
    target: Set<int>,
    link: Set<int>,
    unlink: Set<int>,
)
    requires
        applied(current, link, unlink) == target,
    ensures
        to_link(current, target).subset_of(link),
        to_unlink(current, target).subset_of(unlink),
{
    assert forall|id: int| to_link(current, target).contains(id) implies link.contains(id) by {
        assert(applied(current, link, unlink).contains(id));
    }
    assert forall|id: int| to_unlink(current, target).contains(id) implies unlink.contains(
        id,
    ) by {
        assert(!applied(current, link, unlink).contains(id));
    }
}

/// What the user is told while choosing the mods for a tag: how many mods
/// the choice tags and how many it untags.
pub open spec fn summary_text(tagged: nat, untagged: nat) -> Seq<char> {
    "Tagged "@ + decimal_digits(tagged) + " mods, untagged "@ + decimal_digits(untagged)
        + " mods"@
}

/// Says how many entries a choice adds to the entries that were chosen
/// before, and how many it drops from them. The entries are given by
/// their positions in the list that the user chooses from.
pub fn selection_summary(current: &Vec<usize>, selected: &Vec<usize>) -> (text: String)
    ensures
        text@ == summary_text(
            members(selected@).difference(members(current@)).len(),
            members(current@).difference(members(selected@)).len(),
        ),
{
    let diff = set_diff(current, selected);
    proof {
        lemma_distinct_len(diff.added@);
        lemma_distinct_len(diff.removed@);
    }
    let mut text = String::from_str("Tagged ");
    push_decimal_digits(&mut text, diff.added.len() as u64);
    text.append(" mods, untagged ");
    push_decimal_digits(&mut text, diff.removed.len() as u64);
    text.append(" mods");
    text
}

/// Whether the entry at a position of a list is among the chosen ones.
pub open spec fn is_chosen(items: Seq<i32>, chosen: Seq<i32>, position: int) -> bool {
    0 <= position < items.len() && members(chosen).contains(items[position] as int)
}

/// The positions, in a list of mods, of the mods that are among the chosen
/// ones, in ascending order: what a list of all mods shows as selected
/// where the chosen ones are the members of a tag.
pub fn selected_positions(items: &Vec<i32>, chosen: &Vec<i32>) -> (positions: Vec<usize>)
    ensures
        forall|k: int|
            0 <= k < positions.len() ==> is_chosen(items@, chosen@, #[trigger] positions[k] as int),
        forall|p: int|
            #[trigger] is_chosen(items@, chosen@, p) ==> exists|k: int|
                0 <= k < positions.len() && #[trigger] positions[k] == p,
        forall|a: int, b: int|
            0 <= a < b < positions.len() ==> #[trigger] positions[a] < #[trigger] positions[b],
{
    let mut positions: Vec<usize> = Vec::new();
    let mut i: usize = 0;
    while i < items.len()
        invariant
            i <= items.len(),
            forall|k: int|
                0 <= k < positions.len() ==> (#[trigger] positions[k]) < i && is_chosen(
                    items@,
                    chosen@,
                    positions[k] as int,
                ),
            forall|p: int|
                0 <= p < i && #[trigger] is_chosen(items@, chosen@, p) ==> exists|k: int|
                    0 <= k < positions.len() && #[trigger] positions[k] == p,
            forall|a: int, b: int|
                0 <= a < b < positions.len() ==> #[trigger] positions[a] < #[trigger] positions[b],
        decreases items.len() - i,
    {
        let ghost before = positions@;
        if crate::set_diff::contains(chosen, &items[i]) {
            positions.push(i);
            proof {
                assert forall|p: int|
                    0 <= p < i + 1 && #[trigger] is_chosen(items@, chosen@, p) implies exists|k: int|
                    0 <= k < positions.len() && #[trigger] positions[k] == p by {
                    if p < i {
                        let k = choose|k: int| 0 <= k < before.len() && #[trigger] before[k] == p;
                        assert(positions[k] == p);
                    } else {
                        assert(positions[before.len() as int] == p);
                    }
                }
            }
        }
        i += 1;
    }
    positions
}

} // verus!
