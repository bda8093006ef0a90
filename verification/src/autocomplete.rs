//! Completion of tag labels while the user types, from the labels of the
//! tags that exist.

use crate::rows::Tag;
use crate::set_diff::{Element, models};
use radix_trie::TrieCommon;
use vstd::prelude::*;

verus! {

/// The trie of the `radix_trie` crate. Nothing is known of what is inside
/// one; what it holds is spoken of through `trie_keys`.
#[verifier::external_type_specification]
#[verifier::external_body]
#[verifier::reject_recursive_types(K)]
#[verifier::reject_recursive_types(V)]
pub struct ExTrie<K, V>(radix_trie::Trie<K, V>);

/// The derived `Clone` of `radix_trie::Trie`. Nothing is claimed of the
/// copy.
pub assume_specification<K, V>[ <radix_trie::Trie<K, V> as Clone>::clone ](
    trie: &radix_trie::Trie<K, V>,
) -> (copy: radix_trie::Trie<K, V>)
    where K: Clone, V: Clone
;

/// The keys that a trie holds.
pub uninterp spec fn trie_keys(trie: radix_trie::Trie<String, ()>) -> Set<Seq<char>>;

/// Calls `radix_trie::Trie::new`: a trie without keys.
#[verifier::external_body]
fn trie_new() -> (trie: radix_trie::Trie<String, ()>)
    ensures
        trie_keys(trie) == Set::<Seq<char>>::empty(),
{
    radix_trie::Trie::new()
}

/// Calls `radix_trie::Trie::insert`: afterwards the trie holds the key
/// besides the keys it held.
#[verifier::external_body]
fn trie_insert(trie: &mut radix_trie::Trie<String, ()>, key: String)
    ensures
        trie_keys(*final(trie)) == trie_keys(*old(trie)).insert(key@),
{
    trie.insert(key, ());
}

/// What `radix_trie::Trie::subtrie` finds in a trie for a prefix: the keys
/// of the subtrie at the prefix, in the order in which the subtrie hands
/// them out, or `None` where the trie has no subtrie there. It depends on
/// the trie and the prefix alone.
pub uninterp spec fn keys_below(trie: radix_trie::Trie<String, ()>, prefix: Seq<char>) -> Option<
    Seq<Seq<char>>,
>;

/// Calls `radix_trie::Trie::subtrie` and hands out the keys of the subtrie
/// that it finds, if it finds one. They are the keys of the trie that
/// begin with `prefix`, each once. Whether a subtrie is found depends on
/// how the trie is branched: it is found where a node of the trie ends at
/// the prefix, and nothing is claimed of when that is.
#[verifier::external_body]
fn trie_keys_below(trie: &radix_trie::Trie<String, ()>, prefix: &str) -> (found: Option<
    Vec<String>,
>)
    ensures
        match found {
            Some(keys) => keys_below(*trie, prefix@) == Some(models(keys@)),
            None => keys_below(*trie, prefix@) is None,
        },
        found matches Some(keys) ==> forall|i: int|
            0 <= i < keys.len() ==> trie_keys(*trie).contains(#[trigger] keys[i]@)
                && prefix@.is_prefix_of(keys[i]@),
        found matches Some(keys) ==> forall|key: Seq<char>|
            trie_keys(*trie).contains(key) && prefix@.is_prefix_of(key) ==> #[trigger] models(
                keys@,
            ).contains(key),
        found matches Some(keys) ==> models(keys@).no_duplicates(),
{
    trie.subtrie(prefix).map(|below| below.keys().map(|key| key.clone()).collect())
}

/// The labels to suggest for what was found below a prefix: the keys that
/// were found, in their order, and none where nothing was found.
pub open spec fn suggestions_of(found: Option<Seq<Seq<char>>>) -> Seq<Seq<char>> {
    match found {
        Some(keys) => keys,
        None => Seq::empty(),
    }
}

/// Turns what was found below a prefix into the labels to suggest.
pub fn suggestions_from(found: Option<Vec<String>>) -> (suggestions: Vec<String>)
    ensures
        models(suggestions@) == suggestions_of(
            match found {
                Some(keys) => Some(models(keys@)),
                None => None,
            },
        ),
        found matches Some(keys) ==> suggestions == keys,
        found is None ==> suggestions@ == Seq::<String>::empty(),
{
    match found {
        Some(keys) => keys,
        None => {
            let none: Vec<String> = Vec::new();
            proof {
                assert(models(none@) =~= Seq::<Seq<char>>::empty());
            }
            none
        },
    }
}

/// Suggests tag labels for what the user has typed.
#[derive(Clone)]
pub struct TagAutoComplete {
    /// The labels that can be suggested.
    pub tag_trie: radix_trie::Trie<String, ()>,
}

/// The completion for an input: the suggestion that the user has
/// highlighted, else the first suggestion, else none.
pub open spec fn completion_of(highlighted: Option<String>, suggestions: Seq<Seq<char>>) -> Option<
    Seq<char>,
> {
    match highlighted {
        Some(choice) => Some(choice@),
        None => if suggestions.len() > 0 {
            Some(suggestions[0])
        } else {
            None
        },
    }
}

/// Picks the completion for an input from the highlighted suggestion and
/// the suggestions on offer.
pub fn pick_completion(highlighted: Option<String>, suggestions: &Vec<String>) -> (completion:
    Option<String>)
    ensures
        match completion {
            Some(text) => completion_of(highlighted, models(suggestions@)) == Some(text@),
            None => completion_of(highlighted, models(suggestions@)) is None,
        },
        highlighted matches Some(choice) ==> completion == Some(choice),
{
    match highlighted {
        Some(choice) => Some(choice),
        None => if suggestions.len() > 0 {
            Some(suggestions[0].clone())
        } else {
            None
        },
    }
}

/// Whether a label equals every one of the given labels.
pub open spec fn equals_all(label: Seq<char>, others: Seq<String>) -> bool {
    forall|i: int| 0 <= i < others.len() ==> (#[trigger] others[i])@ == label
}

/// Whether `label` equals every one of `others`.
fn is_equal_to_all(label: &String, others: &Vec<String>) -> (yes: bool)
    ensures
        yes == equals_all(label@, others@),
{
    let mut i: usize = 0;
    while i < others.len()
        invariant
            i <= others.len(),
            forall|j: int| 0 <= j < i ==> (#[trigger] others[j])@ == label@,
        decreases others.len() - i,
    {
        if !others[i].same(label) {
            return false;
        }
        i += 1;
    }
    true
}

impl TagAutoComplete {
    /// The labels that can be suggested.
    pub open spec fn labels(&self) -> Set<Seq<char>> {
        trie_keys(self.tag_trie)
    }

    /// Makes the completion for the given tags: every label can be
    /// suggested.
    pub fn create(tags: &Vec<Tag>) -> (completion: TagAutoComplete)
        ensures
            forall|label: Seq<char>|
                completion.labels().contains(label) <==> exists|i: int|
                    0 <= i < tags.len() && (#[trigger] tags[i]).tag@ == label,
    {
        let none: Vec<String> = Vec::new();
        Self::create_with_exclusions(tags, &none)
    }

    /// Makes the completion for those of the given tags whose label equals
    /// every label in `exclusions`: all tags where `exclusions` is empty.
    pub fn create_with_exclusions(tags: &Vec<Tag>, exclusions: &Vec<String>) -> (completion:
        TagAutoComplete)
        ensures
            forall|label: Seq<char>|
                completion.labels().contains(label) <==> equals_all(label, exclusions@)
                    && exists|i: int| 0 <= i < tags.len() && (#[trigger] tags[i]).tag@ == label,
    {
        let mut trie = trie_new();
        let mut i: usize = 0;
        while i < tags.len()
            invariant
                i <= tags.len(),
                forall|label: Seq<char>|
                    trie_keys(trie).contains(label) <==> equals_all(label, exclusions@)
                        && exists|j: int| 0 <= j < i && (#[trigger] tags[j]).tag@ == label,
            decreases tags.len() - i,
        {
            let ghost before = trie_keys(trie);
            if is_equal_to_all(&tags[i].tag, exclusions) {
                trie_insert(&mut trie, tags[i].tag.clone());
            }
            proof {
                assert forall|label: Seq<char>|
                    trie_keys(trie).contains(label) <==> equals_all(label, exclusions@)
                        && exists|j: int| 0 <= j < i + 1 && (#[trigger] tags[j]).tag@ == label by {
                    if trie_keys(trie).contains(label) {
                        if before.contains(label) {
                            let j = choose|j: int| 0 <= j < i && (#[trigger] tags[j]).tag@ == label;
                            assert(tags[j].tag@ == label);
                        } else {
                            assert(tags[i as int].tag@ == label);
                        }
                    }
                    if equals_all(label, exclusions@) && exists|j: int|
                        0 <= j < i + 1 && (#[trigger] tags[j]).tag@ == label {
                        let j = choose|j: int|
                            0 <= j < i + 1 && (#[trigger] tags[j]).tag@ == label;
                        if j < i {
                            assert(before.contains(label));
                        }
                    }
                }
            }
            i += 1;
        }
        TagAutoComplete { tag_trie: trie }
    }

    /// The labels to suggest for an input: the keys that the trie has
    /// below the input, in the order in which it hands them out, and none
    /// where it has no subtrie at the input. Each of them is the label of
    /// a tag and begins with the input; where the trie has a subtrie at the
    /// input, they are all the labels that begin with it, each once. The
    /// trie stays as it is.
    pub fn get_suggestions(&mut self, input: &str) -> (suggestions: Vec<String>)
        ensures
            final(self).tag_trie == old(self).tag_trie,
            models(suggestions@) == suggestions_of(keys_below(old(self).tag_trie, input@)),
            forall|i: int|
                0 <= i < suggestions.len() ==> old(self).labels().contains(
                    #[trigger] suggestions[i]@,
                ) && input@.is_prefix_of(suggestions[i]@),
            keys_below(old(self).tag_trie, input@) is Some ==> forall|label: Seq<char>|
                old(self).labels().contains(label) && input@.is_prefix_of(label)
                    ==> #[trigger] models(suggestions@).contains(label),
            models(suggestions@).no_duplicates(),
    {
        suggestions_from(trie_keys_below(&self.tag_trie, input))
    }

    /// The text to put in place of the input when the user asks for the
    /// completion: the highlighted suggestion where there is one, else the
    /// first of the suggestions for the input, and nothing where there is
    /// no suggestion. The trie stays as it is.
    pub fn get_completion(
        &mut self,
        input: &str,
        highlighted_suggestion: Option<String>,
    ) -> (completion: Option<String>)
        ensures
            final(self).tag_trie == old(self).tag_trie,
            match completion {
                Some(text) => completion_of(
                    highlighted_suggestion,
                    suggestions_of(keys_below(old(self).tag_trie, input@)),
                ) == Some(text@),
                None => completion_of(
                    highlighted_suggestion,
                    suggestions_of(keys_below(old(self).tag_trie, input@)),
                ) is None,
            },
            highlighted_suggestion matches Some(choice) ==> completion == Some(choice),
            highlighted_suggestion is None ==> (completion matches Some(text) ==> old(
                self,
            ).labels().contains(text@) && input@.is_prefix_of(text@)),
    {
        if highlighted_suggestion.is_some() {
            highlighted_suggestion
        } else {
            let suggestions = self.get_suggestions(input);
            proof {
                assert(models(suggestions@).len() == suggestions.len());
                if suggestions.len() > 0 {
                    assert(models(suggestions@)[0] == suggestions[0]@);
                }
            }
            pick_completion(None, &suggestions)
        }
    }
}

} // verus!
