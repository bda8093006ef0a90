use sims4modorganizer::autocomplete::{pick_completion, suggestions_from, TagAutoComplete};
use sims4modorganizer::rows::Tag;

fn tags(labels: &[&str]) -> Vec<Tag> {
    labels.iter().enumerate().map(|(i, l)| Tag { id: i as i32 + 1, tag: l.to_string() }).collect()
}

fn sorted(mut list: Vec<String>) -> Vec<String> {
    list.sort();
    list
}

fn names(list: &[&str]) -> Vec<String> {
    list.iter().map(|n| n.to_string()).collect()
}

#[test]
fn the_empty_input_suggests_every_tag() {
    let mut completion = TagAutoComplete::create(&tags(&["Body", "Hair", "Patreon"]));
    assert_eq!(sorted(completion.get_suggestions("")), names(&["Body", "Hair", "Patreon"]));
}

#[test]
fn a_tag_that_is_typed_in_full_suggests_itself_and_its_extensions() {
    let mut completion = TagAutoComplete::create(&tags(&["Body", "Bodysuit", "Hair"]));
    assert_eq!(sorted(completion.get_suggestions("Body")), names(&["Body", "Bodysuit"]));
    assert_eq!(completion.get_suggestions("Hair"), names(&["Hair"]));
}

#[test]
fn suggestions_are_tags_that_begin_with_the_input() {
    let labels = ["Body", "Bodysuit", "Boots", "Hair", "Hat", "Patreon"];
    let mut completion = TagAutoComplete::create(&tags(&labels));
    for input in ["", "B", "Bo", "Bod", "Body", "H", "Ha", "Hair", "P", "x", "Bodysuits"] {
        for suggestion in completion.get_suggestions(input) {
            assert!(suggestion.starts_with(input));
            assert!(labels.contains(&suggestion.as_str()));
        }
    }
}

#[test]
fn unknown_input_suggests_nothing() {
    let mut completion = TagAutoComplete::create(&tags(&["Body"]));
    assert!(completion.get_suggestions("Hair").is_empty());
    assert!(completion.get_suggestions("Bodysuit").is_empty());
    let mut empty = TagAutoComplete::create(&vec![]);
    assert!(empty.get_suggestions("").is_empty());
    assert!(empty.get_suggestions("a").is_empty());
}

#[test]
fn completion_prefers_the_highlighted_suggestion() {
    let mut completion = TagAutoComplete::create(&tags(&["Body", "Bodysuit"]));
    assert_eq!(
        completion.get_completion("Body", Some("Bodysuit".to_string())),
        Some("Bodysuit".to_string())
    );
    assert_eq!(
        completion.get_completion("zzz", Some("anything".to_string())),
        Some("anything".to_string())
    );
    let first = completion.get_suggestions("Body")[0].clone();
    assert_eq!(completion.get_completion("Body", None), Some(first));
    assert_eq!(completion.get_completion("zzz", None), None);
}

#[test]
fn pick_completion_takes_highlighted_then_first() {
    let suggestions = names(&["one", "two"]);
    assert_eq!(pick_completion(Some("two".to_string()), &suggestions), Some("two".to_string()));
    assert_eq!(pick_completion(None, &suggestions), Some("one".to_string()));
    assert_eq!(pick_completion(None, &vec![]), None);
    assert_eq!(pick_completion(Some("x".to_string()), &vec![]), Some("x".to_string()));
}

#[test]
fn exclusions_keep_the_tags_that_equal_all_of_them() {
    let all = tags(&["Body", "Hair", "Patreon"]);
    let mut none_given = TagAutoComplete::create_with_exclusions(&all, &vec![]);
    assert_eq!(sorted(none_given.get_suggestions("")), names(&["Body", "Hair", "Patreon"]));
    let mut one = TagAutoComplete::create_with_exclusions(&all, &names(&["Hair"]));
    assert_eq!(one.get_suggestions(""), names(&["Hair"]));
    let mut two = TagAutoComplete::create_with_exclusions(&all, &names(&["Hair", "Body"]));
    assert!(two.get_suggestions("").is_empty());
}

#[test]
fn a_copy_suggests_the_same() {
    let mut completion = TagAutoComplete::create(&tags(&["Body", "Hair"]));
    let mut copy = completion.clone();
    assert_eq!(sorted(copy.get_suggestions("")), sorted(completion.get_suggestions("")));
}

#[test]
fn suggestions_are_what_was_found_below_the_input() {
    assert_eq!(suggestions_from(Some(names(&["Body", "Bodysuit"]))), names(&["Body", "Bodysuit"]));
    assert!(suggestions_from(Some(vec![])).is_empty());
    assert!(suggestions_from(None).is_empty());
}

#[test]
fn the_same_trie_suggests_the_same_for_the_same_input() {
    let mut completion = TagAutoComplete::create(&tags(&["Body", "Bodysuit", "Boots", "Hair"]));
    for input in ["", "B", "Bo", "Body", "Hair", "Hat"] {
        let first = completion.get_suggestions(input);
        let second = completion.get_suggestions(input);
        assert_eq!(first, second);
    }
    assert_eq!(completion.get_suggestions("Body"), names(&["Body", "Bodysuit"]));
}

#[test]
fn without_a_highlight_the_completion_is_the_first_suggestion_or_nothing() {
    let mut completion = TagAutoComplete::create(&tags(&["Body", "Bodysuit", "Boots", "Hair"]));
    for input in ["", "B", "Bo", "Body", "Bodysuit", "Hair", "Hat", "x"] {
        let suggestions = completion.get_suggestions(input);
        assert_eq!(completion.get_completion(input, None), suggestions.first().cloned());
    }
    assert_eq!(completion.get_completion("Bodysuit", None), Some("Bodysuit".to_string()));
    assert_eq!(completion.get_completion("Hat", None), None);
}

#[test]
fn a_found_subtrie_suggests_every_tag_with_the_prefix_once() {
    let labels = ["Body", "Bodysuit", "Bodies", "Boots", "Hair"];
    let mut completion = TagAutoComplete::create(&tags(&labels));
    let all = completion.get_suggestions("");
    assert_eq!(sorted(all), sorted(names(&labels)));
    let below = completion.get_suggestions("Body");
    assert_eq!(sorted(below), names(&["Body", "Bodysuit"]));
    let tags_twice = tags(&["Body", "Body", "Hair"]);
    let mut twice = TagAutoComplete::create(&tags_twice);
    assert_eq!(sorted(twice.get_suggestions("")), names(&["Body", "Hair"]));
}
