//! Changes to the tags of mods: linking, unlinking, and dropping the tags
//! that have no link left.

use crate::criteria::{Criterion, meeting, OtherLink, OtherMod, OtherTag, select, Used};
use crate::filters::{
    lemma_filter_all, lemma_filter_keeps_apart, lemma_filter_rows, lemma_filter_some,
};
use crate::rows::{
    fresh_key, hashes_apart, Keyed, largest_key, lemma_largest_key, lemma_largest_key_push,
    links_apart, mods_apart, ModTagRelation, StoreError, Tag, tags_apart,
};
use crate::set_diff::{
    distinct, Element, first_occurrences, lemma_first_occurrences, lemma_members_empty,
    lemma_members_push, members,
};
use crate::store::{
    has_label, has_mod, has_tag, labels_of, linked_in, mods_tagged, Store, tag_linked, tagged,
};
use crate::tag_diff::{tag_diff, TagDiff, to_link, to_unlink};
use itertools::Itertools;
use vstd::prelude::*;

verus! {

/// Calls `itertools::Itertools::unique` on the identities: it hands out
/// each identity where it occurs first, in order, and skips it where it
/// occurs again.
#[verifier::external_body]
fn unique_ids(ids: Vec<i32>) -> (unique: Vec<i32>)
    ensures
        unique@ == first_occurrences(ids@),
{
    ids.into_iter().unique().collect()
}

/// Where the link that is removed was the last link of its tag, the tag is
/// not among the tags that are left after tags without links have been
/// dropped.
pub proof fn lemma_last_link_removal_drops_tag(
    tags: Seq<Tag>,
    relations: Seq<ModTagRelation>,
    mod_id: i32,
    tag_id: i32,
)
    requires
        forall|i: int|
            0 <= i < relations.len() && (#[trigger] relations[i]).tag_id == tag_id
                ==> relations[i].mod_id == mod_id,
    ensures
        !has_tag(
            tags.filter(linked_in(relations.filter(meeting(OtherLink { mod_id, tag_id })))),
            tag_id as int,
        ),
{
    let rest = relations.filter(meeting(OtherLink { mod_id, tag_id }));
    let left = tags.filter(linked_in(rest));
    lemma_filter_rows(relations, meeting(OtherLink { mod_id, tag_id }));
    lemma_filter_rows(tags, linked_in(rest));
    if has_tag(left, tag_id as int) {
        let t = choose|t: int| 0 <= t < left.len() && #[trigger] left[t].id == tag_id as int;
        assert(linked_in(rest)(left[t]));
        let r = choose|r: int| 0 <= r < rest.len() && #[trigger] rest[r].tag_id == tag_id as int;
        assert(relations.contains(rest[r]));
        let k = choose|k: int| 0 <= k < relations.len() && relations[k] == rest[r];
        assert(relations[k].tag_id == tag_id);
        assert(meeting(OtherLink { mod_id, tag_id })(rest[r]));
    }
}

/// After tags without links have been dropped, every tag that is left has
/// a link, whatever links were removed before.
pub proof fn lemma_cleanup_leaves_no_orphan(tags: Seq<Tag>, relations: Seq<ModTagRelation>)
    ensures
        forall|i: int|
            0 <= i < tags.filter(linked_in(relations)).len() ==> tag_linked(
                relations,
                (#[trigger] tags.filter(linked_in(relations))[i]).id as int,
            ),
        forall|i: int|
            0 <= i < tags.len() && tag_linked(relations, (#[trigger] tags[i]).id as int)
                ==> tags.filter(linked_in(relations)).contains(tags[i]),
{
    lemma_filter_rows(tags, linked_in(relations));
    assert forall|i: int|
        0 <= i < tags.len() && tag_linked(
            relations,
            (#[trigger] tags[i]).id as int,
        ) implies tags.filter(linked_in(relations)).contains(tags[i]) by {
        assert(linked_in(relations)(tags[i]));
    }
}

/// What is left of consistent rows after some links were removed is
/// consistent.
pub proof fn lemma_without_links(
    before: Store,
    after: Store,
    wanted: spec_fn(ModTagRelation) -> bool,
)
    requires
        before.consistent(),
        after.mods@ == before.mods@,
        after.hashes@ == before.hashes@,
        after.relations@ == before.relations@.filter(wanted),
        after.tags@ == before.tags@,
    ensures
        after.consistent(),
{
    lemma_filter_rows(before.relations@, wanted);
    lemma_filter_keeps_apart(
        before.relations@,
        wanted,
        |a: ModTagRelation, b: ModTagRelation| links_apart(a, b),
    );
    assert forall|i: int| 0 <= i < after.relations.len() implies has_mod(
        after.mods@,
        (#[trigger] after.relations[i]).mod_id as int,
    ) && has_tag(after.tags@, after.relations[i].tag_id as int) by {
        let row = after.relations[i];
        assert(before.relations@.contains(row));
        let k = choose|k: int| 0 <= k < before.relations.len() && before.relations[k] == row;
        assert(has_mod(before.mods@, before.relations[k].mod_id as int));
    }
    assert forall|i: int| 0 <= i < after.hashes.len() implies has_mod(
        after.mods@,
        (#[trigger] after.hashes[i]).mod_id as int,
    ) by {
        assert(after.hashes[i] == before.hashes[i]);
    }
    assert forall|i: int, j: int| 0 <= i < j < after.mods.len() implies mods_apart(
        #[trigger] after.mods[i],
        #[trigger] after.mods[j],
    ) by {
        assert(after.mods[i] == before.mods[i] && after.mods[j] == before.mods[j]);
    }
    assert forall|i: int, j: int| 0 <= i < j < after.tags.len() implies tags_apart(
        #[trigger] after.tags[i],
        #[trigger] after.tags[j],
    ) by {
        assert(after.tags[i] == before.tags[i] && after.tags[j] == before.tags[j]);
    }
    assert forall|i: int, j: int| 0 <= i < j < after.hashes.len() implies hashes_apart(
        #[trigger] after.hashes[i],
        #[trigger] after.hashes[j],
    ) by {
        assert(after.hashes[i] == before.hashes[i] && after.hashes[j] == before.hashes[j]);
    }
}

/// Consistent rows with one more tag, of a new identity and a new label,
/// are consistent.
pub proof fn lemma_with_tag(before: Store, after: Store, tag: Tag)
    requires
        before.consistent(),
        !has_tag(before.tags@, tag.id as int),
        !has_label(before.tags@, tag.tag@),
        after.mods@ == before.mods@,
        after.hashes@ == before.hashes@,
        after.relations@ == before.relations@,
        after.tags@ == before.tags@.push(tag),
    ensures
        after.consistent(),
{
    assert forall|i: int, j: int| 0 <= i < j < after.tags.len() implies tags_apart(
        #[trigger] after.tags[i],
        #[trigger] after.tags[j],
    ) by {
        assert(after.tags[i] == before.tags[i]);
        if j < before.tags.len() {
            assert(after.tags[j] == before.tags[j]);
        }
    }
    assert forall|i: int| 0 <= i < after.relations.len() implies has_mod(
        after.mods@,
        (#[trigger] after.relations[i]).mod_id as int,
    ) && has_tag(after.tags@, after.relations[i].tag_id as int) by {
        assert(after.relations[i] == before.relations[i]);
        let id = before.relations[i].tag_id as int;
        let k = choose|k: int| 0 <= k < before.tags.len() && #[trigger] before.tags[k].id == id;
        assert(after.tags[k].id == id);
    }
    assert forall|i: int| 0 <= i < after.hashes.len() implies has_mod(
        after.mods@,
        (#[trigger] after.hashes[i]).mod_id as int,
    ) by {
        assert(after.hashes[i] == before.hashes[i]);
    }
    assert forall|i: int, j: int| 0 <= i < j < after.mods.len() implies mods_apart(
        #[trigger] after.mods[i],
        #[trigger] after.mods[j],
    ) by {
        assert(after.mods[i] == before.mods[i] && after.mods[j] == before.mods[j]);
    }
    assert forall|i: int, j: int| 0 <= i < j < after.hashes.len() implies hashes_apart(
        #[trigger] after.hashes[i],
        #[trigger] after.hashes[j],
    ) by {
        assert(after.hashes[i] == before.hashes[i] && after.hashes[j] == before.hashes[j]);
    }
    assert forall|i: int, j: int| 0 <= i < j < after.relations.len() implies links_apart(
        #[trigger] after.relations[i],
        #[trigger] after.relations[j],
    ) by {
        assert(after.relations[i] == before.relations[i] && after.relations[j]
            == before.relations[j]);
    }
}

/// Consistent rows with one more link, between a record and a tag that
/// exist, are consistent; and every tag that had a link has one.
pub proof fn lemma_with_link(before: Store, after: Store, link: ModTagRelation)
    requires
        before.consistent(),
        has_mod(before.mods@, link.mod_id as int),
        has_tag(before.tags@, link.tag_id as int),
        !before.relations@.contains(link),
        after.mods@ == before.mods@,
        after.hashes@ == before.hashes@,
        after.tags@ == before.tags@,
        after.relations@ == before.relations@.push(link),
    ensures
        after.consistent(),
        forall|id: int| tag_linked(before.relations@, id) ==> tag_linked(after.relations@, id),
        tag_linked(after.relations@, link.tag_id as int),
{
    assert forall|i: int, j: int| 0 <= i < j < after.relations.len() implies links_apart(
        #[trigger] after.relations[i],
        #[trigger] after.relations[j],
    ) by {
        assert(after.relations[i] == before.relations[i]);
        if j < before.relations.len() {
            assert(after.relations[j] == before.relations[j]);
        }
    }
    assert forall|i: int| 0 <= i < after.relations.len() implies has_mod(
        after.mods@,
        (#[trigger] after.relations[i]).mod_id as int,
    ) && has_tag(after.tags@, after.relations[i].tag_id as int) by {
        if i < before.relations.len() {
            assert(after.relations[i] == before.relations[i]);
        }
    }
    assert forall|i: int| 0 <= i < after.hashes.len() implies has_mod(
        after.mods@,
        (#[trigger] after.hashes[i]).mod_id as int,
    ) by {
        assert(after.hashes[i] == before.hashes[i]);
    }
    assert forall|i: int, j: int| 0 <= i < j < after.mods.len() implies mods_apart(
        #[trigger] after.mods[i],
        #[trigger] after.mods[j],
    ) by {
        assert(after.mods[i] == before.mods[i] && after.mods[j] == before.mods[j]);
    }
    assert forall|i: int, j: int| 0 <= i < j < after.tags.len() implies tags_apart(
        #[trigger] after.tags[i],
        #[trigger] after.tags[j],
    ) by {
        assert(after.tags[i] == before.tags[i] && after.tags[j] == before.tags[j]);
    }
    assert forall|i: int, j: int| 0 <= i < j < after.hashes.len() implies hashes_apart(
        #[trigger] after.hashes[i],
        #[trigger] after.hashes[j],
    ) by {
        assert(after.hashes[i] == before.hashes[i] && after.hashes[j] == before.hashes[j]);
    }
    assert forall|id: int| tag_linked(before.relations@, id) implies tag_linked(
        after.relations@,
        id,
    ) by {
        let r = choose|r: int|
            0 <= r < before.relations.len() && #[trigger] before.relations[r].tag_id == id;
        assert(after.relations[r].tag_id == id);
    }
    assert(after.relations[before.relations.len() as int].tag_id == link.tag_id);
}

/// What linking a mod to the tag of a label does to the tags of the mods:
/// the mod has the label besides the labels it had, and every other mod
/// has the labels it had.
pub proof fn lemma_add_tag_labels(
    before: Store,
    after: Store,
    mod_id: i32,
    tag_id: i32,
    label: Seq<char>,
)
    requires
        before.consistent(),
        after.consistent(),
        exists|i: int|
            0 <= i < after.tags.len() && (#[trigger] after.tags[i]).id == tag_id
                && after.tags[i].tag@ == label,
        after.tags@ == before.tags@ || (after.tags.len() == before.tags.len() + 1
            && after.tags@.drop_last() == before.tags@ && after.tags@.last().id == tag_id),
        after.relations@ == if before.relations@.contains(ModTagRelation { mod_id, tag_id }) {
            before.relations@
        } else {
            before.relations@.push(ModTagRelation { mod_id, tag_id })
        },
    ensures
        labels_of(after.tags@, after.relations@, mod_id as int) == labels_of(
            before.tags@,
            before.relations@,
            mod_id as int,
        ).insert(label),
        forall|other: int|
            other != mod_id ==> labels_of(after.tags@, after.relations@, other) == labels_of(
                before.tags@,
                before.relations@,
                other,
            ),
{
    let link = ModTagRelation { mod_id, tag_id };
    let home = choose|i: int|
        0 <= i < after.tags.len() && (#[trigger] after.tags[i]).id == tag_id && after.tags[i].tag@
            == label;
    assert forall|m: int, l: Seq<char>|
        tagged(after.tags@, after.relations@, m, l) <==> (tagged(
            before.tags@,
            before.relations@,
            m,
            l,
        ) || (m == mod_id && l == label)) by {
        if tagged(before.tags@, before.relations@, m, l) {
            let (t, r) = choose|t: int, r: int|
                0 <= t < before.tags.len() && 0 <= r < before.relations.len() && (
                #[trigger] before.tags[t]).tag@ == l && (#[trigger] before.relations[r]).mod_id == m
                    && before.relations[r].tag_id == before.tags[t].id;
            assert(after.tags[t] == before.tags@[t]) by {
                if after.tags@ != before.tags@ {
                    assert(after.tags@.drop_last()[t] == after.tags[t]);
                }
            }
            assert(after.relations[r] == before.relations[r]);
            assert(after.tags[t].tag@ == l && after.relations[r].mod_id == m
                && after.relations[r].tag_id == after.tags[t].id);
        }
        if m == mod_id && l == label {
            if before.relations@.contains(link) {
                let r = choose|r: int| 0 <= r < before.relations.len() && before.relations[r] == link;
                assert(after.tags[home].tag@ == l && after.relations[r].mod_id == m
                    && after.relations[r].tag_id == after.tags[home].id);
            } else {
                let r = before.relations.len() as int;
                assert(after.tags[home].tag@ == l && after.relations[r].mod_id == m
                    && after.relations[r].tag_id == after.tags[home].id);
            }
        }
        if tagged(after.tags@, after.relations@, m, l) {
            let (t, r) = choose|t: int, r: int|
                0 <= t < after.tags.len() && 0 <= r < after.relations.len() && (
                #[trigger] after.tags[t]).tag@ == l && (#[trigger] after.relations[r]).mod_id == m
                    && after.relations[r].tag_id == after.tags[t].id;
            if r >= before.relations.len() {
                assert(after.relations[r] == link);
                if t < home {
                    assert(tags_apart(after.tags[t], after.tags[home]));
                } else if home < t {
                    assert(tags_apart(after.tags[home], after.tags[t]));
                }
            } else {
                assert(after.relations[r] == before.relations[r]);
                if t >= before.tags.len() {
                    assert(has_tag(before.tags@, before.relations[r].tag_id as int));
                    let k = choose|k: int|
                        0 <= k < before.tags.len() && #[trigger] before.tags[k].id
                            == before.relations[r].tag_id as int;
                    assert(after.tags@.drop_last()[k] == after.tags[k]);
                    assert(tags_apart(after.tags[k], after.tags[t]));
                } else {
                    assert(after.tags[t] == before.tags@[t]) by {
                        if after.tags@ != before.tags@ {
                            assert(after.tags@.drop_last()[t] == after.tags[t]);
                        }
                    }
                    assert(before.tags[t].tag@ == l && before.relations[r].mod_id == m
                        && before.relations[r].tag_id == before.tags[t].id);
                }
            }
        }
    }
    assert(labels_of(after.tags@, after.relations@, mod_id as int) =~= labels_of(
        before.tags@,
        before.relations@,
        mod_id as int,
    ).insert(label));
    assert forall|other: int| other != mod_id implies labels_of(
        after.tags@,
        after.relations@,
        other,
    ) == labels_of(before.tags@, before.relations@, other) by {
        assert(labels_of(after.tags@, after.relations@, other) =~= labels_of(
            before.tags@,
            before.relations@,
            other,
        ));
    }
}

/// A tag that was added to consistent rows has an identity that no earlier
/// tag has.
pub proof fn lemma_tag_id_is_fresh(before: Store, after: Store, tag_id: i32)
    requires
        after.consistent(),
        after.tags.len() == before.tags.len() + 1,
        after.tags@.drop_last() == before.tags@,
        after.tags@.last().id == tag_id,
    ensures
        !has_tag(before.tags@, tag_id as int),
{
    if has_tag(before.tags@, tag_id as int) {
        let k = choose|k: int| 0 <= k < before.tags.len() && #[trigger] before.tags[k].id
            == tag_id as int;
        assert(after.tags@.drop_last()[k] == after.tags[k]);
        assert(tags_apart(after.tags[k], after.tags[after.tags.len() - 1]));
    }
}

/// Dropping the tags without links changes the tags of no mod.
pub proof fn lemma_cleanup_keeps_tagged(tags: Seq<Tag>, relations: Seq<ModTagRelation>)
    ensures
        forall|mod_id: int, label: Seq<char>|
            tagged(tags.filter(linked_in(relations)), relations, mod_id, label) <==> tagged(
                tags,
                relations,
                mod_id,
                label,
            ),
{
    let kept = tags.filter(linked_in(relations));
    lemma_filter_rows(tags, linked_in(relations));
    assert forall|mod_id: int, label: Seq<char>|
        tagged(kept, relations, mod_id, label) <==> tagged(tags, relations, mod_id, label) by {
        if tagged(kept, relations, mod_id, label) {
            let (t, r) = choose|t: int, r: int|
                0 <= t < kept.len() && 0 <= r < relations.len() && (#[trigger] kept[t]).tag@
                    == label && (#[trigger] relations[r]).mod_id == mod_id && relations[r].tag_id
                    == kept[t].id;
            assert(tags.contains(kept[t]));
            let k = choose|k: int| 0 <= k < tags.len() && tags[k] == kept[t];
            assert(tags[k].tag@ == label && relations[r].mod_id == mod_id && relations[r].tag_id
                == tags[k].id);
        }
        if tagged(tags, relations, mod_id, label) {
            let (t, r) = choose|t: int, r: int|
                0 <= t < tags.len() && 0 <= r < relations.len() && (#[trigger] tags[t]).tag@
                    == label && (#[trigger] relations[r]).mod_id == mod_id && relations[r].tag_id
                    == tags[t].id;
            assert(linked_in(relations)(tags[t]));
            assert(kept.contains(tags[t]));
            let k = choose|k: int| 0 <= k < kept.len() && kept[k] == tags[t];
            assert(kept[k].tag@ == label && relations[r].mod_id == mod_id && relations[r].tag_id
                == kept[k].id);
        }
    }
}

/// Removing the links of a mod leaves the mod without tags and every other
/// mod with the tags it had.
pub proof fn lemma_unlinked_mod_has_no_tags(
    tags: Seq<Tag>,
    relations: Seq<ModTagRelation>,
    mod_id: i32,
)
    ensures
        forall|label: Seq<char>|
            !tagged(tags, relations.filter(meeting(OtherMod { mod_id })), mod_id as int, label),
        forall|other: int, label: Seq<char>|
            other != mod_id ==> (tagged(
                tags,
                relations.filter(meeting(OtherMod { mod_id })),
                other,
                label,
            ) <==> tagged(tags, relations, other, label)),
{
    let wanted: spec_fn(ModTagRelation) -> bool = meeting(OtherMod { mod_id });
    let rest = relations.filter(wanted);
    lemma_filter_rows(relations, wanted);
    assert forall|label: Seq<char>| !tagged(tags, rest, mod_id as int, label) by {
        if tagged(tags, rest, mod_id as int, label) {
            let (t, r) = choose|t: int, r: int|
                0 <= t < tags.len() && 0 <= r < rest.len() && (#[trigger] tags[t]).tag@ == label
                    && (#[trigger] rest[r]).mod_id == mod_id as int && rest[r].tag_id == tags[t].id;
            assert(wanted(rest[r]));
        }
    }
    assert forall|other: int, label: Seq<char>| other != mod_id implies (tagged(
        tags,
        rest,
        other,
        label,
    ) <==> tagged(tags, relations, other, label)) by {
        if tagged(tags, rest, other, label) {
            let (t, r) = choose|t: int, r: int|
                0 <= t < tags.len() && 0 <= r < rest.len() && (#[trigger] tags[t]).tag@ == label
                    && (#[trigger] rest[r]).mod_id == other && rest[r].tag_id == tags[t].id;
            assert(relations.contains(rest[r]));
            let k = choose|k: int| 0 <= k < relations.len() && relations[k] == rest[r];
            assert(tags[t].tag@ == label && relations[k].mod_id == other && relations[k].tag_id
                == tags[t].id);
        }
        if tagged(tags, relations, other, label) {
            let (t, r) = choose|t: int, r: int|
                0 <= t < tags.len() && 0 <= r < relations.len() && (#[trigger] tags[t]).tag@
                    == label && (#[trigger] relations[r]).mod_id == other && relations[r].tag_id
                    == tags[t].id;
            assert(wanted(relations[r]));
            assert(rest.contains(relations[r]));
            let k = choose|k: int| 0 <= k < rest.len() && rest[k] == relations[r];
            assert(tags[t].tag@ == label && rest[k].mod_id == other && rest[k].tag_id
                == tags[t].id);
        }
    }
}

/// What removing the link between a mod and a tag does to the tags of the
/// mods: the mod loses the label of the tag, and nothing else changes.
pub proof fn lemma_unlink_tagged(before: Store, mod_id: i32, tag_id: i32, label: Seq<char>)
    requires
        before.consistent(),
        exists|i: int|
            0 <= i < before.tags.len() && (#[trigger] before.tags[i]).id == tag_id
                && before.tags[i].tag@ == label,
    ensures
        forall|m: int, l: Seq<char>|
            tagged(
                before.tags@,
                before.relations@.filter(meeting(OtherLink { mod_id, tag_id })),
                m,
                l,
            ) <==> (tagged(before.tags@, before.relations@, m, l) && !(m == mod_id && l == label)),
{
    let wanted: spec_fn(ModTagRelation) -> bool = meeting(OtherLink { mod_id, tag_id });
    let rest = before.relations@.filter(wanted);
    let tags = before.tags@;
    let home = choose|i: int|
        0 <= i < tags.len() && (#[trigger] tags[i]).id == tag_id && tags[i].tag@ == label;
    lemma_filter_rows(before.relations@, wanted);
    assert forall|m: int, l: Seq<char>|
        tagged(tags, rest, m, l) <==> (tagged(tags, before.relations@, m, l) && !(m == mod_id && l
            == label)) by {
        if tagged(tags, rest, m, l) {
            let (t, r) = choose|t: int, r: int|
                0 <= t < tags.len() && 0 <= r < rest.len() && (#[trigger] tags[t]).tag@ == l && (
                #[trigger] rest[r]).mod_id == m && rest[r].tag_id == tags[t].id;
            assert(wanted(rest[r]));
            assert(before.relations@.contains(rest[r]));
            let k = choose|k: int| 0 <= k < before.relations.len() && before.relations[k] == rest[r];
            assert(tags[t].tag@ == l && before.relations[k].mod_id == m
                && before.relations[k].tag_id == tags[t].id);
            if m == mod_id && l == label {
                if t < home {
                    assert(tags_apart(before.tags[t], before.tags[home]));
                } else if home < t {
                    assert(tags_apart(before.tags[home], before.tags[t]));
                }
            }
        }
        if tagged(tags, before.relations@, m, l) && !(m == mod_id && l == label) {
            let (t, r) = choose|t: int, r: int|
                0 <= t < tags.len() && 0 <= r < before.relations.len() && (#[trigger] tags[t]).tag@
                    == l && (#[trigger] before.relations[r]).mod_id == m
                    && before.relations[r].tag_id == tags[t].id;
            if before.relations[r].mod_id == mod_id && before.relations[r].tag_id == tag_id {
                if t < home {
                    assert(tags_apart(before.tags[t], before.tags[home]));
                } else if home < t {
                    assert(tags_apart(before.tags[home], before.tags[t]));
                }
            }
            assert(wanted(before.relations[r]));
            assert(rest.contains(before.relations[r]));
            let k = choose|k: int| 0 <= k < rest.len() && rest[k] == before.relations[r];
            assert(tags[t].tag@ == l && rest[k].mod_id == m && rest[k].tag_id == tags[t].id);
        }
    }
}

/// What linking a mod to the tag of a label does to the tags and the
/// links: how they follow, with what is handed back, from the store before
/// it.
pub open spec fn add_tag_outcome(
    before: Store,
    after: Store,
    mod_id: i32,
    tag: String,
    outcome: Result<i32, StoreError>,
) -> bool {
    match outcome {
        Ok(tag_id) => {
            &&& has_mod(before.mods@, mod_id as int)
            &&& exists|i: int|
                0 <= i < after.tags.len() && (#[trigger] after.tags[i]).id == tag_id
                    && after.tags[i].tag@ == tag@
            &&& after.tags@ == if has_label(before.tags@, tag@) {
                before.tags@
            } else {
                before.tags@.push(Tag { id: tag_id, tag })
            }
            &&& !has_label(before.tags@, tag@) ==> tag_id == largest_key(before.tags@) + 1
            &&& after.relations@ == if before.relations@.contains(
                ModTagRelation { mod_id, tag_id },
            ) {
                before.relations@
            } else {
                before.relations@.push(ModTagRelation { mod_id, tag_id })
            }
        },
        Err(error) => {
            &&& after == before
            &&& error == if has_mod(before.mods@, mod_id as int) {
                StoreError::OutOfIds
            } else {
                StoreError::UnknownMod
            }
            &&& has_mod(before.mods@, mod_id as int) ==> !has_label(before.tags@, tag@)
                && largest_key(before.tags@) == i32::MAX
        },
    }
}

impl Store {

    /// Removes a tag together with its links. Says whether there was such
    /// a tag.
    pub fn delete_tag(&mut self, tag_id: i32) -> (removed: bool)
        requires
            old(self).wf(),
        ensures
            final(self).wf(),
            removed == has_tag(old(self).tags@, tag_id as int),
            !has_tag(final(self).tags@, tag_id as int),
            final(self).mods == old(self).mods,
            final(self).hashes == old(self).hashes,
            final(self).relations@ == old(self).relations@.filter(meeting(OtherTag { tag_id })),
            final(self).tags@ == old(self).tags@.filter(meeting(OtherTag { tag_id })),
    {
        let other = OtherTag { tag_id };
        let ghost before = *self;
        let count = self.tags.len();
        self.relations = select(&self.relations, &other);
        proof {
            lemma_without_links(before, *self, meeting(other));
        }
        let ghost between = *self;
        self.tags = select(&self.tags, &other);
        proof {
            let kept: spec_fn(Tag) -> bool = meeting(other);
            let kept_link: spec_fn(ModTagRelation) -> bool = meeting(other);
            lemma_filter_rows(before.tags@, kept);
            lemma_filter_rows(before.relations@, kept_link);
            lemma_filter_keeps_apart(before.tags@, kept, |a: Tag, b: Tag| tags_apart(a, b));
            assert forall|i: int| 0 <= i < self.relations.len() implies has_mod(
                self.mods@,
                (#[trigger] self.relations[i]).mod_id as int,
            ) && has_tag(self.tags@, self.relations[i].tag_id as int) by {
                let row = self.relations[i];
                assert(kept_link(self.relations@[i]));
                assert(has_tag(between.tags@, row.tag_id as int));
                let k = choose|k: int|
                    0 <= k < before.tags.len() && #[trigger] before.tags[k].id == row.tag_id as int;
                assert(kept(before.tags[k]));
                assert(self.tags@.contains(before.tags[k]));
                let t = choose|t: int| 0 <= t < self.tags.len() && self.tags[t] == before.tags[k];
                assert(self.tags[t].id == row.tag_id);
            }
            assert forall|i: int| 0 <= i < self.tags.len() implies tag_linked(
                self.relations@,
                (#[trigger] self.tags[i]).id as int,
            ) by {
                let tag = self.tags[i];
                assert(kept(self.tags@[i]));
                assert(before.tags@.contains(tag));
                let k = choose|k: int| 0 <= k < before.tags.len() && before.tags[k] == tag;
                assert(tag_linked(before.relations@, before.tags[k].id as int));
                let r = choose|r: int|
                    0 <= r < before.relations.len() && #[trigger] before.relations[r].tag_id
                        == tag.id as int;
                assert(kept_link(before.relations[r]));
                assert(self.relations@.contains(before.relations[r]));
                let q = choose|q: int|
                    0 <= q < self.relations.len() && self.relations[q] == before.relations[r];
                assert(self.relations[q].tag_id == tag.id);
            }
            if has_tag(self.tags@, tag_id as int) {
                let k = choose|k: int|
                    0 <= k < self.tags.len() && #[trigger] self.tags[k].id == tag_id as int;
                assert(kept(self.tags@[k]));
            }
            if self.tags.len() != count {
                if !has_tag(before.tags@, tag_id as int) {
                    assert forall|i: int| 0 <= i < before.tags.len() implies kept(
                        #[trigger] before.tags@[i],
                    ) by {
                        assert(before.tags[i].id != tag_id);
                    }
                    lemma_filter_all(before.tags@, kept);
                }
            } else {
                if has_tag(before.tags@, tag_id as int) {
                    let k = choose|k: int|
                        0 <= k < before.tags.len() && #[trigger] before.tags[k].id == tag_id as int;
                    lemma_filter_some(before.tags@, kept, k);
                }
            }
        }
        self.tags.len() != count
    }

    /// Removes the link between a mod and a tag, then drops the tags that
    /// have no link left.
    pub fn unlink(&mut self, mod_id: i32, tag_id: i32)
        requires
            old(self).wf(),
        ensures
            final(self).wf(),
            final(self).mods == old(self).mods,
            final(self).hashes == old(self).hashes,
            final(self).relations@ == old(self).relations@.filter(
                meeting(OtherLink { mod_id, tag_id }),
            ),
            final(self).tags@ == old(self).tags@.filter(linked_in(final(self).relations@)),
    {
        let other = OtherLink { mod_id, tag_id };
        let ghost before = *self;
        self.relations = select(&self.relations, &other);
        proof {
            lemma_without_links(before, *self, meeting(other));
        }
        cleanup_tags(self);
    }

    /// Removes the tag of a label together with its links, and no mod.
    /// Hands back the identity that the tag had. Where no tag has the
    /// label, nothing changes.
    pub fn delete_label(&mut self, label: &String) -> (outcome: Result<i32, StoreError>)
        requires
            old(self).wf(),
        ensures
            final(self).wf(),
            final(self).mods == old(self).mods,
            final(self).hashes == old(self).hashes,
            match outcome {
                Ok(tag_id) => {
                    &&& exists|i: int|
                        0 <= i < old(self).tags.len() && (#[trigger] old(self).tags[i]).id
                            == tag_id && old(self).tags[i].tag@ == label@
                    &&& !has_label(final(self).tags@, label@)
                    &&& final(self).relations@ == old(self).relations@.filter(
                        meeting(OtherTag { tag_id }),
                    )
                    &&& final(self).tags@ == old(self).tags@.filter(meeting(OtherTag { tag_id }))
                },
                Err(error) => {
                    &&& error == StoreError::UnknownTag
                    &&& !has_label(old(self).tags@, label@)
                    &&& *final(self) == *old(self)
                },
            },
    {
        let ghost before = *self;
        match self.find_tag(label) {
            Some(tag_id) => {
                let removed = self.delete_tag(tag_id);
                proof {
                    let kept: spec_fn(Tag) -> bool = meeting(OtherTag { tag_id });
                    lemma_filter_rows(before.tags@, kept);
                    if has_label(self.tags@, label@) {
                        let k = choose|k: int|
                            0 <= k < self.tags.len() && (#[trigger] self.tags[k]).tag@ == label@;
                        assert(kept(self.tags@[k]));
                        assert(before.tags@.contains(self.tags[k]));
                        let j = choose|j: int| 0 <= j < before.tags.len() && before.tags[j] == self.tags[k];
                        let home = choose|i: int|
                            0 <= i < before.tags.len() && (#[trigger] before.tags[i]).id == tag_id
                                && before.tags[i].tag@ == label@;
                        if j < home {
                            assert(tags_apart(before.tags[j], before.tags[home]));
                        } else if home < j {
                            assert(tags_apart(before.tags[home], before.tags[j]));
                        }
                    }
                }
                Ok(tag_id)
            },
            None => Err(StoreError::UnknownTag),
        }
    }

    /// Links a mod to the tag of this label, unless it is linked to it
    /// already. A tag with the label is made where there is none. Hands
    /// back the identity of the tag.
    pub fn add_tag(&mut self, mod_id: i32, tag: &String) -> (outcome: Result<i32, StoreError>)
        requires
            old(self).consistent(),
        ensures
            final(self).consistent(),
            old(self).wf() ==> final(self).wf(),
            final(self).mods == old(self).mods,
            final(self).hashes == old(self).hashes,
            add_tag_outcome(*old(self), *final(self), mod_id, *tag, outcome),
    {
        if !self.contains_mod(mod_id) {
            return Err(StoreError::UnknownMod);
        }
        let ghost before = *self;
        match get_or_create_tag_id(self, tag) {
            Err(error) => {
                proof {
                    assert(self.mods@ =~= before.mods@);
                }
                Err(error)
            },
            Ok(tag_id) => {
                let link = ModTagRelation { mod_id, tag_id };
                let ghost between = *self;
                proof {
                    if !has_label(before.tags@, tag@) {
                        assert(self.tags[before.tags.len() as int].id == tag_id);
                    }
                    assert(has_tag(self.tags@, tag_id as int));
                }
                if !self.contains_link(link) {
                    self.relations.push(link);
                    proof {
                        lemma_with_link(between, *self, link);
                    }
                }
                proof {
                    assert(tag_linked(self.relations@, tag_id as int)) by {
                        if between.relations@.contains(link) {
                            let r = choose|r: int|
                                0 <= r < between.relations.len() && between.relations[r] == link;
                            assert(self.relations[r].tag_id == tag_id);
                        }
                    }
                    if before.wf() {
                        assert forall|i: int| 0 <= i < self.tags.len() implies tag_linked(
                            self.relations@,
                            (#[trigger] self.tags[i]).id as int,
                        ) by {
                            if i < before.tags.len() {
                                assert(self.tags[i] == before.tags[i]);
                                assert(tag_linked(before.relations@, before.tags[i].id as int));
                                if !between.relations@.contains(link) {
                                } else {
                                    assert(self.relations@ == before.relations@);
                                }
                            }
                        }
                    }
                }
                Ok(tag_id)
            },
        }
    }

    /// Gives a mod the tags of these labels in place of the tags it has,
    /// then drops the tags that have no link left. Tags that do not exist
    /// yet are made. Where there is no such mod, or the identities run
    /// out, nothing changes.
    pub fn set_tags(&mut self, mod_id: i32, labels: &Vec<String>) -> (outcome: Result<
        (),
        StoreError,
    >)
        requires
            old(self).wf(),
        ensures
            final(self).wf(),
            (has_mod(old(self).mods@, mod_id as int) && largest_key(old(self).tags@) + labels.len()
                < i32::MAX) ==> outcome is Ok,
            match outcome {
                Ok(_) => {
                    &&& has_mod(old(self).mods@, mod_id as int)
                    &&& final(self).mods@ == old(self).mods@
                    &&& final(self).hashes@ == old(self).hashes@
                    &&& labels_of(final(self).tags@, final(self).relations@, mod_id as int)
                        == members(labels@)
                    &&& forall|other: int|
                        other != mod_id ==> labels_of(
                            final(self).tags@,
                            final(self).relations@,
                            other,
                        ) == labels_of(old(self).tags@, old(self).relations@, other)
                },
                Err(error) => {
                    &&& *final(self) == *old(self)
                    &&& error == if has_mod(old(self).mods@, mod_id as int) {
                        StoreError::OutOfIds
                    } else {
                        StoreError::UnknownMod
                    }
                },
            },
    {
        if !self.contains_mod(mod_id) {
            return Err(StoreError::UnknownMod);
        }
        let ghost before = *self;
        let mut draft = self.duplicate();
        let ghost copied = draft;
        let other = OtherMod { mod_id };
        draft.relations = select(&draft.relations, &other);
        proof {
            assert(copied.consistent());
            lemma_without_links(copied, draft, meeting(other));
            lemma_unlinked_mod_has_no_tags(before.tags@, before.relations@, mod_id);
            lemma_members_empty(labels@.take(0));
            assert(labels_of(draft.tags@, draft.relations@, mod_id as int) =~= members(
                labels@.take(0),
            ));
            assert forall|m: int| m != mod_id implies labels_of(
                draft.tags@,
                draft.relations@,
                m,
            ) == labels_of(before.tags@, before.relations@, m) by {
                assert(labels_of(draft.tags@, draft.relations@, m) =~= labels_of(
                    before.tags@,
                    before.relations@,
                    m,
                ));
            }
        }
        let mut i: usize = 0;
        while i < labels.len()
            invariant
                i <= labels.len(),
                draft.consistent(),
                *self == before,
                before.wf(),
                has_mod(before.mods@, mod_id as int),
                draft.mods@ == before.mods@,
                draft.hashes@ == before.hashes@,
                labels_of(draft.tags@, draft.relations@, mod_id as int) == members(
                    labels@.take(i as int),
                ),
                forall|m: int|
                    m != mod_id ==> labels_of(draft.tags@, draft.relations@, m) == labels_of(
                        before.tags@,
                        before.relations@,
                        m,
                    ),
                largest_key(draft.tags@) <= largest_key(before.tags@) + i,
            decreases labels.len() - i,
        {
            let ghost earlier = draft;
            match draft.add_tag(mod_id, &labels[i]) {
                Err(_) => {
                    return Err(StoreError::OutOfIds);
                },
                Ok(tag_id) => {
                    proof {
                        let label = labels[i as int]@;
                        if !has_label(earlier.tags@, label) {
                            assert(draft.tags@.drop_last() =~= earlier.tags@);
                            lemma_largest_key(earlier.tags@);
                            lemma_largest_key_push(
                                earlier.tags@,
                                Tag { id: tag_id, tag: labels[i as int] },
                            );
                        }
                        lemma_add_tag_labels(earlier, draft, mod_id, tag_id, label);
                        lemma_members_push(labels@.take(i as int), labels[i as int]);
                        assert(labels@.take(i + 1) =~= labels@.take(i as int).push(
                            labels[i as int],
                        ));
                    }
                },
            }
            i += 1;
        }
        let ghost linked = draft;
        cleanup_tags(&mut draft);
        proof {
            assert(labels@.take(i as int) =~= labels@);
            lemma_cleanup_keeps_tagged(linked.tags@, linked.relations@);
            assert forall|m: int| labels_of(draft.tags@, draft.relations@, m) == labels_of(
                linked.tags@,
                linked.relations@,
                m,
            ) by {
                assert(labels_of(draft.tags@, draft.relations@, m) =~= labels_of(
                    linked.tags@,
                    linked.relations@,
                    m,
                ));
            }
        }
        *self = draft;
        proof {
            assert(self.mods@ =~= before.mods@);
            assert(self.hashes@ =~= before.hashes@);
        }
        Ok(())
    }

    /// Makes the mods with the given identities the members of the tag of a
    /// label: links the ones that are no members yet, unlinks the members
    /// that are not among them, and drops the tags that have no link left.
    /// A tag with the label is made where there is none. Hands back what
    /// was linked and unlinked. Where one of the identities is that of no
    /// mod, or the identities for tags run out, nothing changes.
    pub fn bulk_tag(&mut self, tag: &String, selected: &Vec<i32>) -> (outcome: Result<
        TagDiff,
        StoreError,
    >)
        requires
            old(self).wf(),
        ensures
            final(self).wf(),
            ((forall|i: int|
                0 <= i < selected.len() ==> has_mod(old(self).mods@, #[trigger] selected[i] as int))
                && largest_key(old(self).tags@) < i32::MAX) ==> outcome is Ok,
            match outcome {
                Ok(diff) => {
                    &&& forall|i: int|
                        0 <= i < selected.len() ==> has_mod(
                            old(self).mods@,
                            #[trigger] selected[i] as int,
                        )
                    &&& final(self).mods@ == old(self).mods@
                    &&& final(self).hashes@ == old(self).hashes@
                    &&& mods_tagged(final(self).tags@, final(self).relations@, tag@) == members(
                        selected@,
                    )
                    &&& forall|label: Seq<char>|
                        label != tag@ ==> mods_tagged(
                            final(self).tags@,
                            final(self).relations@,
                            label,
                        ) == mods_tagged(old(self).tags@, old(self).relations@, label)
                    &&& distinct(diff.to_link@)
                    &&& distinct(diff.to_unlink@)
                    &&& members(diff.to_link@) == to_link(
                        mods_tagged(old(self).tags@, old(self).relations@, tag@),
                        members(selected@),
                    )
                    &&& members(diff.to_unlink@) == to_unlink(
                        mods_tagged(old(self).tags@, old(self).relations@, tag@),
                        members(selected@),
                    )
                },
                Err(error) => {
                    &&& *final(self) == *old(self)
                    &&& error == if forall|i: int|
                        0 <= i < selected.len() ==> has_mod(
                            old(self).mods@,
                            #[trigger] selected[i] as int,
                        ) {
                        StoreError::OutOfIds
                    } else {
                        StoreError::UnknownMod
                    }
                },
            },
    {
        let mut c: usize = 0;
        while c < selected.len()
            invariant
                c <= selected.len(),
                *self == *old(self),
                self.wf(),
                forall|i: int| 0 <= i < c ==> has_mod(self.mods@, #[trigger] selected[i] as int),
            decreases selected.len() - c,
        {
            if !self.contains_mod(selected[c]) {
                return Err(StoreError::UnknownMod);
            }
            c += 1;
        }
        let ghost before = *self;
        let ghost was = mods_tagged(before.tags@, before.relations@, tag@);
        let current = self.members_of_tag(tag);
        let diff = tag_diff(&current, selected);
        let mut draft = self.duplicate();
        proof {
            assert(draft.wf());
            lemma_members_empty(diff.to_link@.take(0));
        }
        let mut i: usize = 0;
        while i < diff.to_link.len()
            invariant
                i <= diff.to_link.len(),
                draft.consistent(),
                *self == before,
                before.wf(),
                draft.mods@ == before.mods@,
                draft.hashes@ == before.hashes@,
                forall|j: int|
                    0 <= j < selected.len() ==> has_mod(
                        before.mods@,
                        #[trigger] selected[j] as int,
                    ),
                members(diff.to_link@) == to_link(was, members(selected@)),
                largest_key(draft.tags@) <= largest_key(before.tags@) + 1,
                i > 0 || draft.tags@ == before.tags@,
                i > 0 ==> has_label(draft.tags@, tag@),
                forall|j: int|
                    0 <= j < draft.tags.len() ==> tag_linked(
                        draft.relations@,
                        (#[trigger] draft.tags[j]).id as int,
                    ),
                forall|m: int, l: Seq<char>|
                    tagged(draft.tags@, draft.relations@, m, l) <==> (tagged(
                        before.tags@,
                        before.relations@,
                        m,
                        l,
                    ) || (l == tag@ && members(diff.to_link@.take(i as int)).contains(m))),
            decreases diff.to_link.len() - i,
        {
            let ghost earlier = draft;
            let mod_id = diff.to_link[i];
            proof {
                assert(members(diff.to_link@).contains(diff.to_link[i as int].model()));
                let j = choose|j: int| 0 <= j < selected.len() && #[trigger] selected[j].model()
                    == mod_id as int;
                assert(has_mod(before.mods@, selected[j] as int));
                assert(earlier.wf());
            }
            match draft.add_tag(mod_id, tag) {
                Err(_) => {
                    proof {
                        lemma_largest_key(before.tags@);
                    }
                    return Err(StoreError::OutOfIds);
                },
                Ok(tag_id) => {
                    proof {
                        if !has_label(earlier.tags@, tag@) {
                            assert(draft.tags@.drop_last() =~= earlier.tags@);
                            lemma_largest_key(earlier.tags@);
                            lemma_largest_key_push(earlier.tags@, Tag { id: tag_id, tag: *tag });
                            assert(draft.tags[earlier.tags.len() as int].tag@ == tag@);
                        } else {
                            let k = choose|k: int|
                                0 <= k < earlier.tags.len() && (#[trigger] earlier.tags[k]).tag@
                                    == tag@;
                            assert(draft.tags[k].tag@ == tag@);
                        }
                        lemma_add_tag_labels(earlier, draft, mod_id, tag_id, tag@);
                        lemma_members_push(diff.to_link@.take(i as int), diff.to_link[i as int]);
                        assert(diff.to_link@.take(i + 1) =~= diff.to_link@.take(i as int).push(
                            diff.to_link[i as int],
                        ));
                        assert forall|m: int, l: Seq<char>|
                            tagged(draft.tags@, draft.relations@, m, l) <==> (tagged(
                                before.tags@,
                                before.relations@,
                                m,
                                l,
                            ) || (l == tag@ && members(diff.to_link@.take(i + 1)).contains(m))) by {
                            assert(labels_of(draft.tags@, draft.relations@, m).contains(l)
                                == tagged(draft.tags@, draft.relations@, m, l));
                            assert(labels_of(earlier.tags@, earlier.relations@, m).contains(l)
                                == tagged(earlier.tags@, earlier.relations@, m, l));
                        }
                    }
                },
            }
            i += 1;
        }
        proof {
            assert(diff.to_link@.take(i as int) =~= diff.to_link@);
            lemma_members_empty(diff.to_unlink@.take(0));
        }
        let ghost linked = draft;
        let mut k: usize = 0;
        while k < diff.to_unlink.len()
            invariant
                k <= diff.to_unlink.len(),
                draft.consistent(),
                *self == before,
                before.wf(),
                draft.mods@ == before.mods@,
                draft.hashes@ == before.hashes@,
                draft.tags@ == linked.tags@,
                members(diff.to_unlink@) == to_unlink(was, members(selected@)),
                was == mods_tagged(before.tags@, before.relations@, tag@),
                forall|m: int, l: Seq<char>|
                    tagged(linked.tags@, linked.relations@, m, l) <==> (tagged(
                        before.tags@,
                        before.relations@,
                        m,
                        l,
                    ) || (l == tag@ && members(diff.to_link@).contains(m))),
                forall|m: int, l: Seq<char>|
                    tagged(draft.tags@, draft.relations@, m, l) <==> (tagged(
                        linked.tags@,
                        linked.relations@,
                        m,
                        l,
                    ) && !(l == tag@ && members(diff.to_unlink@.take(k as int)).contains(m))),
            decreases diff.to_unlink.len() - k,
        {
            let ghost earlier = draft;
            let mod_id = diff.to_unlink[k];
            proof {
                assert(members(diff.to_unlink@).contains(diff.to_unlink[k as int].model()));
                assert(was.contains(mod_id as int));
                assert(tagged(before.tags@, before.relations@, mod_id as int, tag@));
                assert(tagged(linked.tags@, linked.relations@, mod_id as int, tag@));
                let (t, r) = choose|t: int, r: int|
                    0 <= t < linked.tags.len() && 0 <= r < linked.relations.len() && (
                    #[trigger] linked.tags[t]).tag@ == tag@ && (
                    #[trigger] linked.relations[r]).mod_id == mod_id as int
                        && linked.relations[r].tag_id == linked.tags[t].id;
                assert(draft.tags[t].tag@ == tag@);
                assert(has_label(draft.tags@, tag@));
            }
            match draft.find_tag(tag) {
                Some(tag_id) => {
                    let other = OtherLink { mod_id, tag_id };
                    draft.relations = select(&draft.relations, &other);
                    proof {
                        lemma_without_links(earlier, draft, meeting(other));
                        lemma_unlink_tagged(earlier, mod_id, tag_id, tag@);
                        lemma_members_push(diff.to_unlink@.take(k as int), diff.to_unlink[k as int]);
                        assert(diff.to_unlink@.take(k + 1) =~= diff.to_unlink@.take(k as int).push(
                            diff.to_unlink[k as int],
                        ));
                    }
                },
                None => {},
            }
            k += 1;
        }
        let ghost unlinked = draft;
        cleanup_tags(&mut draft);
        proof {
            assert(diff.to_unlink@.take(k as int) =~= diff.to_unlink@);
            lemma_cleanup_keeps_tagged(unlinked.tags@, unlinked.relations@);
            assert forall|m: int|
                mods_tagged(draft.tags@, draft.relations@, tag@).contains(m) <==> members(
                    selected@,
                ).contains(m) by {
                assert(was.contains(m) == tagged(before.tags@, before.relations@, m, tag@));
            }
            assert(mods_tagged(draft.tags@, draft.relations@, tag@) =~= members(selected@));
            assert forall|label: Seq<char>| label != tag@ implies mods_tagged(
                draft.tags@,
                draft.relations@,
                label,
            ) == mods_tagged(before.tags@, before.relations@, label) by {
                assert(mods_tagged(draft.tags@, draft.relations@, label) =~= mods_tagged(
                    before.tags@,
                    before.relations@,
                    label,
                ));
            }
        }
        *self = draft;
        Ok(diff)
    }
}

/// The tags that a sequence of links names, in order.
pub open spec fn linked_tags(relations: Seq<ModTagRelation>) -> Seq<i32> {
    Seq::new(relations.len(), |i: int| relations[i].tag_id)
}

/// The identities of the tags that have a link, each once, in the order in
/// which the links name them first.
pub fn linked_tag_ids(store: &Store) -> (ids: Vec<i32>)
    ensures
        ids@ == first_occurrences(linked_tags(store.relations@)),
{
    let mut linked: Vec<i32> = Vec::new();
    let mut r: usize = 0;
    while r < store.relations.len()
        invariant
            r <= store.relations.len(),
            linked.len() == r,
            forall|j: int| 0 <= j < r ==> #[trigger] linked[j] == store.relations[j].tag_id,
        decreases store.relations.len() - r,
    {
        linked.push(store.relations[r].tag_id);
        r += 1;
    }
    proof {
        assert(linked@ =~= linked_tags(store.relations@));
    }
    unique_ids(linked)
}

/// Drops every tag that has no link.
pub fn cleanup_tags(store: &mut Store)
    requires
        old(store).consistent(),
    ensures
        final(store).wf(),
        final(store).mods == old(store).mods,
        final(store).hashes == old(store).hashes,
        final(store).relations == old(store).relations,
        final(store).tags@ == old(store).tags@.filter(linked_in(old(store).relations@)),
{
    let ghost before = store.tags@;
    let ghost wanted = linked_in(store.relations@);
    let ghost all = linked_tags(store.relations@);
    let used = linked_tag_ids(store);
    let criterion = Used { ids: &used };
    let kept = select(&store.tags, &criterion);
    proof {
        lemma_first_occurrences(all);
        assert forall|tag: Tag| #[trigger] criterion.holds(tag) == tag_linked(
            store.relations@,
            tag.id as int,
        ) by {
            if all.contains(tag.id) {
                let k = choose|k: int| 0 <= k < all.len() && all[k] == tag.id;
                assert(store.relations[k].tag_id == tag.id);
            }
            if tag_linked(store.relations@, tag.id as int) {
                let k = choose|k: int|
                    0 <= k < store.relations.len() && #[trigger] store.relations[k].tag_id
                        == tag.id as int;
                assert(all[k] == tag.id);
            }
        }
        assert(meeting(criterion) =~= wanted);
        lemma_filter_rows(before, wanted);
        lemma_filter_keeps_apart(before, wanted, |a: Tag, b: Tag| tags_apart(a, b));
    }
    store.tags = kept;
    proof {
        assert forall|i: int| 0 <= i < store.relations.len() implies has_tag(
            store.tags@,
            (#[trigger] store.relations[i]).tag_id as int,
        ) by {
            let id = store.relations[i].tag_id as int;
            let k = choose|k: int| 0 <= k < before.len() && #[trigger] before[k].id == id;
            assert(wanted(before[k]));
            assert(store.tags@.contains(before[k]));
            let t = choose|t: int| 0 <= t < store.tags.len() && store.tags[t] == before[k];
            assert(store.tags[t].id == id);
        }
        assert forall|i: int| 0 <= i < store.tags.len() implies tag_linked(
            store.relations@,
            (#[trigger] store.tags[i]).id as int,
        ) by {
            assert(wanted(store.tags@[i]));
        }
    }
}

/// The identity of the tag with this label. Where there is none yet, a
/// tag with the label is made, with an identity one above the largest
/// in use; it has no link then, so the caller has to link it or to
/// drop it again.
pub fn get_or_create_tag_id(store: &mut Store, tag: &String) -> (outcome: Result<i32, StoreError>)
    requires
        old(store).consistent(),
    ensures
        final(store).consistent(),
        final(store).mods == old(store).mods,
        final(store).hashes == old(store).hashes,
        final(store).relations == old(store).relations,
        match outcome {
            Ok(id) => if has_label(old(store).tags@, tag@) {
                &&& final(store).tags == old(store).tags
                &&& exists|i: int|
                    0 <= i < old(store).tags.len() && (#[trigger] old(store).tags[i]).id == id
                        && old(store).tags[i].tag@ == tag@
            } else {
                &&& id == largest_key(old(store).tags@) + 1
                &&& final(store).tags@ == old(store).tags@.push(Tag { id, tag: *tag })
            },
            Err(error) => {
                &&& error == StoreError::OutOfIds
                &&& !has_label(old(store).tags@, tag@)
                &&& largest_key(old(store).tags@) == i32::MAX
                &&& final(store).tags == old(store).tags
            },
        },
{
    match store.find_tag(tag) {
        Some(id) => Ok(id),
        None => match fresh_key(&store.tags) {
            Some(id) => {
                let ghost before = *store;
                let row = Tag { id, tag: tag.clone() };
                proof {
                    lemma_largest_key(store.tags@);
                    if has_tag(store.tags@, id as int) {
                        let k = choose|k: int|
                            0 <= k < store.tags.len() && #[trigger] store.tags[k].id == id as int;
                        assert(store.tags[k].key() <= largest_key(store.tags@));
                    }
                }
                store.tags.push(row);
                proof {
                    lemma_with_tag(before, *store, row);
                }
                Ok(id)
            },
            None => Err(StoreError::OutOfIds),
        },
    }
}

/// The store to work on, for the rows that the database holds: a copy of
/// the rows without the tags that have no link. There is none where the
/// rows do not fit together.
pub fn working_store(persisted: &Store) -> (working: Option<Store>)
    ensures
        match working {
            Some(store) => {
                &&& persisted.consistent()
                &&& store.wf()
                &&& store.mods@ == persisted.mods@
                &&& store.hashes@ == persisted.hashes@
                &&& store.relations@ == persisted.relations@
                &&& store.tags@ == persisted.tags@.filter(linked_in(persisted.relations@))
            },
            None => !persisted.consistent(),
        },
{
    if !persisted.is_consistent() {
        return None;
    }
    let mut store = persisted.duplicate();
    cleanup_tags(&mut store);
    Some(store)
}

} // verus!
