//! The tag dictionary: an ordered list of keys, each with an ordered list of
//! values. A feature pair names a key by its position in the list and a value
//! by its position among that key's values.
//!
//! The dictionary is read once from its definition, a JSON object whose
//! members are the keys in order, each with the array of its values. It is
//! never changed afterwards.

use vstd::prelude::*;
use crate::codec::Feature;

verus! {

/// A dictionary as plain data: for each key its label and its values' labels.
pub type Entries = Seq<(Seq<char>, Seq<Seq<char>>)>;

/// The labels that a sequence of strings holds.
pub open spec fn labels_view(labels: Seq<String>) -> Seq<Seq<char>> {
    Seq::new(labels.len(), |i: int| labels[i]@)
}

/// The plain data of a list of keys with their values.
pub open spec fn entries_view(entries: Seq<(String, Vec<String>)>) -> Entries {
    Seq::new(entries.len(), |i: int| (entries[i].0@, labels_view(entries[i].1@)))
}

/// No two keys have the same label.
pub open spec fn distinct_labels(entries: Entries) -> bool {
    forall|i: int, j: int| 0 <= i < j < entries.len() ==> entries[i].0 != entries[j].0
}

/// What the definition `text` holds: `None` where it is no JSON object of
/// string arrays or where a label is written with an escape, else its members
/// in the order of the text, a member that repeats an earlier name taking that
/// one's place and leaving the order as it was.
pub uninterp spec fn parsed_definition(text: Seq<char>) -> Option<Entries>;

/// Reads a dictionary definition with `serde_json::from_str`, into a
/// `linear_map::LinearMap` from borrowed strings to vectors of borrowed
/// strings, and copies the entries out in the map's order. The labels are
/// borrowed from the text, so that one written with an escape is an error.
/// Nothing is proved of the parser: the contract only gives its result a name.
#[verifier::external_body]
fn parse_definition(text: &str) -> (r: Option<Vec<(String, Vec<String>)>>)
    ensures
        r is Some <==> parsed_definition(text@) is Some,
        r is Some ==> parsed_definition(text@) == Some(entries_view(r->Some_0@)),
{
    let map: linear_map::LinearMap<&str, Vec<&str>> = serde_json::from_str(text).ok()?;
    let mut entries: Vec<(String, Vec<String>)> = Vec::new();
    for (key, values) in map {
        entries.push((key.to_owned(), values.into_iter().map(|v| v.to_owned()).collect()));
    }
    Some(entries)
}

/// The tag dictionary.
#[derive(Debug)]
pub struct OSMTags(Vec<(String, Vec<String>)>);

/// A feature pair that the dictionary does not hold.
#[derive(Clone, Copy, Debug, PartialEq, Eq, Structural)]
pub struct TagResolutionError {
    /// Position of the pair among those that were looked up.
    pub position: usize,
    /// The pair itself.
    pub feature: Feature,
}

impl View for OSMTags {
    type V = Entries;

    closed spec fn view(&self) -> Entries {
        entries_view(self.0@)
    }
}

impl OSMTags {
    /// The keys' labels are pairwise distinct.
    pub open spec fn wf(&self) -> bool {
        distinct_labels(self@)
    }

    /// The dictionary with these keys and values, in this order; `None` where
    /// two keys have the same label.
    pub fn from_entries(entries: Vec<(String, Vec<String>)>) -> (r: Option<OSMTags>)
        ensures
            r is Some <==> distinct_labels(entries_view(entries@)),
            r is Some ==> r->Some_0@ == entries_view(entries@) && r->Some_0.wf(),
    {
        let n: usize = entries.len();
        let mut j: usize = 0;
        while j < n
            invariant
                j <= n,
                n == entries@.len(),
                forall|a: int, b: int| 0 <= a < b < j ==> entries@[a].0@ != entries@[b].0@,
            decreases n - j,
        {
            let mut i: usize = 0;
            while i < j
                invariant
                    i <= j < n,
                    n == entries@.len(),
                    forall|a: int| 0 <= a < i ==> entries@[a].0@ != entries@[j as int].0@,
                decreases j - i,
            {
                if entries[i].0 == entries[j].0 {
                    proof {
                        let view = entries_view(entries@);
                        assert(view[i as int].0 == view[j as int].0);
                    }
                    return None;
                }
                i += 1;
            }
            j += 1;
        }
        proof {
            let view = entries_view(entries@);
            assert forall|a: int, b: int| 0 <= a < b < view.len() implies view[a].0
                != view[b].0 by {
                assert(entries@[a].0@ != entries@[b].0@);
            }
        }
        Some(OSMTags(entries))
    }

    /// Reads the dictionary from its definition. `None` where the text is no
    /// definition.
    pub fn new(definition: &str) -> (r: Option<OSMTags>)
        ensures
            r is Some <==> parsed_definition(definition@) is Some && distinct_labels(
                parsed_definition(definition@)->Some_0,
            ),
            r is Some ==> r->Some_0@ == parsed_definition(definition@)->Some_0
                && r->Some_0.wf(),
    {
        match parse_definition(definition) {
            Some(entries) => OSMTags::from_entries(entries),
            None => None,
        }
    }

    /// Number of keys.
    pub fn len(&self) -> (n: usize)
        ensures
            n == self@.len(),
    {
        self.0.len()
    }
}


/// The tags under one key: the key's label and the labels of the values, in
/// the order in which the pairs were looked up.
#[derive(Debug, PartialEq, Eq)]
pub struct TagGroup {
    /// Position of the key in the dictionary.
    pub key_index: u32,
    /// Label of the key.
    pub key: String,
    /// Labels of the values.
    pub values: Vec<String>,
}

/// The dictionary holds the key and the value that `feature` names.
pub open spec fn resolvable(entries: Entries, feature: Feature) -> bool {
    feature.key < entries.len() && feature.value < entries[feature.key as int].1.len()
}

/// The labels of the values that `features` name under the key at `key`, in
/// the order of `features`.
pub open spec fn values_under(entries: Entries, features: Seq<Feature>, key: int) -> Seq<
    Seq<char>,
>
    decreases features.len(),
{
    if features.len() == 0 {
        Seq::empty()
    } else {
        let earlier = values_under(entries, features.drop_last(), key);
        let last = features.last();
        if last.key == key {
            earlier.push(entries[key].1[last.value as int])
        } else {
            earlier
        }
    }
}

/// No two groups are for the same key.
pub open spec fn keys_distinct(groups: Seq<TagGroup>) -> bool {
    forall|g: int, h: int|
        0 <= g < h < groups.len() ==> groups[g].key_index != groups[h].key_index
}

/// Every key that `features` name has a group.
pub open spec fn keys_grouped(groups: Seq<TagGroup>, features: Seq<Feature>) -> bool {
    forall|i: int|
        0 <= i < features.len() ==> exists|g: int|
            0 <= g < groups.len() && groups[g].key_index == (#[trigger] features[i]).key
}

/// Every group is for a key that `features` name.
pub open spec fn groups_named(groups: Seq<TagGroup>, features: Seq<Feature>) -> bool {
    forall|g: int|
        0 <= g < groups.len() ==> exists|i: int|
            0 <= i < features.len() && features[i].key == (#[trigger] groups[g]).key_index
}

/// The group carries its key's label and the values that `features` name
/// under that key, in their order.
pub open spec fn group_spells(group: TagGroup, entries: Entries, features: Seq<Feature>) -> bool {
    &&& group.key_index < entries.len()
    &&& group.key@ == entries[group.key_index as int].0
    &&& labels_view(group.values@) == values_under(entries, features, group.key_index as int)
}

/// `groups` is the mapping from key to values that `features` spell: one
/// group for each key that occurs, with that key's label and with the values
/// that occur under it.
pub open spec fn groups_of(groups: Seq<TagGroup>, entries: Entries, features: Seq<Feature>) -> bool {
    &&& keys_distinct(groups)
    &&& keys_grouped(groups, features)
    &&& groups_named(groups, features)
    &&& forall|g: int|
        0 <= g < groups.len() ==> group_spells(#[trigger] groups[g], entries, features)
}

/// Adds one resolved pair to the groups: its value's label goes to the end of
/// its key's group, which is made where the key is new.
fn add_label(
    groups: &mut Vec<TagGroup>,
    feature: Feature,
    key: &String,
    label: String,
    Ghost(entries): Ghost<Entries>,
    Ghost(done): Ghost<Seq<Feature>>,
)
    requires
        groups_of(old(groups)@, entries, done),
        resolvable(entries, feature),
        key@ == entries[feature.key as int].0,
        label@ == entries[feature.key as int].1[feature.value as int],
    ensures
        groups_of(final(groups)@, entries, done.push(feature)),
{
    let ghost next = done.push(feature);
    let ghost old_groups = groups@;
    proof {
        assert(next.drop_last() =~= done);
        assert(next.last() == feature);
    }
    let mut g: usize = 0;
    while g < groups.len() && groups[g].key_index != feature.key
        invariant
            g <= groups@.len(),
            groups@ == old_groups,
            forall|h: int| 0 <= h < g ==> groups@[h].key_index != feature.key,
        decreases groups.len() - g,
    {
        g += 1;
    }
    if g < groups.len() {
        let ghost before = groups@[g as int].values@;
        groups[g].values.push(label);
        proof {
            assert(groups@.len() == old_groups.len());
            assert(forall|h: int|
                0 <= h < groups@.len() && h != g ==> groups@[h] == old_groups[h]);
            assert(groups@[g as int].key_index == old_groups[g as int].key_index);
            assert(groups@[g as int].key == old_groups[g as int].key);
            assert(labels_view(groups@[g as int].values@) =~= labels_view(before).push(label@));
            assert(group_spells(old_groups[g as int], entries, done));
        }
    } else {
        let mut values: Vec<String> = Vec::new();
        values.push(label);
        proof {
            assert(labels_view(values@) =~= Seq::<Seq<char>>::empty().push(label@));
            assert forall|i: int| 0 <= i < done.len() implies done[i].key != feature.key by {
                if done[i].key == feature.key {
                    let h = choose|h: int|
                        0 <= h < old_groups.len() && old_groups[h].key_index == done[i].key;
                    assert(false);
                }
            }
            lemma_values_under_absent(entries, done, feature.key as int);
        }
        groups.push(TagGroup { key_index: feature.key, key: key.clone(), values });
        proof {
            assert(forall|h: int| 0 <= h < old_groups.len() ==> groups@[h] == old_groups[h]);
        }
    }
    proof {
        assert(groups@[g as int].key_index == feature.key);
        assert(keys_distinct(groups@)) by {
            assert forall|a: int, b: int| 0 <= a < b < groups@.len() implies groups@[a].key_index
                != groups@[b].key_index by {
                if b < old_groups.len() {
                    assert(old_groups[a].key_index != old_groups[b].key_index);
                }
            }
        }
        assert(keys_grouped(groups@, next)) by {
            assert forall|k: int| 0 <= k < next.len() implies exists|h: int|
                0 <= h < groups@.len() && groups@[h].key_index == (#[trigger] next[k]).key by {
                if k < done.len() {
                    assert(next[k] == done[k]);
                    let h = choose|h: int|
                        0 <= h < old_groups.len() && old_groups[h].key_index == done[k].key;
                    assert(groups@[h].key_index == next[k].key);
                } else {
                    assert(groups@[g as int].key_index == next[k].key);
                }
            }
        }
        assert(groups_named(groups@, next)) by {
            assert forall|h: int| 0 <= h < groups@.len() implies exists|k: int|
                0 <= k < next.len() && next[k].key == (#[trigger] groups@[h]).key_index by {
                if h < old_groups.len() {
                    let k = choose|k: int|
                        0 <= k < done.len() && done[k].key == old_groups[h].key_index;
                    assert(next[k] == done[k]);
                    assert(groups@[h].key_index == old_groups[h].key_index);
                } else {
                    assert(next[done.len() as int].key == groups@[h].key_index);
                }
            }
        }
        assert forall|h: int| 0 <= h < groups@.len() implies group_spells(
            #[trigger] groups@[h],
            entries,
            next,
        ) by {
            if h == g {
            } else {
                assert(groups@[h] == old_groups[h]);
                assert(group_spells(old_groups[h], entries, done));
                if h < g {
                    assert(old_groups[h].key_index != feature.key);
                } else {
                    assert(old_groups[g as int].key_index != old_groups[h].key_index);
                }
            }
        }
    }
}

impl OSMTags {
    /// Turns feature pairs into labels, grouped by key. Fails on the first
    /// pair whose key or value the dictionary does not hold.
    pub fn lookup(&self, features: &[Feature]) -> (r: Result<Vec<TagGroup>, TagResolutionError>)
        ensures
            match r {
                Ok(groups) => {
                    &&& forall|i: int|
                        0 <= i < features@.len() ==> resolvable(self@, #[trigger] features@[i])
                    &&& groups_of(groups@, self@, features@)
                },
                Err(e) => {
                    &&& e.position < features@.len()
                    &&& e.feature == features@[e.position as int]
                    &&& !resolvable(self@, e.feature)
                    &&& forall|i: int|
                        0 <= i < e.position ==> resolvable(self@, #[trigger] features@[i])
                },
            },
    {
        let mut groups: Vec<TagGroup> = Vec::new();
        let mut i: usize = 0;
        while i < features.len()
            invariant
                i <= features@.len(),
                forall|k: int| 0 <= k < i ==> resolvable(self@, #[trigger] features@[k]),
                groups_of(groups@, self@, features@.take(i as int)),
            decreases features.len() - i,
        {
            let feature = features[i];
            if feature.key as usize >= self.0.len() {
                return Err(TagResolutionError { position: i, feature });
            }
            let entry = &self.0[feature.key as usize];
            if feature.value as usize >= entry.1.len() {
                return Err(TagResolutionError { position: i, feature });
            }
            let label: String = entry.1[feature.value as usize].clone();
            proof {
                assert(features@.take(i + 1) =~= features@.take(i as int).push(feature));
            }
            add_label(
                &mut groups,
                feature,
                &entry.0,
                label,
                Ghost(self@),
                Ghost(features@.take(i as int)),
            );
            i += 1;
        }
        proof {
            assert(features@.take(i as int) =~= features@);
        }
        Ok(groups)
    }
}

/// Under a key that none of the pairs names there are no values.
pub proof fn lemma_values_under_absent(entries: Entries, features: Seq<Feature>, key: int)
    requires
        forall|i: int| 0 <= i < features.len() ==> features[i].key != key,
    ensures
        values_under(entries, features, key) == Seq::<Seq<char>>::empty(),
    decreases features.len(),
{
    if features.len() > 0 {
        lemma_values_under_absent(entries, features.drop_last(), key);
    }
}

} // verus!
