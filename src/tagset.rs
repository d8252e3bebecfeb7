use vstd::prelude::*;

use crate::json_model::{deref_opt, json_field, json_string_list, label_set_at, labels_at, JsonModel};

verus! {

/// The views of a list of strings.
pub open spec fn views_of(v: Seq<String>) -> Seq<Seq<char>> {
    v.map_values(|t: String| t@)
}

/// An unordered set of string labels, held without duplicates.
#[derive(Debug)]
pub struct TagSet {
    pub tags: Vec<String>,
}

impl TagSet {
    /// The labels, in the order in which they are held.
    pub open spec fn tag_seq(&self) -> Seq<Seq<char>> {
        views_of(self.tags@)
    }

    /// The labels as a set.
    pub open spec fn tag_set(&self) -> Set<Seq<char>> {
        Set::new(|t: Seq<char>| self.tag_seq().contains(t))
    }

    pub open spec fn wf(&self) -> bool {
        self.tag_seq().no_duplicates()
    }

    /// Builds the set of the given labels; a label given twice is kept once.
    pub fn from_tags(labels: Vec<String>) -> (r: TagSet)
        ensures
            r.wf(),
            r.tag_set() == Set::new(|t: Seq<char>| views_of(labels@).contains(t)),
    {
        let mut tags: Vec<String> = Vec::new();
        let mut i: usize = 0;
        while i < labels.len()
            invariant
                i <= labels.len(),
                views_of(tags@).no_duplicates(),
                forall|t: Seq<char>|
                    views_of(tags@).contains(t) <==> views_of(labels@).take(i as int).contains(t),
            decreases labels.len() - i,
        {
            let ghost before = views_of(tags@);
            let present = contains_label(&tags, &labels[i]);
            if !present {
                tags.push(labels[i].clone());
                assert(views_of(tags@) =~= before.push(labels@[i as int]@));
            }
            assert(views_of(labels@).take(i + 1) =~= views_of(labels@).take(i as int).push(
                labels@[i as int]@,
            ));
            proof {
                assert forall|t: Seq<char>|
                    views_of(tags@).contains(t) <==> views_of(labels@).take(i + 1).contains(t) by {
                    let s = views_of(labels@).take(i as int);
                    if s.push(labels@[i as int]@).contains(t) && t != labels@[i as int]@ {
                        let k = choose|k: int| 0 <= k < i + 1 && s.push(labels@[i as int]@)[k] == t;
                        assert(s[k] == t);
                    }
                    if views_of(tags@).contains(t) && !present && t != labels@[i as int]@ {
                        let k = choose|k: int|
                            0 <= k < views_of(tags@).len() && views_of(tags@)[k] == t;
                        assert(before[k] == t);
                    }
                    if s.contains(t) {
                        let k = choose|k: int| 0 <= k < s.len() && s[k] == t;
                        assert(s.push(labels@[i as int]@)[k] == t);
                    }
                    if !present && before.contains(t) {
                        let k = choose|k: int| 0 <= k < before.len() && before[k] == t;
                        assert(views_of(tags@)[k] == t);
                    }
                    if t == labels@[i as int]@ {
                        assert(s.push(labels@[i as int]@)[i as int] == t);
                        if !present {
                            assert(views_of(tags@)[before.len() as int] == t);
                        }
                    }
                }
            }
            i = i + 1;
        }
        assert(views_of(labels@).take(labels.len() as int) =~= views_of(labels@));
        let r = TagSet { tags };
        assert(r.tag_set() =~= Set::new(|t: Seq<char>| views_of(labels@).contains(t)));
        r
    }

    /// Whether a tag list is given and each of its members is a label.
    pub open spec fn labels_present(items: Option<Vec<Option<String>>>) -> bool {
        &&& items is Some
        &&& forall|i: int| 0 <= i < items->Some_0@.len() ==> (#[trigger] items->Some_0@[i]) is Some
    }

    /// The labels of a tag list whose members are all present.
    pub open spec fn label_set(items: Option<Vec<Option<String>>>) -> Set<Seq<char>> {
        Set::new(
            |t: Seq<char>|
                exists|i: int|
                    0 <= i < items->Some_0@.len() && (#[trigger] items->Some_0@[i])->Some_0@ == t,
        )
    }

    /// Builds the set of a tag list, or `None` when the list is missing or
    /// one of its members is not a label.
    pub fn from_members(items: Option<Vec<Option<String>>>) -> (r: Option<TagSet>)
        ensures
            r is Some <==> Self::labels_present(items),
            r is Some ==> r->Some_0.wf() && r->Some_0.tag_set() == Self::label_set(items),
    {
        let list = match &items {
            Some(v) => v,
            None => return None,
        };
        let ghost given = list@;
        let mut labels: Vec<String> = Vec::new();
        let mut i: usize = 0;
        while i < list.len()
            invariant
                i <= list.len(),
                list@ == given,
                items == Some(*list),
                labels@.len() == i,
                forall|k: int| 0 <= k < i ==> (#[trigger] given[k]) is Some,
                forall|k: int| 0 <= k < i ==> labels@[k] == (#[trigger] given[k])->Some_0,
            decreases list.len() - i,
        {
            match &list[i] {
                Some(label) => labels.push(label.clone()),
                None => {
                    assert(items->Some_0@[i as int] is None);
                    return None;
                },
            }
            i = i + 1;
        }
        let r = Self::from_tags(labels);
        assert(r.tag_set() =~= Self::label_set(items)) by {
            assert forall|t: Seq<char>| #[trigger] views_of(labels@).contains(t) implies
                Self::label_set(items).contains(t) by {
                let k = choose|k: int| 0 <= k < labels@.len() && views_of(labels@)[k] == t;
                assert(given[k]->Some_0@ == t);
            }
            assert forall|t: Seq<char>| #[trigger] Self::label_set(items).contains(t)
                implies views_of(labels@).contains(t) by {
                let k = choose|k: int| 0 <= k < given.len() && given[k]->Some_0@ == t;
                assert(views_of(labels@)[k] == t);
            }
        }
        Some(r)
    }

    /// Reads the tag list under the key `tags` of a JSON object; `None` when
    /// it is missing, is not an array, or holds a member that is not a string.
    pub fn parse_from_json_value(jv: &JsonModel) -> (r: Option<TagSet>)
        ensures
            r is Some <==> labels_at(field_of_tags(*jv)),
            r is Some ==> r->Some_0.wf() && r->Some_0.tag_set() == label_set_at(field_of_tags(*jv)),
    {
        let labels = labels_from_json(json_field(jv, "tags"));
        Self::from_members(labels)
    }

    /// Whether every label of `self` is also a label of `other`.
    pub fn has_all_tags_of(&self, other: &TagSet) -> (r: bool)
        ensures
            r == self.tag_set().subset_of(other.tag_set()),
    {
        let mut i: usize = 0;
        while i < self.tags.len()
            invariant
                i <= self.tags.len(),
                forall|k: int| 0 <= k < i ==> other.tag_seq().contains(#[trigger] self.tag_seq()[k]),
            decreases self.tags.len() - i,
        {
            if !contains_label(&other.tags, &self.tags[i]) {
                assert(self.tag_set().contains(self.tag_seq()[i as int]));
                return false;
            }
            i = i + 1;
        }
        assert forall|t: Seq<char>| self.tag_set().contains(t) implies other.tag_set().contains(t) by {
            let k = choose|k: int| 0 <= k < self.tag_seq().len() && self.tag_seq()[k] == t;
        }
        true
    }
}

/// The member `tags` of a JSON value.
pub open spec fn field_of_tags(v: JsonModel) -> Option<JsonModel> {
    crate::json_model::field_of(v, "tags"@)
}

/// The tag list of a JSON value, as `TagSet::from_members` takes it.
pub fn labels_from_json(f: Option<&JsonModel>) -> (r: Option<Vec<Option<String>>>)
    ensures
        TagSet::labels_present(r) <==> labels_at(deref_opt(f)),
        TagSet::labels_present(r) ==> TagSet::label_set(r) == label_set_at(deref_opt(f)),
{
    let r = json_string_list(f);
    proof {
        if r is Some {
            let items = f->Some_0->Array_0@;
            if labels_at(deref_opt(f)) {
                assert forall|i: int| 0 <= i < r->Some_0@.len() implies (#[trigger] r->Some_0@[i]) is Some by {
                    assert(items[i] is Text);
                }
                assert(TagSet::label_set(r) =~= label_set_at(deref_opt(f))) by {
                    assert forall|t: Seq<char>| #[trigger] TagSet::label_set(r).contains(t) implies label_set_at(deref_opt(f)).contains(t) by {
                        let i = choose|i: int| 0 <= i < r->Some_0@.len() && (#[trigger] r->Some_0@[i])->Some_0@ == t;
                        assert(items[i] is Text);
                    }
                    assert forall|t: Seq<char>| #[trigger] label_set_at(deref_opt(f)).contains(t) implies TagSet::label_set(r).contains(t) by {
                        let i = choose|i: int| 0 <= i < items.len() && (#[trigger] items[i]) is Text && items[i]->Text_0@ == t;
                        assert(r->Some_0@[i] is Some);
                    }
                }
            } else {
                let i = choose|i: int| 0 <= i < items.len() && !((#[trigger] items[i]) is Text);
                assert(r->Some_0@[i] is None);
            }
        }
    }
    r
}

/// Whether `label` is one of `labels`.
fn contains_label(labels: &Vec<String>, label: &String) -> (r: bool)
    ensures
        r == views_of(labels@).contains(label@),
{
    let mut i: usize = 0;
    while i < labels.len()
        invariant
            i <= labels.len(),
            forall|k: int| 0 <= k < i ==> views_of(labels@)[k] != label@,
        decreases labels.len() - i,
    {
        if labels[i] == *label {
            assert(views_of(labels@)[i as int] == label@);
            return true;
        }
        i = i + 1;
    }
    false
}

} // verus!
