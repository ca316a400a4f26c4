//! The fields read from one page: each label with its number, no label
//! twice.

use vstd::prelude::*;
use crate::numeric::Decimal;

verus! {

/// One label with its number.
#[derive(Debug)]
struct Field {
    label: String,
    value: Decimal,
}

/// The map that a list of fields stands for; a later field replaces an
/// earlier one of the same label.
spec fn fields_map(fields: Seq<Field>) -> Map<Seq<char>, Seq<char>>
    decreases fields.len(),
{
    if fields.len() == 0 {
        Map::empty()
    } else {
        fields_map(fields.drop_last()).insert(fields.last().label@, fields.last().value@)
    }
}

/// Whether no label occurs twice.
spec fn distinct_labels(fields: Seq<Field>) -> bool {
    forall|i: int, j: int|
        0 <= i < j < fields.len() ==> (#[trigger] fields[i]).label@ != (#[trigger] fields[j]).label@
}

proof fn lemma_fields_map_keys(fields: Seq<Field>)
    ensures
        forall|key: Seq<char>| #[trigger]
            fields_map(fields).contains_key(key) <==> exists|i: int|
                0 <= i < fields.len() && (#[trigger] fields[i]).label@ == key,
        fields_map(fields).dom().finite(),
    decreases fields.len(),
{
    if fields.len() > 0 {
        let front = fields.drop_last();
        lemma_fields_map_keys(front);
        assert forall|key: Seq<char>| #[trigger]
            fields_map(fields).contains_key(key) <==> exists|i: int|
                0 <= i < fields.len() && (#[trigger] fields[i]).label@ == key by {
            if fields_map(fields).contains_key(key) {
                if key == fields.last().label@ {
                    assert(fields[fields.len() - 1].label@ == key);
                } else {
                    let i = choose|i: int| 0 <= i < front.len() && (#[trigger] front[i]).label@ == key;
                    assert(fields[i].label@ == key);
                }
            }
            if exists|i: int| 0 <= i < fields.len() && (#[trigger] fields[i]).label@ == key {
                let i = choose|i: int| 0 <= i < fields.len() && (#[trigger] fields[i]).label@ == key;
                if i < front.len() {
                    assert(front[i].label@ == key);
                }
            }
        }
    }
}

proof fn lemma_fields_map_value(fields: Seq<Field>, at: int)
    requires
        distinct_labels(fields),
        0 <= at < fields.len(),
    ensures
        fields_map(fields).contains_key(fields[at].label@),
        fields_map(fields)[fields[at].label@] == fields[at].value@,
    decreases fields.len(),
{
    let front = fields.drop_last();
    if at < fields.len() - 1 {
        assert(distinct_labels(front)) by {
            assert forall|i: int, j: int| 0 <= i < j < front.len() implies (#[trigger] front[i]).label@
                != (#[trigger] front[j]).label@ by {
                assert(fields[i].label@ != fields[j].label@);
            }
        }
        lemma_fields_map_value(front, at);
        assert(fields[at].label@ != fields[fields.len() - 1].label@);
    }
}

proof fn lemma_fields_map_len(fields: Seq<Field>)
    requires
        distinct_labels(fields),
    ensures
        fields_map(fields).dom().finite(),
        fields_map(fields).len() == fields.len(),
    decreases fields.len(),
{
    lemma_fields_map_keys(fields);
    if fields.len() > 0 {
        let front = fields.drop_last();
        assert(distinct_labels(front)) by {
            assert forall|i: int, j: int| 0 <= i < j < front.len() implies (#[trigger] front[i]).label@
                != (#[trigger] front[j]).label@ by {
                assert(fields[i].label@ != fields[j].label@);
            }
        }
        lemma_fields_map_len(front);
        lemma_fields_map_keys(front);
        let key = fields.last().label@;
        if fields_map(front).contains_key(key) {
            let i = choose|i: int| 0 <= i < front.len() && (#[trigger] front[i]).label@ == key;
            assert(fields[i].label@ != fields[fields.len() - 1].label@);
        }
        assert(fields_map(fields).dom() =~= fields_map(front).dom().insert(key));
    }
}

proof fn lemma_fields_map_update(fields: Seq<Field>, at: int, field: Field)
    requires
        distinct_labels(fields),
        0 <= at < fields.len(),
        field.label@ == fields[at].label@,
    ensures
        distinct_labels(fields.update(at, field)),
        fields_map(fields.update(at, field)) == fields_map(fields).insert(
            field.label@,
            field.value@,
        ),
    decreases fields.len(),
{
    let changed = fields.update(at, field);
    assert(distinct_labels(changed)) by {
        assert forall|i: int, j: int| 0 <= i < j < changed.len() implies (#[trigger] changed[i]).label@
            != (#[trigger] changed[j]).label@ by {
            assert(fields[i].label@ != fields[j].label@);
        }
    }
    let front = fields.drop_last();
    if at == fields.len() - 1 {
        assert(changed.drop_last() =~= front);
        assert(fields_map(changed) =~= fields_map(fields).insert(field.label@, field.value@));
    } else {
        assert(distinct_labels(front)) by {
            assert forall|i: int, j: int| 0 <= i < j < front.len() implies (#[trigger] front[i]).label@
                != (#[trigger] front[j]).label@ by {
                assert(fields[i].label@ != fields[j].label@);
            }
        }
        lemma_fields_map_update(front, at, field);
        assert(changed.drop_last() =~= front.update(at, field));
        assert(changed.last() == fields.last());
        assert(fields[at].label@ != fields[fields.len() - 1].label@);
        assert(fields_map(changed) =~= fields_map(fields).insert(field.label@, field.value@));
    }
}

/// The fields of one page, by label.
#[derive(Debug)]
pub struct RawFieldMap {
    fields: Vec<Field>,
}

impl View for RawFieldMap {
    type V = Map<Seq<char>, Seq<char>>;

    closed spec fn view(&self) -> Map<Seq<char>, Seq<char>> {
        fields_map(self.fields@)
    }
}

impl RawFieldMap {
    #[verifier::type_invariant]
    spec fn well_formed(&self) -> bool {
        distinct_labels(self.fields@)
    }

    pub fn new() -> (map: Self)
        ensures
            map@ == Map::<Seq<char>, Seq<char>>::empty(),
    {
        RawFieldMap { fields: Vec::new() }
    }

    /// How many labels the map holds.
    pub fn len(&self) -> (count: usize)
        ensures
            self@.dom().finite(),
            count == self@.len(),
    {
        proof {
            use_type_invariant(self);
            lemma_fields_map_len(self.fields@);
        }
        self.fields.len()
    }

    /// Where the field of a label stands, if the map holds the label.
    fn position(&self, label: &String) -> (found: Option<usize>)
        ensures
            match found {
                Some(at) => at < self.fields.len() && self.fields[at as int].label@ == label@,
                None => forall|i: int|
                    0 <= i < self.fields.len() ==> (#[trigger] self.fields[i]).label@ != label@,
            },
    {
        let mut at: usize = 0;
        while at < self.fields.len()
            invariant
                at <= self.fields.len(),
                forall|i: int| 0 <= i < at ==> (#[trigger] self.fields[i]).label@ != label@,
            decreases self.fields.len() - at,
        {
            if self.fields[at].label == *label {
                return Some(at);
            }
            at += 1;
        }
        None
    }

    /// The number of a label, if the map holds the label.
    pub fn get(&self, label: &str) -> (found: Option<&Decimal>)
        ensures
            match found {
                Some(value) => self@.contains_key(label@) && self@[label@] == value@,
                None => !self@.contains_key(label@),
            },
    {
        proof {
            use_type_invariant(self);
            lemma_fields_map_keys(self.fields@);
        }
        let key = label.to_owned();
        match self.position(&key) {
            Some(at) => {
                proof {
                    lemma_fields_map_value(self.fields@, at as int);
                }
                Some(&self.fields[at].value)
            },
            None => None,
        }
    }

    /// Gives a label its number, in place of the one it had.
    pub fn insert(&mut self, label: String, value: Decimal)
        ensures
            final(self)@ == old(self)@.insert(label@, value@),
    {
        proof {
            use_type_invariant(&*self);
        }
        let found = self.position(&label);
        let mut fields: Vec<Field> = Vec::new();
        core::mem::swap(&mut fields, &mut self.fields);
        match found {
            Some(at) => {
                proof {
                    lemma_fields_map_update(fields@, at as int, Field { label, value });
                }
                fields.set(at, Field { label, value });
            },
            None => {
                proof {
                    assert(fields@.push(Field { label, value }).drop_last() =~= fields@);
                }
                fields.push(Field { label, value });
            },
        }
        core::mem::swap(&mut fields, &mut self.fields);
    }
}

} // verus!
