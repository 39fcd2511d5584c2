//! The environment projection: the join of the records that the vault
//! returned with the identifier map, as a map from names to values.
//!
//! A record whose identifier was not asked for is dropped without notice.
//! Where two records end up under one name, the later record wins.

use crate::identifier::SecretId;
use crate::mapping::IdentifierMap;
use vstd::prelude::*;

verus! {

/// One secret as the vault returns it.
#[derive(Debug, PartialEq, Eq)]
pub struct SecretRecord {
    pub id: SecretId,
    pub value: String,
}

/// A [`SecretRecord`] with its value as a sequence of characters.
pub struct SecretRecordView {
    pub id: u128,
    pub value: Seq<char>,
}

impl View for SecretRecord {
    type V = SecretRecordView;

    open spec fn view(&self) -> SecretRecordView {
        SecretRecordView { id: self.id.value, value: self.value@ }
    }
}

/// The records as the contracts see them.
pub open spec fn record_views(records: Seq<SecretRecord>) -> Seq<SecretRecordView> {
    records.map_values(|record: SecretRecord| record@)
}

/// The map from names to values that `records` give under `names`.
pub open spec fn project(records: Seq<SecretRecordView>, names: Map<u128, Seq<char>>) -> Map<
    Seq<char>,
    Seq<char>,
>
    decreases records.len(),
{
    if records.len() == 0 {
        Map::empty()
    } else {
        let earlier = project(records.drop_last(), names);
        let record = records.last();
        if names.contains_key(record.id) {
            earlier.insert(names[record.id], record.value)
        } else {
            earlier
        }
    }
}

/// The map that a list of pairs stands for, a later pair replacing an
/// earlier one of the same name.
pub open spec fn pairs_to_map(pairs: Seq<(String, String)>) -> Map<Seq<char>, Seq<char>>
    decreases pairs.len(),
{
    if pairs.len() == 0 {
        Map::empty()
    } else {
        pairs_to_map(pairs.drop_last()).insert(pairs.last().0@, pairs.last().1@)
    }
}

/// Whether no two pairs have the same name.
pub open spec fn names_are_distinct(pairs: Seq<(String, String)>) -> bool {
    forall|i: int, j: int|
        0 <= i < j < pairs.len() ==> (#[trigger] pairs[i]).0@ != (#[trigger] pairs[j]).0@
}

/// Replacing the value of a name that a list of distinct names holds
/// changes the map at that name alone.
proof fn lemma_update_is_insert(
    pairs: Seq<(String, String)>,
    at: int,
    name: String,
    value: String,
)
    requires
        names_are_distinct(pairs),
        0 <= at < pairs.len(),
        pairs[at].0@ == name@,
    ensures
        pairs_to_map(pairs.update(at, (name, value))) == pairs_to_map(pairs).insert(
            name@,
            value@,
        ),
        names_are_distinct(pairs.update(at, (name, value))),
    decreases pairs.len(),
{
    let updated = pairs.update(at, (name, value));
    if at == pairs.len() - 1 {
        assert(updated.drop_last() =~= pairs.drop_last());
        assert(pairs_to_map(updated) =~= pairs_to_map(pairs).insert(name@, value@));
    } else {
        let shorter = pairs.drop_last();
        assert(names_are_distinct(shorter));
        lemma_update_is_insert(shorter, at, name, value);
        assert(updated.drop_last() =~= shorter.update(at, (name, value)));
        assert(updated.last() == pairs.last());
        assert(pairs[at].0@ != pairs[pairs.len() - 1].0@);
        assert(pairs_to_map(updated) =~= pairs_to_map(pairs).insert(name@, value@));
    }
}

/// A list of distinct names stands for a map with one entry for each pair.
proof fn lemma_pairs_are_entries(pairs: Seq<(String, String)>)
    requires
        names_are_distinct(pairs),
    ensures
        pairs_to_map(pairs).dom().finite(),
        pairs_to_map(pairs).len() == pairs.len(),
        forall|i: int|
            0 <= i < pairs.len() ==> pairs_to_map(pairs).contains_pair(
                (#[trigger] pairs[i]).0@,
                pairs[i].1@,
            ),
        forall|name: Seq<char>| #[trigger]
            pairs_to_map(pairs).contains_key(name) ==> exists|i: int|
                0 <= i < pairs.len() && (#[trigger] pairs[i]).0@ == name,
    decreases pairs.len(),
{
    if pairs.len() > 0 {
        let shorter = pairs.drop_last();
        let last = pairs.len() - 1;
        assert(names_are_distinct(shorter));
        lemma_pairs_are_entries(shorter);
        if pairs_to_map(shorter).contains_key(pairs.last().0@) {
            let i = choose|i: int|
                0 <= i < shorter.len() && (#[trigger] shorter[i]).0@ == pairs.last().0@;
            assert(pairs[i].0@ != pairs[last].0@);
        }
        assert forall|i: int| 0 <= i < pairs.len() implies pairs_to_map(pairs).contains_pair(
            (#[trigger] pairs[i]).0@,
            pairs[i].1@,
        ) by {
            if i < last {
                assert(shorter[i] == pairs[i]);
                assert(pairs[i].0@ != pairs[last].0@);
                assert(pairs_to_map(shorter).contains_pair(shorter[i].0@, shorter[i].1@));
            }
        }
        assert forall|name: Seq<char>| #[trigger]
            pairs_to_map(pairs).contains_key(name) implies exists|i: int|
            0 <= i < pairs.len() && (#[trigger] pairs[i]).0@ == name by {
            if name == pairs.last().0@ {
                assert(pairs[last].0@ == name);
            } else {
                assert(pairs_to_map(shorter).contains_key(name));
                let i = choose|i: int| 0 <= i < shorter.len() && (#[trigger] shorter[i]).0@ == name;
                assert(pairs[i].0@ == name);
            }
        }
    }
}

/// A map from names to secret values. A name has one value: a value given
/// later replaces the one given before.
///
/// The view is the map from the names to the values, both as sequences of
/// characters.
#[derive(Debug)]
pub struct EnvProjection {
    entries: Vec<(String, String)>,
}

impl View for EnvProjection {
    type V = Map<Seq<char>, Seq<char>>;

    closed spec fn view(&self) -> Map<Seq<char>, Seq<char>> {
        pairs_to_map(self.entries@)
    }
}

impl EnvProjection {
    #[verifier::type_invariant]
    spec fn well_formed(self) -> bool {
        names_are_distinct(self.entries@)
    }

    /// The entries as pairs of name and value, in the order in which the
    /// names were first given.
    pub closed spec fn listing(&self) -> Seq<(String, String)> {
        self.entries@
    }

    /// A projection without entries.
    pub fn new() -> (r: EnvProjection)
        ensures
            r@ == Map::<Seq<char>, Seq<char>>::empty(),
    {
        EnvProjection { entries: Vec::new() }
    }

    /// Gives `name` the value `value`.
    pub fn insert(&mut self, name: String, value: String)
        ensures
            final(self)@ == old(self)@.insert(name@, value@),
    {
        let mut current = EnvProjection::new();
        core::mem::swap(self, &mut current);
        proof {
            use_type_invariant(&current);
        }
        let mut entries = current.entries;
        let ghost before = entries@;
        let n: usize = entries.len();
        let mut at: usize = 0;
        while at < n
            invariant
                at <= n,
                n == entries@.len(),
                entries@ == before,
                names_are_distinct(before),
                pairs_to_map(before) == old(self)@,
                forall|i: int| 0 <= i < at ==> (#[trigger] before[i]).0@ != name@,
            decreases n - at,
        {
            if entries[at].0 == name {
                proof {
                    lemma_update_is_insert(before, at as int, name, value);
                }
                entries[at] = (name, value);
                *self = EnvProjection { entries };
                return ;
            }
            at = at + 1;
        }
        entries.push((name, value));
        proof {
            assert(entries@.drop_last() =~= before);
            assert forall|i: int, j: int| 0 <= i < j < entries@.len() implies (
            #[trigger] entries@[i]).0@ != (#[trigger] entries@[j]).0@ by {
                if j < n {
                    assert(before[i].0@ != before[j].0@);
                }
            }
        }
        *self = EnvProjection { entries };
    }

    /// The value of `name`, if it has one.
    pub fn get(&self, name: &str) -> (r: Option<&String>)
        ensures
            match r {
                Some(value) => self@.contains_key(name@) && value@ == self@[name@],
                None => !self@.contains_key(name@),
            },
    {
        proof {
            use_type_invariant(self);
        }
        let wanted = String::from_str(name);
        let n: usize = self.entries.len();
        let mut at: usize = 0;
        while at < n
            invariant
                at <= n,
                n == self.entries@.len(),
                wanted@ == name@,
                names_are_distinct(self.entries@),
                forall|i: int| 0 <= i < at ==> (#[trigger] self.entries@[i]).0@ != name@,
            decreases n - at,
        {
            if self.entries[at].0 == wanted {
                proof {
                    lemma_pairs_are_entries(self.entries@);
                }
                return Some(&self.entries[at].1);
            }
            at = at + 1;
        }
        proof {
            lemma_pairs_are_entries(self.entries@);
        }
        None
    }

    /// The number of names.
    pub fn len(&self) -> (r: usize)
        ensures
            r == self@.len(),
    {
        proof {
            use_type_invariant(self);
            lemma_pairs_are_entries(self.entries@);
        }
        self.entries.len()
    }

    /// Whether there is no name.
    pub fn is_empty(&self) -> (r: bool)
        ensures
            r == (self@.len() == 0),
    {
        self.len() == 0
    }

    /// The entries as pairs of name and value, each name once, in the order
    /// in which the names were first given.
    pub fn entries(&self) -> (r: &Vec<(String, String)>)
        ensures
            r@ == self.listing(),
            names_are_distinct(r@),
            pairs_to_map(r@) == self@,
            r@.len() == self@.len(),
            forall|i: int|
                0 <= i < r@.len() ==> self@.contains_pair((#[trigger] r@[i]).0@, r@[i].1@),
            forall|name: Seq<char>| #[trigger]
                self@.contains_key(name) ==> exists|i: int|
                    0 <= i < r@.len() && (#[trigger] r@[i]).0@ == name,
    {
        proof {
            use_type_invariant(self);
            lemma_pairs_are_entries(self.entries@);
        }
        &self.entries
    }
}

/// Joins the records with the identifier map.
///
/// A record whose identifier has a name in the map gives that name the
/// record's value; any other record is dropped. Of two records that come
/// under one name, the later one in `secrets_data` gives the value. The
/// function does not fail: no record, or none that was asked for, gives the
/// empty projection.
pub fn prepare_secret_env_vars(
    secrets_data: &[SecretRecord],
    id_to_name_map: &IdentifierMap,
) -> (r: EnvProjection)
    ensures
        r@ == project(record_views(secrets_data@), id_to_name_map@),
{
    let ghost records = record_views(secrets_data@);
    let n: usize = secrets_data.len();
    let mut env = EnvProjection::new();
    let mut at: usize = 0;
    assert(records.take(0) =~= Seq::<SecretRecordView>::empty());
    while at < n
        invariant
            at <= n,
            n == secrets_data@.len(),
            records == record_views(secrets_data@),
            env@ == project(records.take(at as int), id_to_name_map@),
        decreases n - at,
    {
        let record = &secrets_data[at];
        proof {
            assert(records.take(at + 1).drop_last() =~= records.take(at as int));
            assert(records.take(at + 1).last() == record@);
        }
        match id_to_name_map.get(&record.id) {
            Some(name) => {
                env.insert(name.clone(), record.value.clone());
            },
            None => {},
        }
        at = at + 1;
    }
    assert(records.take(n as int) =~= records);
    env
}

/// Whether record `i` was asked for and comes under `name`.
pub open spec fn record_gives(
    records: Seq<SecretRecordView>,
    names: Map<u128, Seq<char>>,
    i: int,
    name: Seq<char>,
) -> bool {
    &&& 0 <= i < records.len()
    &&& names.contains_key(records[i].id)
    &&& names[records[i].id] == name
}

/// Whether record `i` is for the identifier `id`.
pub open spec fn record_is_for(records: Seq<SecretRecordView>, i: int, id: u128) -> bool {
    0 <= i < records.len() && records[i].id == id
}

/// The projection has a name exactly if some record that was asked for
/// comes under it, and the value is that of the last such record.
pub proof fn lemma_projection_entries(records: Seq<SecretRecordView>, names: Map<u128, Seq<char>>)
    ensures
        project(records, names).dom().finite(),
        forall|name: Seq<char>|
            project(records, names).contains_key(name) <==> exists|i: int|
                record_gives(records, names, i, name),
        forall|i: int, name: Seq<char>|
            {
                &&& #[trigger] record_gives(records, names, i, name)
                &&& forall|j: int| i < j < records.len() ==> !record_gives(records, names, j, name)
            } ==> project(records, names)[name] == records[i].value,
    decreases records.len(),
{
    if records.len() > 0 {
        let before = records.drop_last();
        let last = records.len() - 1;
        lemma_projection_entries(before, names);
        assert forall|name: Seq<char>|
            project(records, names).contains_key(name) <==> exists|i: int|
                record_gives(records, names, i, name) by {
            if project(records, names).contains_key(name) {
                if record_gives(records, names, last, name) {
                } else {
                    assert(project(before, names).contains_key(name));
                    let i = choose|i: int| record_gives(before, names, i, name);
                    assert(before[i] == records[i]);
                    assert(record_gives(records, names, i, name));
                }
            }
            if exists|i: int| record_gives(records, names, i, name) {
                let i = choose|i: int| record_gives(records, names, i, name);
                if i < last {
                    assert(before[i] == records[i]);
                    assert(record_gives(before, names, i, name));
                }
            }
        }
        assert forall|i: int, name: Seq<char>|
            {
                &&& #[trigger] record_gives(records, names, i, name)
                &&& forall|j: int| i < j < records.len() ==> !record_gives(records, names, j, name)
            } implies project(records, names)[name] == records[i].value by {
            if i < last {
                assert(before[i] == records[i]);
                assert(record_gives(before, names, i, name));
                assert(!record_gives(records, names, last, name));
                assert forall|j: int| i < j < before.len() implies !record_gives(
                    before,
                    names,
                    j,
                    name,
                ) by {
                    assert(before[j] == records[j]);
                    assert(!record_gives(records, names, j, name));
                }
            }
        }
    }
}

/// A record whose identifier was not asked for is excluded: the projection
/// is what it would be without that record.
pub proof fn lemma_unrequested_record_is_excluded(
    records: Seq<SecretRecordView>,
    names: Map<u128, Seq<char>>,
    i: int,
)
    requires
        0 <= i < records.len(),
        !names.contains_key(records[i].id),
    ensures
        project(records, names) == project(records.remove(i), names),
    decreases records.len(),
{
    let last = records.len() - 1;
    if i == last {
        assert(records.remove(i) =~= records.drop_last());
    } else {
        lemma_unrequested_record_is_excluded(records.drop_last(), names, i);
        assert(records.remove(i).drop_last() =~= records.drop_last().remove(i));
        assert(records.remove(i).last() == records.last());
    }
}

/// Records of which none was asked for give the empty projection.
pub proof fn lemma_unrequested_records_give_nothing(
    records: Seq<SecretRecordView>,
    names: Map<u128, Seq<char>>,
)
    requires
        forall|i: int| 0 <= i < records.len() ==> !names.contains_key(#[trigger] records[i].id),
    ensures
        project(records, names) == Map::<Seq<char>, Seq<char>>::empty(),
    decreases records.len(),
{
    if records.len() > 0 {
        let before = records.drop_last();
        assert forall|i: int| 0 <= i < before.len() implies !names.contains_key(
            #[trigger] before[i].id,
        ) by {
            assert(before[i] == records[i]);
        }
        lemma_unrequested_records_give_nothing(before, names);
        assert(!names.contains_key(records[records.len() - 1].id));
    }
}

/// Every name of the projection is a name of the identifier map. Where
/// each identifier of the map has a record, the names of the projection are
/// all the names of the map.
pub proof fn lemma_projected_names_are_map_names(
    records: Seq<SecretRecordView>,
    names: Map<u128, Seq<char>>,
)
    ensures
        project(records, names).dom().subset_of(names.values()),
        (forall|id: u128| #[trigger]
            names.contains_key(id) ==> exists|i: int| record_is_for(records, i, id)) ==> project(
            records,
            names,
        ).dom() == names.values(),
{
    lemma_projection_entries(records, names);
    let projected = project(records, names);
    assert forall|name: Seq<char>| projected.dom().contains(name) implies names.values().contains(
        name,
    ) by {
        let i = choose|i: int| record_gives(records, names, i, name);
        assert(names.contains_key(records[i].id) && names[records[i].id] == name);
    }
    if forall|id: u128| #[trigger]
        names.contains_key(id) ==> exists|i: int| record_is_for(records, i, id) {
        assert forall|name: Seq<char>| names.values().contains(name) implies projected.dom().contains(
            name,
        ) by {
            let id = choose|id: u128| names.contains_key(id) && names[id] == name;
            assert(names.contains_key(id));
            let i = choose|i: int| record_is_for(records, i, id);
            assert(record_gives(records, names, i, name));
        }
        assert(projected.dom() =~= names.values());
    }
}

} // verus!
