//! Objects: mappings from text to values that are shared by reference.

use vstd::prelude::*;
use crate::value::{ObjectRef, Value, ValueView};
use crate::value::function::NativeFault;

verus! {

/// The objects of one run. A value refers to an object by an [`ObjectRef`];
/// every holder of the reference sees what any of them wrote.
pub struct ObjectStore {
    objects: Vec<Vec<(String, Value)>>,
}

/// The fields that `entries` hold: the value of a key is that of its last
/// entry.
pub open spec fn fields_of(entries: Seq<(String, Value)>) -> Map<Seq<char>, ValueView>
    decreases entries.len(),
{
    if entries.len() == 0 {
        Map::empty()
    } else {
        fields_of(entries.drop_last()).insert(entries.last().0@, entries.last().1@)
    }
}

/// The fields are those of the entries' keys.
proof fn lemma_fields_domain(entries: Seq<(String, Value)>, key: Seq<char>)
    ensures
        fields_of(entries).contains_key(key) <==> exists|i: int|
            0 <= i < entries.len() && (#[trigger] entries[i]).0@ == key,
    decreases entries.len(),
{
    if entries.len() > 0 {
        lemma_fields_domain(entries.drop_last(), key);
        if fields_of(entries).contains_key(key) {
            if entries.last().0@ == key {
                assert(entries[entries.len() - 1].0@ == key);
            } else {
                let i = choose|i: int|
                    0 <= i < entries.drop_last().len() && (#[trigger] entries.drop_last()[i]).0@
                        == key;
                assert(entries[i].0@ == key);
            }
        }
        if exists|i: int| 0 <= i < entries.len() && (#[trigger] entries[i]).0@ == key {
            let i = choose|i: int| 0 <= i < entries.len() && (#[trigger] entries[i]).0@ == key;
            if i < entries.len() - 1 {
                assert(entries.drop_last()[i].0@ == key);
            }
        }
    }
}

/// Whether the entry at `i` is the last entry of its key.
spec fn last_of_key(entries: Seq<(String, Value)>, i: int) -> bool {
    &&& 0 <= i < entries.len()
    &&& forall|j: int| i < j < entries.len() ==> (#[trigger] entries[j]).0@ != entries[i].0@
}

/// The value of a key is that of its last entry.
proof fn lemma_fields_at(entries: Seq<(String, Value)>, i: int)
    requires
        last_of_key(entries, i),
    ensures
        fields_of(entries).contains_key(entries[i].0@),
        fields_of(entries)[entries[i].0@] == entries[i].1@,
    decreases entries.len(),
{
    if i < entries.len() - 1 {
        assert(entries[entries.len() - 1].0@ != entries[i].0@);
        assert(last_of_key(entries.drop_last(), i)) by {
            assert forall|j: int| i < j < entries.drop_last().len() implies (
            #[trigger] entries.drop_last()[j]).0@ != entries.drop_last()[i].0@ by {
                assert(entries[j].0@ != entries[i].0@);
            }
        }
        lemma_fields_at(entries.drop_last(), i);
        assert(entries.drop_last()[i] == entries[i]);
    }
}

/// Replacing the value of the last entry of a key replaces the value of the
/// key.
proof fn lemma_fields_replaced(entries: Seq<(String, Value)>, i: int, entry: (String, Value))
    requires
        last_of_key(entries, i),
        entry.0@ == entries[i].0@,
    ensures
        fields_of(entries.update(i, entry)) == fields_of(entries).insert(entry.0@, entry.1@),
    decreases entries.len(),
{
    let updated = entries.update(i, entry);
    if i == entries.len() - 1 {
        assert(updated.drop_last() == entries.drop_last());
        assert(fields_of(updated) =~= fields_of(entries).insert(entry.0@, entry.1@));
    } else {
        assert(entries[entries.len() - 1].0@ != entries[i].0@);
        assert(last_of_key(entries.drop_last(), i)) by {
            assert forall|j: int| i < j < entries.drop_last().len() implies (
            #[trigger] entries.drop_last()[j]).0@ != entries.drop_last()[i].0@ by {
                assert(entries[j].0@ != entries[i].0@);
            }
        }
        lemma_fields_replaced(entries.drop_last(), i, entry);
        assert(updated.drop_last() == entries.drop_last().update(i, entry));
        assert(updated.last() == entries.last());
        assert(fields_of(updated) =~= fields_of(entries).insert(entry.0@, entry.1@));
    }
}

impl View for ObjectStore {
    type V = Seq<Map<Seq<char>, ValueView>>;

    /// The fields of each object, under the number of its reference.
    closed spec fn view(&self) -> Seq<Map<Seq<char>, ValueView>> {
        Seq::new(self.objects@.len(), |i: int| fields_of(self.objects@[i]@))
    }
}

impl ObjectStore {
    /// A store without objects.
    pub fn new() -> (store: Self)
        ensures
            store@ == Seq::<Map<Seq<char>, ValueView>>::empty(),
    {
        ObjectStore { objects: Vec::new() }
    }

    /// Makes a new object without fields and returns the reference to it.
    /// The objects there were stay as they are. Returns `None`, and makes
    /// nothing, where no reference is left.
    pub fn create(&mut self) -> (object: Option<ObjectRef>)
        ensures
            match object {
                Some(object) => object.0 == old(self)@.len() && final(self)@ == old(self)@.push(
                    Map::empty(),
                ),
                None => old(self)@.len() > u64::MAX && final(self)@ == old(self)@,
            },
    {
        let n = self.objects.len();
        if n as u128 > u64::MAX as u128 {
            return None;
        }
        self.objects.push(Vec::new());
        assert(self@ == old(self)@.push(Map::empty()));
        Some(ObjectRef(n as u64))
    }

    /// The position of the last entry of `key` among `entries`.
    fn position(entries: &Vec<(String, Value)>, key: &String) -> (found: Option<usize>)
        ensures
            match found {
                Some(i) => last_of_key(entries@, i as int) && entries@[i as int].0@ == key@,
                None => forall|i: int| 0 <= i < entries@.len() ==> (#[trigger] entries@[i]).0@
                    != key@,
            },
    {
        let mut i: usize = entries.len();
        while i > 0
            invariant
                i <= entries.len(),
                forall|j: int| i <= j < entries@.len() ==> (#[trigger] entries@[j]).0@ != key@,
            decreases i,
        {
            i = i - 1;
            if entries[i].0 == *key {
                return Some(i);
            }
        }
        None
    }

    /// The value of the field `key` of `object`: `Some` of it where the object
    /// has the field, `None` where it has not. Fails where `object` refers to
    /// no object of this store.
    pub fn get(&self, object: ObjectRef, key: &String) -> (value: Result<
        Option<Value>,
        NativeFault,
    >)
        ensures
            match value {
                Err(fault) => object.0 >= self@.len() && fault == NativeFault::UnknownObject,
                Ok(held) => object.0 < self@.len() && (match held {
                    Some(value) => self@[object.0 as int].contains_key(key@)
                        && self@[object.0 as int][key@] == value@,
                    None => !self@[object.0 as int].contains_key(key@),
                }),
            },
    {
        if object.0 >= self.objects.len() as u64 {
            return Err(NativeFault::UnknownObject);
        }
        let entries = &self.objects[object.0 as usize];
        proof {
            lemma_fields_domain(entries@, key@);
        }
        match Self::position(entries, key) {
            Some(i) => {
                proof {
                    lemma_fields_at(entries@, i as int);
                }
                Ok(Some(entries[i].1.clone()))
            },
            None => Ok(None),
        }
    }

    /// Writes `value` to the field `key` of `object`; the other fields and the
    /// other objects stay as they are. Fails, and writes nothing, where
    /// `object` refers to no object of this store.
    pub fn set(&mut self, object: ObjectRef, key: String, value: Value) -> (written: Result<
        (),
        NativeFault,
    >)
        ensures
            match written {
                Ok(_) => object.0 < old(self)@.len() && final(self)@ == old(self)@.update(
                    object.0 as int,
                    old(self)@[object.0 as int].insert(key@, value@),
                ),
                Err(fault) => object.0 >= old(self)@.len() && fault == NativeFault::UnknownObject
                    && final(self)@ == old(self)@,
            },
    {
        if object.0 >= self.objects.len() as u64 {
            return Err(NativeFault::UnknownObject);
        }
        let at = object.0 as usize;
        let ghost before = self.objects@[at as int]@;
        match Self::position(&self.objects[at], &key) {
            Some(i) => {
                proof {
                    lemma_fields_replaced(before, i as int, (key, value));
                }
                self.objects[at][i] = (key, value);
            },
            None => {
                self.objects[at].push((key, value));
                assert(self.objects@[at as int]@.drop_last() == before);
            },
        }
        proof {
            assert forall|i: int| 0 <= i < self.objects@.len() && i != at implies self.objects@[i]
                == old(self).objects@[i] by {}
            assert(self@ =~= old(self)@.update(
                object.0 as int,
                old(self)@[object.0 as int].insert(key@, value@),
            ));
        }
        Ok(())
    }
}

} // verus!
