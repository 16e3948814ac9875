//! A snapshot of the part of the registry that decides the load order:
//! keys with their values and subkeys, as plain data.
//!
//! Whoever reads a registry, live or from a hive file, fills such a
//! snapshot. A value holds what each of the typed readings of its data
//! gave, so that the library never decodes raw registry data itself. Names
//! are compared as the registry compares them, without regard to the case
//! of letters; the snapshot does so for ASCII letters.

use vstd::prelude::*;
use vstd::string::*;
use crate::text::same_ignoring_case;

verus! {

/// Why something was not read from the registry.
#[derive(Clone, Copy, Debug, PartialEq, Eq, Structural)]
pub enum RegistryError {
    /// There is no key of that name.
    KeyNotFound,
    /// There is no value of that name.
    ValueNotFound,
    /// The data of the value is not of the type asked for.
    WrongType,
}

/// A value of a key: its name, and its data as each typed reading gave it,
/// `None` where the data is not of that type.
pub struct RegistryKeyValue {
    pub name: String,
    pub dword: Option<u32>,
    pub sz: Option<String>,
    pub multi_sz: Option<Vec<String>>,
    pub binary: Option<Vec<u8>>,
}

/// A key: its name, its values and its subkeys, both in the order in which
/// the registry lists them.
pub struct RegistryKeyNode {
    pub name: String,
    pub values: Vec<RegistryKeyValue>,
    pub subkeys: Vec<RegistryKeyNode>,
}

/// The SYSTEM hive, or as much of it as was read.
pub struct RegistryHive {
    pub root: RegistryKeyNode,
}

/// The place of the first value of the given name, or the number of values
/// where there is none.
pub open spec fn value_place(values: Seq<RegistryKeyValue>, name: Seq<char>) -> int
    decreases values.len(),
{
    if values.len() == 0 {
        0
    } else if same_ignoring_case(values[0].name@, name) {
        0
    } else {
        1 + value_place(values.drop_first(), name)
    }
}

/// The place of the first key of the given name, or the number of keys
/// where there is none.
pub open spec fn key_place(keys: Seq<RegistryKeyNode>, name: Seq<char>) -> int
    decreases keys.len(),
{
    if keys.len() == 0 {
        0
    } else if same_ignoring_case(keys[0].name@, name) {
        0
    } else {
        1 + key_place(keys.drop_first(), name)
    }
}

/// The first value of the given name.
pub open spec fn found_value(values: Seq<RegistryKeyValue>, name: Seq<char>) -> Option<
    RegistryKeyValue,
> {
    if 0 <= value_place(values, name) < values.len() {
        Some(values[value_place(values, name)])
    } else {
        None
    }
}

/// The first key of the given name.
pub open spec fn found_key(keys: Seq<RegistryKeyNode>, name: Seq<char>) -> Option<RegistryKeyNode> {
    if 0 <= key_place(keys, name) < keys.len() {
        Some(keys[key_place(keys, name)])
    } else {
        None
    }
}

/// The end of the first component of a path: the place of its first
/// backslash, or its length where it has none.
pub open spec fn component_end(path: Seq<char>) -> int
    decreases path.len(),
{
    if path.len() == 0 || path[0] == '\\' {
        0
    } else {
        1 + component_end(path.drop_first())
    }
}

/// The key that a path leads to from a key. The components of the path are
/// separated by backslashes; empty components are passed over.
pub open spec fn key_at(key: RegistryKeyNode, path: Seq<char>) -> Option<RegistryKeyNode>
    decreases path.len(),
{
    if path.len() == 0 {
        Some(key)
    } else if path[0] == '\\' {
        key_at(key, path.drop_first())
    } else if 0 < component_end(path) <= path.len() {
        match found_key(key.subkeys@, path.take(component_end(path))) {
            Some(next) => key_at(next, path.skip(component_end(path))),
            None => None,
        }
    } else {
        None
    }
}

/// A place in front of which no value has the name, and at which one
/// has it or the values end, is the place of the name.
proof fn lemma_value_place(values: Seq<RegistryKeyValue>, name: Seq<char>, place: int)
    requires
        0 <= place <= values.len(),
        forall|j: int| 0 <= j < place ==> !same_ignoring_case((#[trigger] values[j]).name@, name),
        place < values.len() ==> same_ignoring_case(values[place].name@, name),
    ensures
        value_place(values, name) == place,
    decreases values.len(),
{
    if values.len() > 0 && !same_ignoring_case(values[0].name@, name) {
        let rest = values.drop_first();
        assert(place > 0);
        assert forall|j: int| 0 <= j < place - 1 implies !same_ignoring_case(
            (#[trigger] rest[j]).name@,
            name,
        ) by {
            assert(rest[j] == values[j + 1]);
        }
        if place - 1 < rest.len() {
            assert(rest[place - 1] == values[place]);
        }
        lemma_value_place(rest, name, place - 1);
    } else if values.len() > 0 {
        if place > 0 {
            assert(!same_ignoring_case(values[0].name@, name));
        }
    }
}

/// A place in front of which no key has the name, and at which one has
/// it or the keys end, is the place of the name.
proof fn lemma_key_place(keys: Seq<RegistryKeyNode>, name: Seq<char>, place: int)
    requires
        0 <= place <= keys.len(),
        forall|j: int| 0 <= j < place ==> !same_ignoring_case((#[trigger] keys[j]).name@, name),
        place < keys.len() ==> same_ignoring_case(keys[place].name@, name),
    ensures
        key_place(keys, name) == place,
    decreases keys.len(),
{
    if keys.len() > 0 && !same_ignoring_case(keys[0].name@, name) {
        let rest = keys.drop_first();
        assert(place > 0);
        assert forall|j: int| 0 <= j < place - 1 implies !same_ignoring_case(
            (#[trigger] rest[j]).name@,
            name,
        ) by {
            assert(rest[j] == keys[j + 1]);
        }
        if place - 1 < rest.len() {
            assert(rest[place - 1] == keys[place]);
        }
        lemma_key_place(rest, name, place - 1);
    } else if keys.len() > 0 {
        if place > 0 {
            assert(!same_ignoring_case(keys[0].name@, name));
        }
    }
}

/// A place in front of which no backslash stands, and at which one
/// stands or the path ends, is the end of the first component.
proof fn lemma_component_end(path: Seq<char>, end: int)
    requires
        0 <= end <= path.len(),
        forall|j: int| 0 <= j < end ==> path[j] != '\\',
        end < path.len() ==> path[end] == '\\',
    ensures
        component_end(path) == end,
    decreases path.len(),
{
    if path.len() > 0 && path[0] != '\\' {
        let rest = path.drop_first();
        assert(end > 0);
        assert forall|j: int| 0 <= j < end - 1 implies rest[j] != '\\' by {
            assert(rest[j] == path[j + 1]);
        }
        if end - 1 < rest.len() {
            assert(rest[end - 1] == path[end]);
        }
        lemma_component_end(rest, end - 1);
    } else if path.len() > 0 {
        if end > 0 {
            assert(path[0] != '\\');
        }
    }
}

impl RegistryKeyValue {
    /// The name of the value.
    pub fn name(&self) -> (name: &str)
        ensures
            name@ == self.name@,
    {
        self.name.as_str()
    }

    /// The data as a number.
    pub fn dword_data(&self) -> (data: Result<u32, RegistryError>)
        ensures
            data == (match self.dword {
                Some(number) => Ok::<u32, RegistryError>(number),
                None => Err(RegistryError::WrongType),
            }),
    {
        match self.dword {
            Some(number) => Ok(number),
            None => Err(RegistryError::WrongType),
        }
    }

    /// The data as a string.
    pub fn sz_data(&self) -> (data: Result<&String, RegistryError>)
        ensures
            data == (match self.sz {
                Some(text) => Ok::<&String, RegistryError>(&text),
                None => Err(RegistryError::WrongType),
            }),
    {
        match &self.sz {
            Some(text) => Ok(text),
            None => Err(RegistryError::WrongType),
        }
    }

    /// The data as a list of strings.
    pub fn multi_sz_data(&self) -> (data: Result<&Vec<String>, RegistryError>)
        ensures
            data == (match self.multi_sz {
                Some(texts) => Ok::<&Vec<String>, RegistryError>(&texts),
                None => Err(RegistryError::WrongType),
            }),
    {
        match &self.multi_sz {
            Some(texts) => Ok(texts),
            None => Err(RegistryError::WrongType),
        }
    }

    /// The data as bytes.
    pub fn binary_data(&self) -> (data: Result<&Vec<u8>, RegistryError>)
        ensures
            data == (match self.binary {
                Some(bytes) => Ok::<&Vec<u8>, RegistryError>(&bytes),
                None => Err(RegistryError::WrongType),
            }),
    {
        match &self.binary {
            Some(bytes) => Ok(bytes),
            None => Err(RegistryError::WrongType),
        }
    }
}

impl RegistryKeyNode {
    /// The name of the key.
    pub fn name(&self) -> (name: &str)
        ensures
            name@ == self.name@,
    {
        self.name.as_str()
    }

    /// The subkey of the given name.
    pub fn subkey(&self, name: &str) -> (key: Result<&RegistryKeyNode, RegistryError>)
        ensures
            key == (match found_key(self.subkeys@, name@) {
                Some(found) => Ok::<&RegistryKeyNode, RegistryError>(&found),
                None => Err(RegistryError::KeyNotFound),
            }),
    {
        let mut i: usize = 0;
        while i < self.subkeys.len()
            invariant
                i <= self.subkeys.len(),
                forall|j: int|
                    0 <= j < i ==> !same_ignoring_case((#[trigger] self.subkeys@[j]).name@, name@),
            decreases self.subkeys.len() - i,
        {
            if self.subkeys[i].name.as_str().eq_ignore_ascii_case(name) {
                proof {
                    lemma_key_place(self.subkeys@, name@, i as int);
                }
                return Ok(&self.subkeys[i]);
            }
            i += 1;
        }
        proof {
            lemma_key_place(self.subkeys@, name@, i as int);
        }
        Err(RegistryError::KeyNotFound)
    }

    /// The subkeys, in the order in which the registry lists them.
    pub fn subkeys(&self) -> (keys: &Vec<RegistryKeyNode>)
        ensures
            keys@ == self.subkeys@,
    {
        &self.subkeys
    }

    /// The value of the given name.
    pub fn value(&self, name: &str) -> (value: Result<&RegistryKeyValue, RegistryError>)
        ensures
            value == (match found_value(self.values@, name@) {
                Some(found) => Ok::<&RegistryKeyValue, RegistryError>(&found),
                None => Err(RegistryError::ValueNotFound),
            }),
    {
        let mut i: usize = 0;
        while i < self.values.len()
            invariant
                i <= self.values.len(),
                forall|j: int|
                    0 <= j < i ==> !same_ignoring_case((#[trigger] self.values@[j]).name@, name@),
            decreases self.values.len() - i,
        {
            if self.values[i].name.as_str().eq_ignore_ascii_case(name) {
                proof {
                    lemma_value_place(self.values@, name@, i as int);
                }
                return Ok(&self.values[i]);
            }
            i += 1;
        }
        proof {
            lemma_value_place(self.values@, name@, i as int);
        }
        Err(RegistryError::ValueNotFound)
    }

    /// The values, in the order in which the registry lists them.
    pub fn values(&self) -> (values: &Vec<RegistryKeyValue>)
        ensures
            values@ == self.values@,
    {
        &self.values
    }
}

impl RegistryHive {
    /// The key that a path leads to from the root of the hive.
    pub fn key_node(&self, path: &str) -> (key: Result<&RegistryKeyNode, RegistryError>)
        ensures
            key == (match key_at(self.root, path@) {
                Some(found) => Ok::<&RegistryKeyNode, RegistryError>(&found),
                None => Err(RegistryError::KeyNotFound),
            }),
    {
        let n = path.unicode_len();
        let mut key = &self.root;
        let mut from: usize = 0;
        proof {
            assert(path@.skip(0) =~= path@);
        }
        while from < n
            invariant
                n == path@.len(),
                from <= n,
                key_at(self.root, path@) == key_at(*key, path@.skip(from as int)),
            decreases n - from,
        {
            let ghost rest = path@.skip(from as int);
            if path.get_char(from) == '\\' {
                proof {
                    assert(rest[0] == path@[from as int]);
                    assert(rest.drop_first() =~= path@.skip(from + 1));
                }
                from += 1;
            } else {
                let mut end = from + 1;
                while end < n && path.get_char(end) != '\\'
                    invariant
                        n == path@.len(),
                        from < end <= n,
                        forall|j: int| from <= j < end ==> path@[j] != '\\',
                    decreases n - end,
                {
                    end += 1;
                }
                let component = path.substring_char(from, end);
                proof {
                    assert(rest[0] == path@[from as int]);
                    assert forall|j: int| 0 <= j < end - from implies rest[j] != '\\' by {
                        assert(rest[j] == path@[from + j]);
                    }
                    if end - from < rest.len() {
                        assert(rest[end - from] == path@[end as int]);
                    }
                    lemma_component_end(rest, end - from);
                    assert(rest.take(end - from) =~= component@);
                    assert(rest.skip(end - from) =~= path@.skip(end as int));
                }
                match key.subkey(component) {
                    Ok(next) => {
                        key = next;
                    },
                    Err(error) => {
                        return Err(RegistryError::KeyNotFound);
                    },
                }
                from = end;
            }
        }
        proof {
            assert(path@.skip(from as int).len() == 0);
        }
        Ok(key)
    }
}

} // verus!
