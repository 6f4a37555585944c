//! The seed file format: tables, their insert mode, and their rows.
use vstd::prelude::*;
use crate::numbers::decimal;
use crate::numbers::decimal_chars;
use crate::text::{chars_of, push_all, string_chars, string_from_chars};
use crate::yaml::YamlValue;

verus! {

/// How a table's rows are written.
#[derive(Debug, Clone, Copy, PartialEq, Eq, Structural)]
pub enum TableMode {
    /// Plain `INSERT`.
    Insert,
    /// `INSERT ... ON DUPLICATE KEY UPDATE`.
    UpsertUpdate,
}

impl TableMode {
    /// The mode of a table that names none: `UpsertUpdate`.
    pub fn default() -> (r: TableMode)
        ensures
            r == TableMode::UpsertUpdate,
    {
        TableMode::UpsertUpdate
    }
}

/// The order of keys in a row: lexicographic by code point, as `String`'s `Ord`.
pub open spec fn key_less(a: Seq<char>, b: Seq<char>) -> bool
    decreases a.len(),
{
    if a.len() == 0 {
        b.len() > 0
    } else if b.len() == 0 {
        false
    } else if a[0] != b[0] {
        (a[0] as u32) < (b[0] as u32)
    } else {
        key_less(a.drop_first(), b.drop_first())
    }
}

pub proof fn lemma_key_less_irreflexive(a: Seq<char>)
    ensures
        !key_less(a, a),
    decreases a.len(),
{
    if a.len() > 0 {
        lemma_key_less_irreflexive(a.drop_first());
    }
}

pub proof fn lemma_key_less_transitive(a: Seq<char>, b: Seq<char>, c: Seq<char>)
    requires
        key_less(a, b),
        key_less(b, c),
    ensures
        key_less(a, c),
    decreases a.len(),
{
    if a.len() > 0 && b.len() > 0 && c.len() > 0 && a[0] == b[0] && b[0] == c[0] {
        lemma_key_less_transitive(a.drop_first(), b.drop_first(), c.drop_first());
    }
}

/// Keys in strictly increasing order.
pub open spec fn keys_sorted(keys: Seq<Seq<char>>) -> bool {
    forall|i: int, j: int| 0 <= i < j < keys.len() ==> key_less(#[trigger] keys[i], #[trigger] keys[j])
}

/// The last position that holds a key, if any.
pub open spec fn key_index(keys: Seq<Seq<char>>, name: Seq<char>) -> Option<int>
    decreases keys.len(),
{
    if keys.len() == 0 {
        None
    } else if keys.last() == name {
        Some(keys.len() - 1)
    } else {
        key_index(keys.drop_last(), name)
    }
}

/// The value of a key in a row, given as its keys and values.
pub open spec fn row_lookup(keys: Seq<Seq<char>>, values: Seq<YamlValue>, name: Seq<char>) -> Option<YamlValue> {
    match key_index(keys, name) {
        Some(i) => Some(values[i]),
        None => None,
    }
}

pub proof fn lemma_key_index_none(keys: Seq<Seq<char>>, name: Seq<char>)
    requires
        forall|i: int| 0 <= i < keys.len() ==> keys[i] != name,
    ensures
        key_index(keys, name) is None,
    decreases keys.len(),
{
    if keys.len() > 0 {
        lemma_key_index_none(keys.drop_last(), name);
    }
}

/// In sorted keys, a key is found at the one position that holds it.
pub proof fn lemma_row_lookup_at(keys: Seq<Seq<char>>, values: Seq<YamlValue>, idx: int)
    requires
        keys_sorted(keys),
        0 <= idx < keys.len(),
    ensures
        key_index(keys, keys[idx]) == Some(idx),
        row_lookup(keys, values, keys[idx]) == Some(values[idx]),
    decreases keys.len(),
{
    if idx < keys.len() - 1 {
        assert(key_less(keys[idx], keys[keys.len() - 1]));
        lemma_key_less_irreflexive(keys[idx]);
        assert(keys_sorted(keys.drop_last()));
        lemma_row_lookup_at(keys.drop_last(), values, idx);
    }
}

/// A row lookup finds nothing exactly when no key is the name.
pub proof fn lemma_row_lookup_none(keys: Seq<Seq<char>>, values: Seq<YamlValue>, name: Seq<char>)
    ensures
        row_lookup(keys, values, name) is None <==> forall|i: int| 0 <= i < keys.len() ==> keys[i] != name,
    decreases keys.len(),
{
    if keys.len() > 0 {
        lemma_row_lookup_none(keys.drop_last(), values, name);
        if row_lookup(keys, values, name) is None {
            assert forall|i: int| 0 <= i < keys.len() implies keys[i] != name by {
                if i < keys.len() - 1 {
                    assert(keys.drop_last()[i] == keys[i]);
                }
            }
        } else {
            if keys.last() != name {
                let i = choose|i: int| 0 <= i < keys.drop_last().len() && keys.drop_last()[i] == name;
                assert(keys[i] == name);
            }
        }
    }
}

/// One row of a table: column names mapped to YAML values, in key order.
pub struct TableRow {
    entries: Vec<(String, YamlValue)>,
}

/// Whether the first key is before the second, in key order (as `String`'s `Ord`).
pub fn key_before(a: &Vec<char>, b: &Vec<char>) -> (r: bool)
    ensures
        r == key_less(a@, b@),
{
    let mut i: usize = 0;
    assert(a@.skip(0) =~= a@);
    assert(b@.skip(0) =~= b@);
    while i < a.len() && i < b.len() && a[i] == b[i]
        invariant
            i <= a.len(),
            i <= b.len(),
            key_less(a@, b@) == key_less(a@.skip(i as int), b@.skip(i as int)),
        decreases a.len() - i,
    {
        assert(a@.skip(i as int).drop_first() =~= a@.skip(i + 1));
        assert(b@.skip(i as int).drop_first() =~= b@.skip(i + 1));
        i = i + 1;
    }
    if i == a.len() {
        i < b.len()
    } else if i == b.len() {
        false
    } else {
        (a[i] as u32) < (b[i] as u32)
    }
}

impl TableRow {
    #[verifier::type_invariant]
    spec fn sorted(self) -> bool {
        keys_sorted(self.keys())
    }

    /// The column names of the row, in key order.
    pub closed spec fn keys(&self) -> Seq<Seq<char>> {
        self.entries@.map_values(|e: (String, YamlValue)| e.0@)
    }

    /// The values of the row, in the order of `keys`.
    pub closed spec fn values(&self) -> Seq<YamlValue> {
        self.entries@.map_values(|e: (String, YamlValue)| e.1)
    }

    /// The value of a column name in the row.
    pub open spec fn lookup(&self, name: Seq<char>) -> Option<YamlValue> {
        row_lookup(self.keys(), self.values(), name)
    }

    /// An empty row.
    pub fn new() -> (r: TableRow)
        ensures
            r.keys() == Seq::<Seq<char>>::empty(),
            r.values() == Seq::<YamlValue>::empty(),
    {
        let r = TableRow { entries: Vec::new() };
        assert(r.keys() =~= Seq::<Seq<char>>::empty());
        assert(r.values() =~= Seq::<YamlValue>::empty());
        r
    }

    /// The row of the given entries, when their keys are strictly increasing (as a
    /// `BTreeMap` yields them); `None` otherwise.
    pub fn from_entries(entries: Vec<(String, YamlValue)>) -> (r: Option<TableRow>)
        ensures
            keys_sorted(entries@.map_values(|e: (String, YamlValue)| e.0@)) <==> r is Some,
            r matches Some(row) ==> row.keys() == entries@.map_values(
                |e: (String, YamlValue)| e.0@,
            ) && row.values() == entries@.map_values(|e: (String, YamlValue)| e.1),
    {
        let ghost keys = entries@.map_values(|e: (String, YamlValue)| e.0@);
        let mut i: usize = 1;
        if entries.len() > 1 {
            while i < entries.len()
                invariant
                    1 <= i <= entries.len(),
                    keys == entries@.map_values(|e: (String, YamlValue)| e.0@),
                    keys_sorted(keys.take(i as int)),
                decreases entries.len() - i,
            {
                let a = string_chars(&entries[i - 1].0);
                let b = string_chars(&entries[i].0);
                if !key_before(&a, &b) {
                    assert(!keys_sorted(keys)) by {
                        assert(keys[i - 1] == a@ && keys[i as int] == b@);
                    }
                    return None;
                }
                assert(keys_sorted(keys.take(i + 1))) by {
                    assert forall|p: int, q: int|
                        0 <= p < q < i + 1 implies key_less(
                        #[trigger] keys.take(i + 1)[p],
                        #[trigger] keys.take(i + 1)[q],
                    ) by {
                        if q < i {
                            assert(keys.take(i as int)[p] == keys[p]);
                            assert(keys.take(i as int)[q] == keys[q]);
                        } else if p < i - 1 {
                            assert(keys.take(i as int)[p] == keys[p]);
                            assert(keys.take(i as int)[i - 1] == keys[i - 1]);
                            lemma_key_less_transitive(keys[p], keys[i - 1], keys[q]);
                        }
                    }
                }
                i = i + 1;
            }
            assert(keys.take(entries.len() as int) =~= keys);
        } else {
            assert(keys_sorted(keys));
        }
        Some(TableRow { entries })
    }

    /// The number of columns that the row gives values for.
    pub fn len(&self) -> (r: usize)
        ensures
            r == self.keys().len(),
            r == self.values().len(),
            keys_sorted(self.keys()),
    {
        proof {
            use_type_invariant(self);
        }
        self.entries.len()
    }

    /// The column name at a position of the key order.
    pub fn key_at(&self, i: usize) -> (r: &String)
        requires
            i < self.keys().len(),
        ensures
            r@ == self.keys()[i as int],
    {
        &self.entries[i].0
    }

    /// The value at a position of the key order.
    pub fn value_at(&self, i: usize) -> (r: &YamlValue)
        requires
            i < self.keys().len(),
        ensures
            *r == self.values()[i as int],
    {
        &self.entries[i].1
    }

    /// The value of a column name, if the row gives one.
    pub fn get(&self, name: &Vec<char>) -> (r: Option<&YamlValue>)
        ensures
            match r {
                Some(v) => self.lookup(name@) == Some(*v),
                None => self.lookup(name@) is None,
            },
    {
        proof {
            use_type_invariant(self);
        }
        let mut i: usize = 0;
        while i < self.entries.len()
            invariant
                i <= self.entries.len(),
                self.entries.len() == self.keys().len(),
                self.keys().len() == self.values().len(),
                keys_sorted(self.keys()),
                forall|j: int| 0 <= j < i ==> self.keys()[j] != name@,
            decreases self.entries.len() - i,
        {
            let k = string_chars(&self.entries[i].0);
            if crate::text::chars_equal(&k, name) {
                proof {
                    lemma_row_lookup_at(self.keys(), self.values(), i as int);
                }
                return Some(&self.entries[i].1);
            }
            i = i + 1;
        }
        proof {
            lemma_key_index_none(self.keys(), name@);
        }
        None
    }
}

/// The seeds of one table.
pub struct TableSeed {
    /// The table's `schema.table` name.
    pub name: String,
    /// How rows are written.
    pub mode: TableMode,
    /// The columns that an upsert updates; all columns of the row when absent.
    pub update_columns: Option<Vec<String>>,
    /// The rows.
    pub rows: Vec<TableRow>,
}

/// A seed file.
pub struct SeedFile {
    /// The format version; only 1 is supported.
    pub version: u8,
    /// The tables, in order.
    pub tables: Vec<TableSeed>,
}

/// The message for an unsupported version.
pub open spec fn unsupported_version_message(version: u8) -> Seq<char> {
    "unsupported seed file version: "@ + decimal(version as nat)
}

impl SeedFile {
    /// Accepts version 1 and refuses every other version with a message that names it.
    pub fn ensure_supported_version(&self) -> (r: Result<(), String>)
        ensures
            self.version == 1 <==> r is Ok,
            r matches Err(msg) ==> msg@ == unsupported_version_message(self.version),
    {
        if self.version != 1 {
            let mut v = chars_of("unsupported seed file version: ");
            push_all(&mut v, &decimal_chars(self.version as u64));
            return Err(string_from_chars(&v));
        }
        Ok(())
    }
}

} // verus!
