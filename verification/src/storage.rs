//! A model of the external key-value store, and the asset reader that
//! translates path lookups against it into byte readers.
//!
//! The store maps string keys to string values, with the operations the
//! external service offers: `get`, `set` and `remove`. The asset reader only
//! ever calls `get`; application code manages entries out-of-band through
//! `set` and `remove`.

use vstd::prelude::*;

verus! {

use vstd::map::*;
use vstd::utf8::encode_utf8;

use crate::value_reader::Value;
use crate::value_reader::ValueReader;

/// The one failure signal the asset reader surfaces: the requested path has
/// no entry, whatever the underlying cause (key absent, store unreachable,
/// or an operation the flat store does not support). It carries the
/// requested path.
#[derive(Clone, Debug, PartialEq, Eq)]
pub enum AssetReaderError {
    NotFound(String),
}

/// First-match lookup of `key` among `entries`.
spec fn lookup(entries: Seq<(String, String)>, key: Seq<char>) -> Option<Seq<char>>
    decreases entries.len(),
{
    if entries.len() == 0 {
        None
    } else if entries[0].0@ == key {
        Some(entries[0].1@)
    } else {
        lookup(entries.drop_first(), key)
    }
}

/// `entries` with every entry for `key` taken out, order otherwise kept.
spec fn remove_key(entries: Seq<(String, String)>, key: Seq<char>) -> Seq<(String, String)>
    decreases entries.len(),
{
    if entries.len() == 0 {
        Seq::empty()
    } else if entries[0].0@ == key {
        remove_key(entries.drop_first(), key)
    } else {
        seq![entries[0]] + remove_key(entries.drop_first(), key)
    }
}

proof fn lemma_lookup_remove_key(entries: Seq<(String, String)>, key: Seq<char>, k: Seq<char>)
    ensures
        lookup(remove_key(entries, key), k) == if k == key {
            None::<Seq<char>>
        } else {
            lookup(entries, k)
        },
    decreases entries.len(),
{
    if entries.len() > 0 {
        lemma_lookup_remove_key(entries.drop_first(), key, k);
        if entries[0].0@ != key {
            let rest = remove_key(entries.drop_first(), key);
            let whole = seq![entries[0]] + rest;
            assert(whole[0] == entries[0]);
            assert(whole.drop_first() =~= rest);
        }
    }
}

proof fn lemma_lookup_push(entries: Seq<(String, String)>, entry: (String, String), k: Seq<char>)
    ensures
        lookup(entries.push(entry), k) == if lookup(entries, k) is Some {
            lookup(entries, k)
        } else if entry.0@ == k {
            Some(entry.1@)
        } else {
            None::<Seq<char>>
        },
    decreases entries.len(),
{
    let pushed = entries.push(entry);
    assert(pushed.len() == entries.len() + 1);
    if entries.len() == 0 {
        assert(lookup(entries, k) is None);
        assert(pushed[0] == entry);
        assert(pushed.drop_first() =~= Seq::<(String, String)>::empty());
        assert(lookup(pushed.drop_first(), k) is None);
    } else {
        lemma_lookup_push(entries.drop_first(), entry, k);
        assert(pushed[0] == entries[0]);
        assert(pushed.drop_first() =~= entries.drop_first().push(entry));
    }
}

/// A key-value store of string entries: the model of the external
/// synchronous storage service the asset reader queries. Its mathematical
/// content is the map [`Store::contents`].
pub struct Store {
    entries: Vec<(String, String)>,
}

impl Store {
    /// The entries of the store, as a map from key to stored text.
    pub closed spec fn contents(self) -> Map<Seq<char>, Seq<char>> {
        Map::new(
            |k: Seq<char>| lookup(self.entries@, k) is Some,
            |k: Seq<char>| lookup(self.entries@, k)->Some_0,
        )
    }

    /// An empty store.
    pub fn new() -> (s: Store)
        ensures
            s.contents() == Map::<Seq<char>, Seq<char>>::empty(),
    {
        let s = Store { entries: Vec::new() };
        proof {
            assert(s.contents() =~= Map::<Seq<char>, Seq<char>>::empty());
        }
        s
    }

    /// Looks `key` up: the stored text, or `None` when the store has no
    /// entry for it.
    pub fn get(&self, key: &String) -> (r: Option<String>)
        ensures
            match r {
                Some(text) => self.contents().contains_key(key@) && text@ == self.contents()[key@],
                None => !self.contents().contains_key(key@),
            },
    {
        let n = self.entries.len();
        let mut i: usize = 0;
        proof {
            assert(self.entries@.skip(0) =~= self.entries@);
        }
        while i < n
            invariant
                i <= n,
                n == self.entries@.len(),
                lookup(self.entries@, key@) == lookup(self.entries@.skip(i as int), key@),
            decreases n - i,
        {
            proof {
                assert(self.entries@.skip(i as int)[0] == self.entries@[i as int]);
                assert(self.entries@.skip(i as int).drop_first() =~= self.entries@.skip(
                    i as int + 1,
                ));
            }
            if self.entries[i].0 == *key {
                return Some(self.entries[i].1.clone());
            }
            i += 1;
        }
        proof {
            assert(self.entries@.skip(n as int) =~= Seq::<(String, String)>::empty());
        }
        None
    }

    /// Stores `value` under `key`, replacing whatever entry the key had.
    pub fn set(&mut self, key: &String, value: &String)
        ensures
            final(self).contents() == old(self).contents().insert(key@, value@),
    {
        self.remove(key);
        let ghost mid = self.entries@;
        let ghost m_mid = self.contents();
        self.entries.push((key.clone(), value.clone()));
        proof {
            let m_new = self.contents();
            let m_goal = old(self).contents().insert(key@, value@);
            assert_maps_equal!(m_new, m_goal, k => {
                lemma_lookup_push(mid, (*key, *value), k);
                assert(m_mid.contains_key(k) == (lookup(mid, k) is Some));
                if k == key@ {
                    assert(!m_mid.contains_key(k));
                    assert(lookup(self.entries@, k) == Some(value@));
                } else {
                    if lookup(mid, k) is Some {
                        assert(m_mid[k] == lookup(mid, k)->Some_0);
                        assert(old(self).contents()[k] == m_mid[k]);
                    }
                }
            });
        }
    }

    /// Takes the entry for `key` out of the store, if there is one.
    pub fn remove(&mut self, key: &String)
        ensures
            final(self).contents() == old(self).contents().remove(key@),
    {
        let n = self.entries.len();
        let mut kept: Vec<(String, String)> = Vec::new();
        let mut i: usize = 0;
        proof {
            assert(self.entries@.skip(0) =~= self.entries@);
            assert(kept@ + remove_key(self.entries@, key@) =~= remove_key(self.entries@, key@));
        }
        while i < n
            invariant
                i <= n,
                n == self.entries@.len(),
                self.entries@ == old(self).entries@,
                kept@ + remove_key(self.entries@.skip(i as int), key@) == remove_key(
                    self.entries@,
                    key@,
                ),
            decreases n - i,
        {
            proof {
                assert(self.entries@.skip(i as int)[0] == self.entries@[i as int]);
                assert(self.entries@.skip(i as int).drop_first() =~= self.entries@.skip(
                    i as int + 1,
                ));
            }
            if !(self.entries[i].0 == *key) {
                let pair = (self.entries[i].0.clone(), self.entries[i].1.clone());
                proof {
                    assert(pair == self.entries@[i as int]);
                }
                let ghost kept_before = kept@;
                kept.push(pair);
                proof {
                    assert(kept@ + remove_key(self.entries@.skip(i as int + 1), key@)
                        =~= kept_before + (seq![self.entries@[i as int]] + remove_key(
                        self.entries@.skip(i as int + 1),
                        key@,
                    )));
                }
            }
            i += 1;
        }
        proof {
            assert(self.entries@.skip(n as int) =~= Seq::<(String, String)>::empty());
            assert(kept@ =~= remove_key(self.entries@, key@));
        }
        self.entries = kept;
        proof {
            assert forall|k: Seq<char>| true implies lookup(self.entries@, k) == if k == key@ {
                None::<Seq<char>>
            } else {
                lookup(old(self).entries@, k)
            } by {
                lemma_lookup_remove_key(old(self).entries@, key@, k);
            }
            assert(self.contents() =~= old(self).contents().remove(key@));
        }
    }
}

/// The storage-backed asset reader: it resolves an asset path by looking the
/// path up in the key-value store, and serves the stored text's UTF-8 bytes
/// through a [`ValueReader`]. The store is flat, so metadata and directory
/// operations uniformly report absence.
pub struct LocalStorageAssetReader;

impl LocalStorageAssetReader {
    /// Resolves `path` against the store: a fresh reader over the UTF-8
    /// bytes of the stored text, cursor at the start, when the store has an
    /// entry for the path; `NotFound` carrying the path otherwise.
    pub fn read(&self, store: &Store, path: &String) -> (r: Result<ValueReader, AssetReaderError>)
        ensures
            store.contents().contains_key(path@) ==> {
                &&& r matches Ok(reader)
                &&& reader.data() == encode_utf8(store.contents()[path@])
                &&& reader.offset() == 0
            },
            !store.contents().contains_key(path@) ==> {
                &&& r matches Err(AssetReaderError::NotFound(p))
                &&& p@ == path@
            },
    {
        let entry = store.get(path);
        self.read_entry(path, entry)
    }

    /// Turns the result of a store lookup for `path` into the asset
    /// reader's answer: a fresh reader over the text's UTF-8 bytes when the
    /// lookup produced text, `NotFound` carrying the path when it produced
    /// nothing.
    pub fn read_entry(&self, path: &String, entry: Option<String>) -> (r: Result<
        ValueReader,
        AssetReaderError,
    >)
        ensures
            entry matches Some(text) ==> {
                &&& r matches Ok(reader)
                &&& reader.data() == encode_utf8(text@)
                &&& reader.offset() == 0
            },
            entry is None ==> {
                &&& r matches Err(AssetReaderError::NotFound(p))
                &&& p@ == path@
            },
    {
        match entry {
            Some(text) => {
                let bytes = vstd::slice::slice_to_vec(text.as_str().as_bytes());
                Ok(ValueReader::new(Value::from_vec(bytes)))
            },
            None => Err(AssetReaderError::NotFound(path.clone())),
        }
    }

    /// Metadata sidecar entries are not modeled in this store: every request
    /// reports `NotFound` carrying the path.
    pub fn read_meta(&self, path: &String) -> (r: Result<ValueReader, AssetReaderError>)
        ensures
            r matches Err(AssetReaderError::NotFound(p)) && p@ == path@,
    {
        Err(AssetReaderError::NotFound(path.clone()))
    }

    /// The store is flat, without a hierarchical namespace: every directory
    /// listing reports `NotFound` carrying the path.
    pub fn read_directory(&self, path: &String) -> (r: Result<Vec<String>, AssetReaderError>)
        ensures
            r matches Err(AssetReaderError::NotFound(p)) && p@ == path@,
    {
        Err(AssetReaderError::NotFound(path.clone()))
    }

    /// Consistent with the flat namespace: no path is a directory, and the
    /// question itself never fails.
    pub fn is_directory(&self, _path: &String) -> (r: Result<bool, AssetReaderError>)
        ensures
            r == Ok::<bool, AssetReaderError>(false),
    {
        Ok(false)
    }
}

/// Round trip: after storing `text` under `key`, the store's contents hold
/// exactly `text` at `key`; by the `ensures` of [`Store::set`] and
/// [`LocalStorageAssetReader::read`], reading that key then yields a reader
/// whose bytes are the UTF-8 encoding of `text`.
pub proof fn lemma_set_then_read(m: Map<Seq<char>, Seq<char>>, key: Seq<char>, text: Seq<char>)
    ensures
        m.insert(key, text).contains_key(key),
        m.insert(key, text)[key] == text,
{
}

/// Absence is stable: a key is absent from the empty store, absent after its
/// entry is taken out, and stays absent when other keys are stored. By the
/// `ensures` of [`LocalStorageAssetReader::read`], reading such a key yields
/// `NotFound` carrying it — and repeatably so, since reading borrows the
/// store immutably and cannot change its contents.
pub proof fn lemma_absent_key(m: Map<Seq<char>, Seq<char>>, key: Seq<char>, k2: Seq<char>, v2: Seq<char>)
    ensures
        !Map::<Seq<char>, Seq<char>>::empty().contains_key(key),
        !m.remove(key).contains_key(key),
        !m.contains_key(key) && k2 != key ==> !m.insert(k2, v2).contains_key(key),
{
}

} // verus!
