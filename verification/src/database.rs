//! The host's storage: the keys under which it keeps its records, an
//! in-memory key/value store, and the decisions of the file-backed store.
//! The asynchronous `Database` trait and the file system calls stand around
//! this logic in the application.

use vstd::prelude::*;
use vstd::utf8::encode_utf8;
use crate::keyed::KeyedList;
use crate::page::{hex_digit, hex_encode, hex_lower};

verus! {

/// Errors of the host's storage.
#[derive(Debug)]
pub enum DatabaseError {
    /// A stored record could not be encoded or decoded; the message says why.
    SerializationError(String),
    /// A stored record carries a version that this host does not read.
    UnsupportedVersion(u32),
    /// The storage itself failed; the message says why.
    StorageError(String),
}

/// Where a plugin's code comes from.
#[derive(Debug)]
pub enum PluginSource {
    /// The code itself.
    Embedded(Vec<u8>),
    /// A URL to fetch the code from.
    Url(String),
}

impl PluginSource {
    /// The code, when it is held here; `None` when it has to be fetched from
    /// the URL.
    pub fn local_bytes(&self) -> (r: Option<Vec<u8>>)
        ensures
            match self {
                PluginSource::Embedded(b) => r matches Some(c) && c@ == b@,
                PluginSource::Url(_) => r is None,
            },
    {
        match self {
            PluginSource::Embedded(bytes) => Some(bytes.clone()),
            PluginSource::Url(_) => None,
        }
    }
}

// --- Key helpers -------------------------------------------------------------
//
// A plugin is named in a key by the alternate display text of its id.

/// The bytes of a key text.
pub open spec fn key_bytes(text: Seq<char>) -> Seq<u8> {
    encode_utf8(text)
}

fn text_key(text: String) -> (r: Vec<u8>)
    ensures
        r@ == key_bytes(text@),
{
    text.as_str().as_bytes_vec()
}

/// The key of the list of installed plugins.
pub fn plugins_key() -> (r: Vec<u8>)
    ensures
        r@ == key_bytes("plugins"@),
{
    text_key(String::from_str("plugins"))
}

/// The key of the list of registered entities.
pub fn entities_key() -> (r: Vec<u8>)
    ensures
        r@ == key_bytes("entities"@),
{
    text_key(String::from_str("entities"))
}

/// The key of a plugin's name.
pub fn plugin_name_key(id: &str) -> (r: Vec<u8>)
    ensures
        r@ == key_bytes("plugin_name:"@ + id@),
{
    text_key(String::from_str("plugin_name:").concat(id))
}

/// The key of a plugin's source.
pub fn plugin_source_key(id: &str) -> (r: Vec<u8>)
    ensures
        r@ == key_bytes("plugin_source:"@ + id@),
{
    text_key(String::from_str("plugin_source:").concat(id))
}

/// The key of one entry of a plugin's own state.
pub fn plugin_state_key(id: &str, key: &str) -> (r: Vec<u8>)
    ensures
        r@ == key_bytes("state:"@ + id@ + ":"@ + key@),
{
    text_key(String::from_str("state:").concat(id).concat(":").concat(key))
}

// --- In-memory store -----------------------------------------------------------

/// What a lookup in a store finds.
pub open spec fn lookup(store: Map<Seq<u8>, Seq<u8>>, key: Seq<u8>) -> Option<Seq<u8>> {
    if store.contains_key(key) {
        Some(store[key])
    } else {
        None
    }
}

/// A key/value store held in memory.
pub struct MemoryDatabase {
    store: KeyedList<Vec<u8>, Vec<u8>>,
}

impl View for MemoryDatabase {
    type V = Map<Seq<u8>, Seq<u8>>;

    closed spec fn view(&self) -> Map<Seq<u8>, Seq<u8>> {
        self.store@
    }
}

impl MemoryDatabase {
    /// The store is well formed.
    pub closed spec fn wf(&self) -> bool {
        self.store.wf()
    }

    /// An empty store.
    pub fn new() -> (r: Self)
        ensures
            r.wf(),
            r@ == Map::<Seq<u8>, Seq<u8>>::empty(),
    {
        MemoryDatabase { store: KeyedList::new() }
    }

    /// The value stored under `key`, if any.
    pub fn get(&self, key: &[u8]) -> (r: Result<Option<Vec<u8>>, DatabaseError>)
        requires
            self.wf(),
        ensures
            r matches Ok(found) && match found {
                Some(v) => lookup(self@, key@) == Some(v@),
                None => lookup(self@, key@) is None,
            },
    {
        let k = vstd::slice::slice_to_vec(key);
        match self.store.get(&k) {
            Some(v) => Ok(Some(v.clone())),
            None => Ok(None),
        }
    }

    /// Stores `value` under `key`, replacing what was stored there.
    pub fn set(&mut self, key: &[u8], value: &[u8]) -> (r: Result<(), DatabaseError>)
        requires
            old(self).wf(),
        ensures
            final(self).wf(),
            r is Ok,
            final(self)@ == old(self)@.insert(key@, value@),
    {
        self.store.insert(vstd::slice::slice_to_vec(key), vstd::slice::slice_to_vec(value));
        Ok(())
    }

    /// Removes whatever is stored under `key`.
    pub fn delete(&mut self, key: &[u8]) -> (r: Result<(), DatabaseError>)
        requires
            old(self).wf(),
        ensures
            final(self).wf(),
            r is Ok,
            final(self)@ == old(self)@.remove(key@),
    {
        let k = vstd::slice::slice_to_vec(key);
        let _ = self.store.remove(&k);
        Ok(())
    }
}

// --- File-backed store ----------------------------------------------------------

/// The name of the file that holds the value of a key: the key bytes in
/// lower-case hexadecimal, two digits per byte.
pub open spec fn key_file_name(key: Seq<u8>) -> Seq<char> {
    hex_lower(key)
}

/// Joining a file name onto a directory: a separator goes between them
/// unless the directory is empty or already ends with one.
pub open spec fn join_path(dir: Seq<char>, name: Seq<char>) -> Seq<char> {
    if dir.len() == 0 {
        name
    } else if dir.last() == '/' {
        dir + name
    } else {
        dir + "/"@ + name
    }
}

/// How a file operation of the store failed.
#[derive(Debug)]
pub struct FileFailure {
    /// The file does not exist.
    pub not_found: bool,
    /// The failure's message.
    pub message: String,
}

/// A store that keeps each key's value in a file of its own, in one
/// directory. The file's name is the hex encoding of the key bytes; a write
/// goes to a `.tmp` file first and is then renamed into place.
pub struct FsDatabase {
    dir: String,
}

impl FsDatabase {
    /// A store in the directory `dir`; the directory itself is made by the
    /// caller.
    pub fn at(dir: String) -> (r: Self)
        ensures
            r.dir()@ == dir@,
    {
        FsDatabase { dir }
    }

    /// The directory of the store.
    pub closed spec fn dir(&self) -> String {
        self.dir
    }

    /// The directory of the store.
    pub fn directory(&self) -> (r: &str)
        ensures
            r@ == self.dir()@,
    {
        self.dir.as_str()
    }

    /// The path of the file that holds the value of `key`.
    pub fn key_path(&self, key: &[u8]) -> (r: String)
        ensures
            r@ == join_path(self.dir()@, key_file_name(key@)),
    {
        let name = hex_encode(key);
        let n = self.dir.as_str().unicode_len();
        if n == 0 {
            name
        } else if self.dir.as_str().get_char(n - 1) == '/' {
            self.dir.clone().concat(name.as_str())
        } else {
            self.dir.clone().concat("/").concat(name.as_str())
        }
    }

    /// The path of the temporary file that a write of `key` goes to first.
    pub fn temp_path(&self, key: &[u8]) -> (r: String)
        ensures
            r@ == join_path(self.dir()@, key_file_name(key@)) + ".tmp"@,
    {
        self.key_path(key).concat(".tmp")
    }

    /// What a read of a key's file gives: its bytes, nothing when the file
    /// does not exist, and a storage error with the failure's message on any
    /// other failure.
    pub fn read_result(outcome: Result<Vec<u8>, FileFailure>) -> (r: Result<
        Option<Vec<u8>>,
        DatabaseError,
    >)
        ensures
            match outcome {
                Ok(bytes) => r matches Ok(Some(b)) && b@ == bytes@,
                Err(f) => if f.not_found {
                    r matches Ok(None)
                } else {
                    r matches Err(DatabaseError::StorageError(e)) && e@ == f.message@
                },
            },
    {
        match outcome {
            Ok(bytes) => Ok(Some(bytes)),
            Err(f) => if f.not_found {
                Ok(None)
            } else {
                Err(DatabaseError::StorageError(f.message))
            },
        }
    }

    /// What a write of a key gives: any failure, of the write to the
    /// temporary file or of the rename, is a storage error with its message.
    pub fn write_result(outcome: Result<(), FileFailure>) -> (r: Result<(), DatabaseError>)
        ensures
            match outcome {
                Ok(()) => r is Ok,
                Err(f) => r matches Err(DatabaseError::StorageError(e)) && e@ == f.message@,
            },
    {
        match outcome {
            Ok(()) => Ok(()),
            Err(f) => Err(DatabaseError::StorageError(f.message)),
        }
    }

    /// What a delete of a key gives: removing a file that does not exist
    /// succeeds; any other failure is a storage error with its message.
    pub fn delete_result(outcome: Result<(), FileFailure>) -> (r: Result<(), DatabaseError>)
        ensures
            match outcome {
                Ok(()) => r is Ok,
                Err(f) => if f.not_found {
                    r is Ok
                } else {
                    r matches Err(DatabaseError::StorageError(e)) && e@ == f.message@
                },
            },
    {
        match outcome {
            Ok(()) => Ok(()),
            Err(f) => if f.not_found {
                Ok(())
            } else {
                Err(DatabaseError::StorageError(f.message))
            },
        }
    }
}

// --- Laws ------------------------------------------------------------------------

/// A read gives back what the last write of the same key wrote, and writes to
/// other keys leave a read unchanged.
pub proof fn law_read_after_write(store: Map<Seq<u8>, Seq<u8>>, key: Seq<u8>, value: Seq<u8>, other: Seq<u8>)
    ensures
        lookup(store.insert(key, value), key) == Some(value),
        other != key ==> lookup(store.insert(key, value), other) == lookup(store, other),
{
}

/// After a delete nothing is read under the key, and other keys keep their
/// values; deleting a key that is absent changes nothing.
pub proof fn law_read_after_delete(store: Map<Seq<u8>, Seq<u8>>, key: Seq<u8>, other: Seq<u8>)
    ensures
        lookup(store.remove(key), key) is None,
        other != key ==> lookup(store.remove(key), other) == lookup(store, other),
        !store.contains_key(key) ==> store.remove(key) == store,
{
    assert(!store.contains_key(key) ==> store.remove(key) =~= store);
}

/// The last of two writes to one key wins.
pub proof fn law_last_write_wins(store: Map<Seq<u8>, Seq<u8>>, key: Seq<u8>, first: Seq<u8>, second: Seq<u8>)
    ensures
        store.insert(key, first).insert(key, second) == store.insert(key, second),
{
    assert(store.insert(key, first).insert(key, second) =~= store.insert(key, second));
}

/// The hexadecimal text of a byte string has two digits per byte.
pub proof fn lemma_hex_lower_len(b: Seq<u8>)
    ensures
        hex_lower(b).len() == 2 * b.len(),
    decreases b.len(),
{
    if b.len() > 0 {
        lemma_hex_lower_len(b.drop_last());
    }
}

/// Distinct nibbles have distinct digits.
pub proof fn lemma_hex_digit_injective(x: int, y: int)
    requires
        0 <= x < 16,
        0 <= y < 16,
        hex_digit(x) == hex_digit(y),
    ensures
        x == y,
{
}

/// Distinct byte strings have distinct hexadecimal texts.
pub proof fn lemma_hex_lower_injective(a: Seq<u8>, b: Seq<u8>)
    requires
        hex_lower(a) == hex_lower(b),
    ensures
        a == b,
    decreases a.len(),
{
    lemma_hex_lower_len(a);
    lemma_hex_lower_len(b);
    if a.len() > 0 {
        let ha = hex_lower(a);
        let n = ha.len() as int;
        lemma_hex_lower_len(a.drop_last());
        lemma_hex_lower_len(b.drop_last());
        assert(hex_lower(a.drop_last()) =~= ha.subrange(0, n - 2));
        assert(hex_lower(b.drop_last()) =~= hex_lower(b).subrange(0, n - 2));
        lemma_hex_lower_injective(a.drop_last(), b.drop_last());
        let x = a.last() as int;
        let y = b.last() as int;
        assert(ha[n - 2] == hex_digit(x / 16));
        assert(hex_lower(b)[n - 2] == hex_digit(y / 16));
        assert(ha[n - 1] == hex_digit(x % 16));
        assert(hex_lower(b)[n - 1] == hex_digit(y % 16));
        lemma_hex_digit_injective(x / 16, y / 16);
        lemma_hex_digit_injective(x % 16, y % 16);
        assert(a.last() == b.last());
        assert(a =~= a.drop_last().push(a.last()));
        assert(b =~= b.drop_last().push(b.last()));
    }
}

/// Every key has a file of its own in the store's directory: distinct keys
/// give distinct paths, and the same key always the same path.
pub proof fn law_key_files_distinct(dir: Seq<char>, k1: Seq<u8>, k2: Seq<u8>)
    ensures
        k1 != k2 <==> join_path(dir, key_file_name(k1)) != join_path(dir, key_file_name(k2)),
{
    reveal_strlit("/");
    let p1 = join_path(dir, key_file_name(k1));
    let p2 = join_path(dir, key_file_name(k2));
    if p1 == p2 {
        let m: int = if dir.len() == 0 {
            0
        } else if dir.last() == '/' {
            dir.len() as int
        } else {
            dir.len() as int + 1
        };
        assert(key_file_name(k1) =~= p1.subrange(m, p1.len() as int));
        assert(key_file_name(k2) =~= p2.subrange(m, p2.len() as int));
        lemma_hex_lower_injective(k1, k2);
    }
}

/// Distinct key texts give distinct keys.
pub proof fn lemma_key_bytes_injective(a: Seq<char>, b: Seq<char>)
    ensures
        key_bytes(a) == key_bytes(b) ==> a == b,
{
    vstd::utf8::encode_utf8_decode_utf8(a);
    vstd::utf8::encode_utf8_decode_utf8(b);
}

/// The host's records never share a key: the plugin list, the entity list,
/// plugin names, plugin sources and plugin state each have keys of their
/// own, and the name and the source keys of two plugins are the same only
/// for the same plugin.
pub proof fn law_record_keys_distinct(a: Seq<char>, b: Seq<char>, k: Seq<char>)
    ensures
        key_bytes("plugin_name:"@ + a) == key_bytes("plugin_name:"@ + b) ==> a == b,
        key_bytes("plugin_source:"@ + a) == key_bytes("plugin_source:"@ + b) ==> a == b,
        key_bytes("plugin_name:"@ + a) != key_bytes("plugin_source:"@ + b),
        key_bytes("plugin_name:"@ + a) != key_bytes("state:"@ + b + ":"@ + k),
        key_bytes("plugin_source:"@ + a) != key_bytes("state:"@ + b + ":"@ + k),
        key_bytes("plugins"@) != key_bytes("entities"@),
        key_bytes("plugin_name:"@ + a) != key_bytes("plugins"@),
        key_bytes("plugin_name:"@ + a) != key_bytes("entities"@),
        key_bytes("plugin_source:"@ + a) != key_bytes("plugins"@),
        key_bytes("plugin_source:"@ + a) != key_bytes("entities"@),
        key_bytes("state:"@ + a + ":"@ + k) != key_bytes("plugins"@),
        key_bytes("state:"@ + a + ":"@ + k) != key_bytes("entities"@),
{
    reveal_strlit("plugin_name:");
    reveal_strlit("plugin_source:");
    reveal_strlit("state:");
    reveal_strlit(":");
    reveal_strlit("plugins");
    reveal_strlit("entities");
    let name_a = "plugin_name:"@ + a;
    let name_b = "plugin_name:"@ + b;
    let src_a = "plugin_source:"@ + a;
    let src_b = "plugin_source:"@ + b;
    let st_a = "state:"@ + a + ":"@ + k;
    let st_b = "state:"@ + b + ":"@ + k;
    let pl = "plugins"@;
    let en = "entities"@;
    lemma_key_bytes_injective(name_a, name_b);
    lemma_key_bytes_injective(src_a, src_b);
    lemma_key_bytes_injective(name_a, src_b);
    lemma_key_bytes_injective(name_a, st_b);
    lemma_key_bytes_injective(src_a, st_b);
    lemma_key_bytes_injective(pl, en);
    lemma_key_bytes_injective(name_a, pl);
    lemma_key_bytes_injective(name_a, en);
    lemma_key_bytes_injective(src_a, pl);
    lemma_key_bytes_injective(src_a, en);
    lemma_key_bytes_injective(st_a, pl);
    lemma_key_bytes_injective(st_a, en);
    if name_a == name_b {
        assert(a =~= name_a.subrange(12, name_a.len() as int));
        assert(b =~= name_b.subrange(12, name_b.len() as int));
    }
    if src_a == src_b {
        assert(a =~= src_a.subrange(14, src_a.len() as int));
        assert(b =~= src_b.subrange(14, src_b.len() as int));
    }
    assert(name_a[7] != src_b[7]);
    assert(name_a[0] != st_b[0]);
    assert(src_a[0] != st_b[0]);
    assert(pl[1] != en[1]);
    assert(name_a.len() != pl.len() || name_a[7] != pl[7]);
    assert(name_a[0] != en[0]);
    assert(src_a.len() != pl.len() || src_a[7] != pl[7]);
    assert(src_a[0] != en[0]);
    assert(st_a[0] != pl[0]);
    assert(st_a[0] != en[0]);
}

/// The state of two plugins whose ids hold no `:` never shares a key.
pub proof fn law_state_keys_separate_plugins(a: Seq<char>, b: Seq<char>, ka: Seq<char>, kb: Seq<char>)
    requires
        !a.contains(':'),
        !b.contains(':'),
        a != b,
    ensures
        key_bytes("state:"@ + a + ":"@ + ka) != key_bytes("state:"@ + b + ":"@ + kb),
{
    reveal_strlit("state:");
    reveal_strlit(":");
    let x = "state:"@ + a + ":"@ + ka;
    let y = "state:"@ + b + ":"@ + kb;
    lemma_key_bytes_injective(x, y);
    if x == y {
        if a.len() == b.len() {
            assert forall|i: int| 0 <= i < a.len() implies a[i] == b[i] by {
                assert(x[6 + i] == y[6 + i]);
            }
            assert(a =~= b);
        } else if a.len() < b.len() {
            assert(x[6 + a.len() as int] == ':');
            assert(y[6 + a.len() as int] == b[a.len() as int]);
        } else {
            assert(y[6 + b.len() as int] == ':');
            assert(x[6 + b.len() as int] == a[b.len() as int]);
        }
    }
}

} // verus!
