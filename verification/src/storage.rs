//! Storage: namespaces that keep the keys of different parts of an app apart,
//! a string-keyed table, and the in-memory store (key-value, secure and file
//! tiers) that platforms without native storage fall back to.

use vstd::prelude::*;
use crate::text::{ends_with_char, string_views};

mod table;

pub use table::{StringTable, table_of, keys_distinct, has_key};

verus! {

/// Errors from storage operations.
#[derive(Debug)]
pub enum StorageError {
    KeyNotFound(String),
    BackendUnavailable(String),
    SecureNotSupported,
    FileNotFound(String),
    PermissionDenied(String),
    SerializationError(String),
    QuotaExceeded,
    IoError(String),
}

pub type StorageResult<T> = Result<T, StorageError>;

/// The key under which `key` of namespace `ns` is stored: "namespace:key".
pub open spec fn full_key(ns: Seq<char>, key: Seq<char>) -> Seq<char> {
    ns + ":"@ + key
}

/// Namespace for isolating storage domains.
/// Prevents key collisions between different parts of the app.
#[derive(Debug, Clone, PartialEq, Eq, Hash)]
pub struct StorageNamespace(String);

impl View for StorageNamespace {
    type V = Seq<char>;

    closed spec fn view(&self) -> Seq<char> {
        self.0@
    }
}

impl StorageNamespace {
    pub fn new(name: &str) -> (r: Self)
        ensures
            r@ == name@,
    {
        StorageNamespace(String::from_str(name))
    }

    /// Default namespace for app data.
    pub fn app_data() -> (r: Self)
        ensures
            r@ == "app_data"@,
    {
        StorageNamespace(String::from_str("app_data"))
    }

    /// Namespace for user preferences.
    pub fn preferences() -> (r: Self)
        ensures
            r@ == "preferences"@,
    {
        StorageNamespace(String::from_str("preferences"))
    }

    /// Namespace for cache data (can be cleared by system).
    pub fn cache() -> (r: Self)
        ensures
            r@ == "cache"@,
    {
        StorageNamespace(String::from_str("cache"))
    }

    pub fn as_str(&self) -> (r: &str)
        ensures
            r@ == self@,
    {
        self.0.as_str()
    }

    /// Build a namespaced key: "namespace:key".
    pub fn prefixed_key(&self, key: &str) -> (r: String)
        ensures
            r@ == full_key(self@, key@),
    {
        let mut s = self.0.clone();
        s.append(":");
        s.append(key);
        s
    }

    /// The prefix that every key of this namespace starts with: "namespace:".
    fn key_prefix(&self) -> (r: String)
        ensures
            r@ == self@ + ":"@,
    {
        let mut s = self.0.clone();
        s.append(":");
        s
    }
}

impl Default for StorageNamespace {
    fn default() -> (r: Self)
        ensures
            r@ == "app_data"@,
    {
        StorageNamespace::app_data()
    }
}

} // verus!

verus! {

/// What `t` holds under `k`, if anything.
pub open spec fn lookup<V>(t: Map<Seq<char>, V>, k: Seq<char>) -> Option<V> {
    if t.contains_key(k) {
        Some(t[k])
    } else {
        None
    }
}

/// The directory prefix that `list_files` matches: `dir` itself when it ends
/// in '/', else `dir` followed by '/'.
pub open spec fn dir_prefix(dir: Seq<char>) -> Seq<char> {
    if dir.len() > 0 && dir.last() == '/' {
        dir
    } else {
        dir + "/"@
    }
}

/// An in-memory store with the three storage tiers: namespaced key-value
/// data, secure values and files. Nothing of it outlives the process.
pub struct MemoryStore<V> {
    platform: String,
    kv: StringTable<V>,
    secure: StringTable<Vec<u8>>,
    files: StringTable<Vec<u8>>,
}

impl<V> MemoryStore<V> {
    pub closed spec fn wf(&self) -> bool {
        &&& self.kv.wf()
        &&& self.secure.wf()
        &&& self.files.wf()
    }

    /// Key-value data, by full key ("namespace:key").
    pub closed spec fn kv_table(&self) -> Map<Seq<char>, V> {
        self.kv@
    }

    /// Securely stored values, by key.
    pub closed spec fn secure_table(&self) -> Map<Seq<char>, Seq<u8>> {
        self.secure@.map_values(|b: Vec<u8>| b@)
    }

    /// File contents, by path.
    pub closed spec fn file_table(&self) -> Map<Seq<char>, Seq<u8>> {
        self.files@.map_values(|b: Vec<u8>| b@)
    }

    pub closed spec fn platform(&self) -> Seq<char> {
        self.platform@
    }

    pub fn new(platform: &str) -> (r: Self)
        ensures
            r.wf(),
            r.platform() == platform@,
            r.kv_table() == Map::<Seq<char>, V>::empty(),
            r.secure_table() == Map::<Seq<char>, Seq<u8>>::empty(),
            r.file_table() == Map::<Seq<char>, Seq<u8>>::empty(),
    {
        let r = MemoryStore {
            platform: String::from_str(platform),
            kv: StringTable::new(),
            secure: StringTable::new(),
            files: StringTable::new(),
        };
        assert(r.secure_table() =~= Map::<Seq<char>, Seq<u8>>::empty());
        assert(r.file_table() =~= Map::<Seq<char>, Seq<u8>>::empty());
        r
    }

    pub fn platform_id(&self) -> (r: &str)
        ensures
            r@ == self.platform(),
    {
        self.platform.as_str()
    }

    // ── Key-value store ──

    /// The value of `key` in `namespace`.
    pub fn get(&self, namespace: &StorageNamespace, key: &str) -> (r: Option<&V>)
        requires
            self.wf(),
        ensures
            match r {
                Some(v) => lookup(self.kv_table(), full_key(namespace@, key@)) == Some(*v),
                None => lookup(self.kv_table(), full_key(namespace@, key@)) is None,
            },
    {
        let full = namespace.prefixed_key(key);
        self.kv.get(full.as_str())
    }

    /// Set `key` in `namespace` to `value`.
    pub fn set(&mut self, namespace: &StorageNamespace, key: &str, value: V)
        requires
            old(self).wf(),
        ensures
            final(self).wf(),
            final(self).kv_table() == old(self).kv_table().insert(full_key(namespace@, key@), value),
            final(self).secure_table() == old(self).secure_table(),
            final(self).file_table() == old(self).file_table(),
            final(self).platform() == old(self).platform(),
    {
        let full = namespace.prefixed_key(key);
        self.kv.insert(full, value);
    }

    /// Delete `key` from `namespace`.
    pub fn delete(&mut self, namespace: &StorageNamespace, key: &str)
        requires
            old(self).wf(),
        ensures
            final(self).wf(),
            final(self).kv_table() == old(self).kv_table().remove(full_key(namespace@, key@)),
            final(self).secure_table() == old(self).secure_table(),
            final(self).file_table() == old(self).file_table(),
            final(self).platform() == old(self).platform(),
    {
        let full = namespace.prefixed_key(key);
        self.kv.remove(full.as_str());
    }

    /// Whether `key` is set in `namespace`.
    pub fn contains(&self, namespace: &StorageNamespace, key: &str) -> (r: bool)
        ensures
            r == self.kv_table().contains_key(full_key(namespace@, key@)),
    {
        let full = namespace.prefixed_key(key);
        self.kv.contains_key(full.as_str())
    }

    /// The keys set in `namespace`, each once (in no particular order).
    pub fn keys(&self, namespace: &StorageNamespace) -> (r: Vec<String>)
        requires
            self.wf(),
        ensures
            string_views(r@).no_duplicates(),
            forall|k: Seq<char>|
                #[trigger] string_views(r@).contains(k) <==> self.kv_table().contains_key(full_key(namespace@, k)),
    {
        let prefix = namespace.key_prefix();
        let full = self.kv.keys_with_prefix(prefix.as_str());
        let n = prefix.unicode_len();
        let ghost pre = prefix@;
        let mut r: Vec<String> = Vec::new();
        let mut i: usize = 0;
        while i < full.len()
            invariant
                i <= full@.len(),
                n == pre.len(),
                string_views(full@).no_duplicates(),
                forall|k: Seq<char>| #[trigger] string_views(full@).contains(k) ==> pre.is_prefix_of(k),
                r@.len() == i,
                forall|q: int| 0 <= q < i ==> (#[trigger] r@[q])@ == full@[q]@.skip(n as int),
            decreases full@.len() - i,
        {
            let k = full[i].as_str();
            proof {
                assert(string_views(full@)[i as int] == full@[i as int]@);
                assert(string_views(full@).contains(k@));
            }
            let rest = String::from_str(k.substring_char(n, k.unicode_len()));
            proof {
                assert(rest@ =~= k@.skip(n as int));
            }
            r.push(rest);
            i = i + 1;
        }
        proof {
            let views = string_views(r@);
            let fv = string_views(full@);
            assert forall|a: int| 0 <= a < fv.len() implies #[trigger] fv[a] == pre + views[a] by {
                assert(fv[a] == full@[a]@);
                assert(fv.contains(fv[a]));
                assert(fv[a] =~= pre + fv[a].skip(n as int));
            }
            assert forall|a: int, b: int| 0 <= a < views.len() && 0 <= b < views.len() && a != b implies views[a]
                != views[b] by {
                assert(fv[a] == pre + views[a]);
                assert(fv[b] == pre + views[b]);
            }
            assert forall|k: Seq<char>|
                #[trigger] views.contains(k) <==> self.kv_table().contains_key(full_key(namespace@, k)) by {
                assert(full_key(namespace@, k) =~= pre + k);
                if views.contains(k) {
                    let a = choose|a: int| 0 <= a < views.len() && views[a] == k;
                    assert(fv[a] == pre + k);
                    assert(fv.contains(pre + k));
                }
                if self.kv_table().contains_key(full_key(namespace@, k)) {
                    assert(pre.is_prefix_of(pre + k)) by {
                        assert((pre + k).subrange(0, pre.len() as int) =~= pre);
                    }
                    assert(fv.contains(pre + k));
                    let a = choose|a: int| 0 <= a < fv.len() && fv[a] == pre + k;
                    assert(pre + views[a] == pre + k);
                    assert(views[a] =~= (pre + views[a]).skip(n as int));
                    assert(k =~= (pre + k).skip(n as int));
                }
            }
        }
        r
    }

    /// Clear every key of `namespace`.
    pub fn clear(&mut self, namespace: &StorageNamespace)
        requires
            old(self).wf(),
        ensures
            final(self).wf(),
            final(self).kv_table() == old(self).kv_table().restrict(
                old(self).kv_table().dom().filter(|k: Seq<char>| !(namespace@ + ":"@).is_prefix_of(k)),
            ),
            final(self).secure_table() == old(self).secure_table(),
            final(self).file_table() == old(self).file_table(),
            final(self).platform() == old(self).platform(),
    {
        let prefix = namespace.key_prefix();
        self.kv.remove_prefixed(prefix.as_str());
    }

    // ── Secure storage ──

    /// The in-memory store keeps secure values too.
    pub fn supports_secure(&self) -> (r: bool)
        ensures
            r,
    {
        true
    }

    /// Store `value` securely under `key`.
    pub fn secure_set(&mut self, key: &str, value: &[u8])
        requires
            old(self).wf(),
        ensures
            final(self).wf(),
            final(self).secure_table() == old(self).secure_table().insert(key@, value@),
            final(self).kv_table() == old(self).kv_table(),
            final(self).file_table() == old(self).file_table(),
            final(self).platform() == old(self).platform(),
    {
        let bytes = vstd::slice::slice_to_vec(value);
        let ghost before = self.secure@;
        self.secure.insert(String::from_str(key), bytes);
        assert(self.secure_table() =~= old(self).secure_table().insert(key@, value@));
    }

    /// The value stored securely under `key`.
    pub fn secure_get(&self, key: &str) -> (r: Option<Vec<u8>>)
        requires
            self.wf(),
        ensures
            match r {
                Some(b) => lookup(self.secure_table(), key@) == Some(b@),
                None => lookup(self.secure_table(), key@) is None,
            },
    {
        match self.secure.get(key) {
            Some(b) => {
                let c = b.clone();
                assert(c@ =~= b@);
                Some(c)
            },
            None => None,
        }
    }

    /// Delete the value stored securely under `key`.
    pub fn secure_delete(&mut self, key: &str)
        requires
            old(self).wf(),
        ensures
            final(self).wf(),
            final(self).secure_table() == old(self).secure_table().remove(key@),
            final(self).kv_table() == old(self).kv_table(),
            final(self).file_table() == old(self).file_table(),
            final(self).platform() == old(self).platform(),
    {
        self.secure.remove(key);
        assert(self.secure_table() =~= old(self).secure_table().remove(key@));
    }

    // ── File storage ──

    /// Write `data` to the file at `path`.
    pub fn write_file(&mut self, path: &str, data: &[u8])
        requires
            old(self).wf(),
        ensures
            final(self).wf(),
            final(self).file_table() == old(self).file_table().insert(path@, data@),
            final(self).kv_table() == old(self).kv_table(),
            final(self).secure_table() == old(self).secure_table(),
            final(self).platform() == old(self).platform(),
    {
        let bytes = vstd::slice::slice_to_vec(data);
        self.files.insert(String::from_str(path), bytes);
        assert(self.file_table() =~= old(self).file_table().insert(path@, data@));
    }

    /// The contents of the file at `path`; `FileNotFound` when there is none.
    pub fn read_file(&self, path: &str) -> (r: StorageResult<Vec<u8>>)
        requires
            self.wf(),
        ensures
            match r {
                Ok(b) => lookup(self.file_table(), path@) == Some(b@),
                Err(e) => {
                    &&& lookup(self.file_table(), path@) is None
                    &&& e matches StorageError::FileNotFound(p) && p@ == path@
                },
            },
    {
        match self.files.get(path) {
            Some(b) => {
                let c = b.clone();
                assert(c@ =~= b@);
                Ok(c)
            },
            None => Err(StorageError::FileNotFound(String::from_str(path))),
        }
    }

    /// Delete the file at `path`.
    pub fn delete_file(&mut self, path: &str)
        requires
            old(self).wf(),
        ensures
            final(self).wf(),
            final(self).file_table() == old(self).file_table().remove(path@),
            final(self).kv_table() == old(self).kv_table(),
            final(self).secure_table() == old(self).secure_table(),
            final(self).platform() == old(self).platform(),
    {
        self.files.remove(path);
        assert(self.file_table() =~= old(self).file_table().remove(path@));
    }

    /// Whether a file exists at `path`.
    pub fn file_exists(&self, path: &str) -> (r: bool)
        ensures
            r == self.file_table().contains_key(path@),
    {
        self.files.contains_key(path)
    }

    /// The paths of the files in `dir` and below it, each once (in no
    /// particular order).
    pub fn list_files(&self, dir: &str) -> (r: Vec<String>)
        requires
            self.wf(),
        ensures
            string_views(r@).no_duplicates(),
            forall|k: Seq<char>|
                #[trigger] string_views(r@).contains(k) <==> (self.file_table().contains_key(k)
                    && dir_prefix(dir@).is_prefix_of(k)),
    {
        let prefix = if ends_with_char(dir, '/') {
            String::from_str(dir)
        } else {
            let mut p = String::from_str(dir);
            p.append("/");
            p
        };
        self.files.keys_with_prefix(prefix.as_str())
    }
}

} // verus!

verus! {

/// The value of `key` in namespace `ns` of `store`.
pub open spec fn kv_get<V>(store: MemoryStore<V>, ns: Seq<char>, key: Seq<char>) -> Option<V> {
    lookup(store.kv_table(), full_key(ns, key))
}

/// `s` holds no ':'.
pub open spec fn colon_free(s: Seq<char>) -> bool {
    forall|i: int| 0 <= i < s.len() ==> s[i] != ':'
}

/// The characters of "namespace:key", position by position.
proof fn lemma_full_key_shape(ns: Seq<char>, key: Seq<char>)
    ensures
        full_key(ns, key).len() == ns.len() + 1 + key.len(),
        (ns + ":"@).len() == ns.len() + 1,
        (ns + ":"@)[ns.len() as int] == ':',
        full_key(ns, key)[ns.len() as int] == ':',
        forall|i: int| 0 <= i < ns.len() ==> #[trigger] full_key(ns, key)[i] == ns[i] && (ns + ":"@)[i] == ns[i],
        forall|j: int| 0 <= j < key.len() ==> #[trigger] full_key(ns, key)[ns.len() + 1 + j] == key[j],
        full_key(ns, key).skip(ns.len() + 1int) == key,
        full_key(ns, key).subrange(0, ns.len() + 1int) == ns + ":"@,
{
    reveal_strlit(":");
    assert(":"@.len() == 1);
    assert(":"@[0] == ':');
    assert(full_key(ns, key).skip(ns.len() + 1int) =~= key);
    assert(full_key(ns, key).subrange(0, ns.len() + 1int) =~= ns + ":"@);
}

/// Two namespaces without ':' never share a stored key: equal full keys come
/// only from the same namespace and the same key.
pub proof fn lemma_full_key_injective(n1: Seq<char>, k1: Seq<char>, n2: Seq<char>, k2: Seq<char>)
    requires
        colon_free(n1),
        colon_free(n2),
        full_key(n1, k1) == full_key(n2, k2),
    ensures
        n1 == n2,
        k1 == k2,
{
    lemma_full_key_shape(n1, k1);
    lemma_full_key_shape(n2, k2);
    let f = full_key(n1, k1);
    if n1.len() < n2.len() {
        assert(f[n1.len() as int] == ':');
        assert(full_key(n2, k2)[n1.len() as int] == n2[n1.len() as int]);
    } else if n2.len() < n1.len() {
        assert(full_key(n2, k2)[n2.len() as int] == ':');
        assert(f[n2.len() as int] == n1[n2.len() as int]);
    } else {
        assert forall|i: int| 0 <= i < n1.len() implies n1[i] == n2[i] by {
            assert(f[i] == n1[i]);
            assert(full_key(n2, k2)[i] == n2[i]);
        }
        assert(n1 =~= n2);
        assert forall|i: int| 0 <= i < k1.len() implies k1[i] == k2[i] by {
            assert(f[n1.len() + 1 + i] == k1[i]);
            assert(full_key(n2, k2)[n2.len() + 1 + i] == k2[i]);
        }
        assert(k1 =~= k2);
    }
}

/// A read gives back what a write wrote, and a write leaves every other key
/// alone: another key of the same namespace, or any key of another namespace
/// (both namespaces without ':').
pub proof fn lemma_get_after_set<V>(
    pre: MemoryStore<V>,
    post: MemoryStore<V>,
    ns: Seq<char>,
    key: Seq<char>,
    value: V,
    other_ns: Seq<char>,
    other_key: Seq<char>,
)
    requires
        post.kv_table() == pre.kv_table().insert(full_key(ns, key), value),
    ensures
        kv_get(post, ns, key) == Some(value),
        other_ns == ns && other_key != key ==> kv_get(post, other_ns, other_key) == kv_get(pre, other_ns, other_key),
        other_ns != ns && colon_free(ns) && colon_free(other_ns) ==> kv_get(post, other_ns, other_key) == kv_get(
            pre,
            other_ns,
            other_key,
        ),
{
    if other_ns == ns && other_key != key {
        lemma_full_key_shape(ns, key);
        lemma_full_key_shape(ns, other_key);
    }
    if other_ns != ns && colon_free(ns) && colon_free(other_ns) {
        if full_key(other_ns, other_key) == full_key(ns, key) {
            lemma_full_key_injective(other_ns, other_key, ns, key);
        }
    }
}

/// After a delete, the key reads as absent; nothing else changes.
pub proof fn lemma_get_after_delete<V>(
    pre: MemoryStore<V>,
    post: MemoryStore<V>,
    ns: Seq<char>,
    key: Seq<char>,
    other_key: Seq<char>,
)
    requires
        post.kv_table() == pre.kv_table().remove(full_key(ns, key)),
    ensures
        kv_get(post, ns, key) is None,
        other_key != key ==> kv_get(post, ns, other_key) == kv_get(pre, ns, other_key),
{
    lemma_full_key_shape(ns, key);
    lemma_full_key_shape(ns, other_key);
}

/// Clearing a namespace leaves none of its keys, and leaves every other
/// namespace as it was (both namespaces without ':').
pub proof fn lemma_clear_namespace<V>(
    pre: MemoryStore<V>,
    post: MemoryStore<V>,
    ns: Seq<char>,
    key: Seq<char>,
    other_ns: Seq<char>,
)
    requires
        post.kv_table() == pre.kv_table().restrict(
            pre.kv_table().dom().filter(|k: Seq<char>| !(ns + ":"@).is_prefix_of(k)),
        ),
    ensures
        kv_get(post, ns, key) is None,
        other_ns != ns && colon_free(ns) && colon_free(other_ns) ==> kv_get(post, other_ns, key) == kv_get(
            pre,
            other_ns,
            key,
        ),
{
    let p = ns + ":"@;
    lemma_full_key_shape(ns, key);
    lemma_full_key_shape(other_ns, key);
    if other_ns != ns && colon_free(ns) && colon_free(other_ns) {
        let f = full_key(other_ns, key);
        if p.is_prefix_of(f) {
            assert(f.subrange(0, p.len() as int) == p);
            if ns.len() < other_ns.len() {
                assert(f.subrange(0, p.len() as int)[ns.len() as int] == ':');
                assert(f[ns.len() as int] == other_ns[ns.len() as int]);
            } else if other_ns.len() < ns.len() {
                assert(f[other_ns.len() as int] == ':');
                assert(f.subrange(0, p.len() as int)[other_ns.len() as int] == ns[other_ns.len() as int]);
            } else {
                assert forall|i: int| 0 <= i < ns.len() implies ns[i] == other_ns[i] by {
                    assert(f.subrange(0, p.len() as int)[i] == ns[i]);
                    assert(f[i] == other_ns[i]);
                }
                assert(ns =~= other_ns);
            }
        }
    }
}

/// A secure read gives back the bytes last stored under the key.
pub proof fn lemma_secure_get_after_set<V>(pre: MemoryStore<V>, post: MemoryStore<V>, key: Seq<char>, value: Seq<u8>)
    requires
        post.secure_table() == pre.secure_table().insert(key, value),
    ensures
        lookup(post.secure_table(), key) == Some(value),
{
}

/// Reading a file gives back the bytes last written to it, and a listing of
/// its directory names it.
pub proof fn lemma_read_after_write_file<V>(
    pre: MemoryStore<V>,
    post: MemoryStore<V>,
    path: Seq<char>,
    data: Seq<u8>,
    dir: Seq<char>,
)
    requires
        post.file_table() == pre.file_table().insert(path, data),
    ensures
        lookup(post.file_table(), path) == Some(data),
        post.file_table().contains_key(path),
        dir_prefix(dir).is_prefix_of(path) ==> post.file_table().contains_key(path),
{
}

} // verus!
