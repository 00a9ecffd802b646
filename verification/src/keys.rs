//! Byte-string storage keys and the partitioning of the flat key space.
//!
//! Every key that belongs to a module starts with a fixed marker byte,
//! followed by the eight little-endian bytes of the module's namespace
//! number, followed by the key the module itself chose. The keys the
//! execution engine reserves for itself all start with `:`, so a module key
//! can never collide with one of them.
//!
//! The engine keeps its state in a trie that counts a key in half bytes and
//! has room for counts up to 65535, and that writes the length of a value
//! in thirty-two bits. A longer key would not be found again and a longer
//! value cannot be written, so what is laid out at genesis is held to
//! [`MAX_KEY_LEN`] and [`MAX_VALUE_LEN`] bytes.
use vstd::prelude::*;
use vstd::bytes::{
    lemma_auto_spec_u64_to_from_le_bytes, spec_u64_from_le_bytes, spec_u64_to_le_bytes,
    u64_to_le_bytes,
};

verus! {

/// First byte of every key inside a module partition (ASCII `m`).
pub const PARTITION_MARKER: u8 = 0x6d;

/// How many bytes open every key of a partition: the marker and the
/// namespace number.
pub const PREFIX_LEN: usize = 9;

/// The longest flat key that a genesis image may hold.
pub const MAX_KEY_LEN: usize = 32767;

/// The longest item key that a genesis payload may hold: with the prefix in
/// front of it, it makes a flat key of [`MAX_KEY_LEN`] bytes.
pub const MAX_ITEM_LEN: usize = 32758;

/// The longest value that a genesis image may hold.
pub const MAX_VALUE_LEN: usize = 4294967295;

/// One key-value pair of a flat byte-string store.
#[derive(Debug, Clone, PartialEq, Eq)]
pub struct StorageEntry {
    pub key: Vec<u8>,
    pub value: Vec<u8>,
}

impl View for StorageEntry {
    type V = (Seq<u8>, Seq<u8>);

    open spec fn view(&self) -> (Seq<u8>, Seq<u8>) {
        (self.key@, self.value@)
    }
}

/// The key-value pairs that a list of entries stands for, in order.
pub open spec fn pairs_of(entries: Seq<StorageEntry>) -> Seq<(Seq<u8>, Seq<u8>)> {
    Seq::new(entries.len(), |i: int| entries[i]@)
}

/// The nine bytes that open every key of the partition `namespace`.
pub open spec fn namespace_prefix(namespace: u64) -> Seq<u8> {
    seq![PARTITION_MARKER] + spec_u64_to_le_bytes(namespace)
}

/// The flat key under which partition `namespace` stores its item `item`.
pub open spec fn storage_key(namespace: u64, item: Seq<u8>) -> Seq<u8> {
    namespace_prefix(namespace) + item
}

/// The bytes of `:child_storage:`, which open every key of a child trie.
pub open spec fn child_storage_prefix() -> Seq<u8> {
    seq![
        0x3au8, 0x63u8, 0x68u8, 0x69u8, 0x6cu8, 0x64u8, 0x5fu8, 0x73u8,
        0x74u8, 0x6fu8, 0x72u8, 0x61u8, 0x67u8, 0x65u8, 0x3au8,
    ]
}

/// Whether `key` lies in the part of the key space reserved for child tries.
pub open spec fn is_child_storage_key(key: Seq<u8>) -> bool {
    child_storage_prefix().is_prefix_of(key)
}

/// The bytes of `:heappages`.
pub open spec fn heap_pages_key() -> Seq<u8> {
    seq![0x3au8, 0x68u8, 0x65u8, 0x61u8, 0x70u8, 0x70u8, 0x61u8, 0x67u8, 0x65u8, 0x73u8]
}

/// The bytes of `:code`.
pub open spec fn code_key() -> Seq<u8> {
    seq![0x3au8, 0x63u8, 0x6fu8, 0x64u8, 0x65u8]
}

/// The byte string `:heappages`.
pub fn heap_pages_key_bytes() -> (key: Vec<u8>)
    ensures
        key@ == heap_pages_key(),
{
    let key: Vec<u8> = vec![
        0x3au8, 0x68u8, 0x65u8, 0x61u8, 0x70u8, 0x70u8, 0x61u8, 0x67u8, 0x65u8, 0x73u8,
    ];
    assert(key@ =~= heap_pages_key());
    key
}

/// The byte string `:code`.
pub fn code_key_bytes() -> (key: Vec<u8>)
    ensures
        key@ == code_key(),
{
    let key: Vec<u8> = vec![0x3au8, 0x63u8, 0x6fu8, 0x64u8, 0x65u8];
    assert(key@ =~= code_key());
    key
}

/// Whether two byte strings hold the same bytes.
pub fn bytes_eq(a: &Vec<u8>, b: &Vec<u8>) -> (same: bool)
    ensures
        same == (a@ == b@),
{
    if a.len() != b.len() {
        return false;
    }
    let mut i: usize = 0;
    while i < a.len()
        invariant
            i <= a.len(),
            a.len() == b.len(),
            forall|j: int| 0 <= j < i ==> a@[j] == b@[j],
        decreases a.len() - i,
    {
        if a[i] != b[i] {
            return false;
        }
        i += 1;
    }
    assert(a@ =~= b@);
    true
}

/// A fresh copy of a byte string.
pub fn copy_bytes(source: &Vec<u8>) -> (copy: Vec<u8>)
    ensures
        copy@ == source@,
{
    let mut copy: Vec<u8> = Vec::new();
    let mut i: usize = 0;
    while i < source.len()
        invariant
            i <= source.len(),
            copy@ == source@.subrange(0, i as int),
        decreases source.len() - i,
    {
        copy.push(source[i]);
        assert(copy@ =~= source@.subrange(0, i + 1));
        i += 1;
    }
    assert(source@.subrange(0, source.len() as int) =~= source@);
    copy
}

/// The byte string `:child_storage:`.
pub fn child_storage_prefix_bytes() -> (prefix: Vec<u8>)
    ensures
        prefix@ == child_storage_prefix(),
{
    let prefix: Vec<u8> = vec![
        0x3au8, 0x63u8, 0x68u8, 0x69u8, 0x6cu8, 0x64u8, 0x5fu8, 0x73u8,
        0x74u8, 0x6fu8, 0x72u8, 0x61u8, 0x67u8, 0x65u8, 0x3au8,
    ];
    assert(prefix@ =~= child_storage_prefix());
    prefix
}

/// Whether `key` starts with `:child_storage:`.
pub fn has_child_storage_prefix(key: &Vec<u8>) -> (reserved: bool)
    ensures
        reserved == is_child_storage_key(key@),
{
    let prefix = child_storage_prefix_bytes();
    if key.len() < prefix.len() {
        return false;
    }
    let mut i: usize = 0;
    while i < prefix.len()
        invariant
            i <= prefix.len(),
            prefix.len() <= key.len(),
            prefix@ == child_storage_prefix(),
            forall|j: int| 0 <= j < i ==> key@[j] == prefix@[j],
        decreases prefix.len() - i,
    {
        if key[i] != prefix[i] {
            assert(key@.subrange(0, prefix@.len() as int)[i as int] != prefix@[i as int]);
            return false;
        }
        i += 1;
    }
    assert(key@.subrange(0, prefix@.len() as int) =~= prefix@);
    true
}

/// Whether the key of entry `j` already occurs in an earlier entry.
pub open spec fn key_seen_before(entries: Seq<StorageEntry>, j: int) -> bool {
    exists|i: int| 0 <= i < j && #[trigger] entries[i].key@ == entries[j].key@
}

/// Whether no key occurs in two entries.
pub open spec fn distinct_keys(entries: Seq<StorageEntry>) -> bool {
    forall|j: int| 0 <= j < entries.len() ==> !#[trigger] key_seen_before(entries, j)
}

/// Whether `key` occurs among the first `limit` entries.
fn key_among_first(entries: &Vec<StorageEntry>, limit: usize, key: &Vec<u8>) -> (found: bool)
    requires
        limit <= entries.len(),
    ensures
        found == exists|i: int| 0 <= i < limit && #[trigger] entries@[i].key@ == key@,
{
    let mut i: usize = 0;
    while i < limit
        invariant
            i <= limit <= entries.len(),
            forall|k: int| 0 <= k < i ==> #[trigger] entries@[k].key@ != key@,
        decreases limit - i,
    {
        if bytes_eq(&entries[i].key, key) {
            return true;
        }
        i += 1;
    }
    false
}

/// The position of the first entry whose key repeats an earlier one.
pub fn first_repeated_key(entries: &Vec<StorageEntry>) -> (found: Option<usize>)
    ensures
        match found {
            Some(j) => {
                &&& j < entries.len()
                &&& key_seen_before(entries@, j as int)
                &&& forall|k: int| 0 <= k < j ==> !#[trigger] key_seen_before(entries@, k)
            },
            None => distinct_keys(entries@),
        },
{
    let mut j: usize = 0;
    while j < entries.len()
        invariant
            j <= entries.len(),
            forall|k: int| 0 <= k < j ==> !#[trigger] key_seen_before(entries@, k),
        decreases entries.len() - j,
    {
        if key_among_first(entries, j, &entries[j].key) {
            return Some(j);
        }
        j += 1;
    }
    None
}

/// Whether the key of entry `j` is short enough for a genesis payload.
pub open spec fn key_fits(entries: Seq<StorageEntry>, j: int) -> bool {
    entries[j].key@.len() <= MAX_ITEM_LEN
}

/// Whether the value of entry `j` is short enough for a genesis payload.
pub open spec fn value_fits(entries: Seq<StorageEntry>, j: int) -> bool {
    entries[j].value@.len() <= MAX_VALUE_LEN
}

/// Whether entry `j` can be stored: neither its key nor its value is too
/// long.
pub open spec fn entry_fits(entries: Seq<StorageEntry>, j: int) -> bool {
    key_fits(entries, j) && value_fits(entries, j)
}

/// Whether every entry can be stored.
pub open spec fn entries_fit(entries: Seq<StorageEntry>) -> bool {
    forall|j: int| 0 <= j < entries.len() ==> #[trigger] entry_fits(entries, j)
}

/// The position of the first entry whose key or value is too long for a
/// genesis payload.
pub fn first_oversized_entry(entries: &Vec<StorageEntry>) -> (found: Option<usize>)
    ensures
        match found {
            Some(j) => {
                &&& j < entries.len()
                &&& !entry_fits(entries@, j as int)
                &&& forall|k: int| 0 <= k < j ==> #[trigger] entry_fits(entries@, k)
            },
            None => entries_fit(entries@),
        },
{
    let mut j: usize = 0;
    while j < entries.len()
        invariant
            j <= entries.len(),
            forall|k: int| 0 <= k < j ==> #[trigger] entry_fits(entries@, k),
        decreases entries.len() - j,
    {
        if entries[j].key.len() > MAX_ITEM_LEN || entries[j].value.len() > MAX_VALUE_LEN {
            return Some(j);
        }
        j += 1;
    }
    None
}

/// The flat key of item `item` in partition `namespace`.
pub fn make_storage_key(namespace: u64, item: &Vec<u8>) -> (key: Vec<u8>)
    ensures
        key@ == storage_key(namespace, item@),
{
    let mut key: Vec<u8> = Vec::new();
    key.push(PARTITION_MARKER);
    let mut number = u64_to_le_bytes(namespace);
    key.append(&mut number);
    assert(key@ =~= namespace_prefix(namespace));
    let mut i: usize = 0;
    while i < item.len()
        invariant
            i <= item.len(),
            key@ == namespace_prefix(namespace) + item@.subrange(0, i as int),
        decreases item.len() - i,
    {
        key.push(item[i]);
        assert(key@ =~= namespace_prefix(namespace) + item@.subrange(0, i + 1));
        i += 1;
    }
    assert(item@.subrange(0, item.len() as int) =~= item@);
    key
}

/// A partition key determines both its namespace and the item it names.
pub proof fn lemma_storage_key_injective(n1: u64, item1: Seq<u8>, n2: u64, item2: Seq<u8>)
    requires
        storage_key(n1, item1) == storage_key(n2, item2),
    ensures
        n1 == n2,
        item1 == item2,
{
    lemma_auto_spec_u64_to_from_le_bytes();
    let k1 = storage_key(n1, item1);
    let k2 = storage_key(n2, item2);
    let b1 = spec_u64_to_le_bytes(n1);
    let b2 = spec_u64_to_le_bytes(n2);
    assert(k1.subrange(1, 9) =~= b1);
    assert(k2.subrange(1, 9) =~= b2);
    assert(spec_u64_from_le_bytes(b1) == n1);
    assert(spec_u64_from_le_bytes(b2) == n2);
    assert(k1.subrange(9, k1.len() as int) =~= item1);
    assert(k2.subrange(9, k2.len() as int) =~= item2);
}

/// No partition key is one of the keys the execution engine keeps for itself.
pub proof fn lemma_storage_key_not_reserved(namespace: u64, item: Seq<u8>)
    ensures
        storage_key(namespace, item).len() == PREFIX_LEN + item.len(),
        storage_key(namespace, item)[0] == PARTITION_MARKER,
        !is_child_storage_key(storage_key(namespace, item)),
        storage_key(namespace, item) != heap_pages_key(),
        storage_key(namespace, item) != code_key(),
{
    lemma_auto_spec_u64_to_from_le_bytes();
    let key = storage_key(namespace, item);
    assert(key[0] == PARTITION_MARKER);
    assert(child_storage_prefix()[0] == 0x3au8);
    assert(heap_pages_key()[0] == 0x3au8);
    assert(code_key()[0] == 0x3au8);
    if is_child_storage_key(key) {
        assert(key.subrange(0, 15)[0] == child_storage_prefix()[0]);
    }
}

/// The two keys the engine fills on its own are no keys of a child trie.
pub proof fn lemma_engine_keys_are_top_level()
    ensures
        !is_child_storage_key(heap_pages_key()),
        !is_child_storage_key(code_key()),
        heap_pages_key() != code_key(),
{
    assert(heap_pages_key().len() < child_storage_prefix().len());
    assert(code_key().len() < child_storage_prefix().len());
    assert(heap_pages_key().len() != code_key().len());
}

} // verus!
