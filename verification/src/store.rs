//! The key-value store that holds every table of the registry, and the layout
//! of the keys under which the tables live in it.

use cosmwasm_std::MemoryStorage;
use vstd::prelude::*;

verus! {

/// `cosmwasm_std::MemoryStorage`, a key-value store held in memory. Proofs
/// see nothing inside it: `store_contents` names what it holds.
#[verifier::external_type_specification]
#[verifier::external_body]
pub struct ExMemoryStorage(cosmwasm_std::MemoryStorage);

/// The entries of a store: each key that was written, with the bytes last
/// written under it.
pub uninterp spec fn store_contents(store: MemoryStorage) -> Map<Seq<u8>, Seq<u8>>;

/// What a store without entries holds.
pub open spec fn no_entries() -> Map<Seq<u8>, Seq<u8>> {
    Map::empty()
}

/// `MemoryStorage::new` of `cosmwasm_std`: a store without entries.
pub assume_specification[ cosmwasm_std::MemoryStorage::new ]() -> (fresh: MemoryStorage)
    ensures
        store_contents(fresh) == no_entries(),
;

/// `Storage::get` of `cosmwasm_std::MemoryStorage`: a copy of the bytes held
/// under `key`, or `None` where the store has no such key. The store itself
/// is left as it was.
#[verifier::external_body]
pub(crate) fn store_get(store: &MemoryStorage, key: &[u8]) -> (value: Option<Vec<u8>>)
    ensures
        value is Some <==> store_contents(*store).contains_key(key@),
        value is Some ==> value->0@ == store_contents(*store)[key@],
{
    cosmwasm_std::Storage::get(store, key)
}

/// `Storage::set` of `cosmwasm_std::MemoryStorage`: afterwards `key` holds
/// `value` and every other entry is untouched. The store refuses an empty
/// value by panicking, so callers must not pass one.
#[verifier::external_body]
pub(crate) fn store_set(store: &mut MemoryStorage, key: &[u8], value: &[u8])
    requires
        value@.len() > 0,
    ensures
        store_contents(*final(store)) == store_contents(*old(store)).insert(key@, value@),
{
    cosmwasm_std::Storage::set(store, key, value)
}

/// The prefix that sets one table apart from every other: the length of the
/// table's namespace as two bytes, high byte first, then the namespace.
pub open spec fn table_prefix(namespace: Seq<u8>) -> Seq<u8> {
    seq![(namespace.len() / 256) as u8, (namespace.len() % 256) as u8] + namespace
}

/// Keys of two tables with different namespaces differ, whatever follows
/// the prefix in each.
pub proof fn lemma_prefixes_apart(
    first: Seq<u8>,
    second: Seq<u8>,
    first_key: Seq<u8>,
    second_key: Seq<u8>,
)
    requires
        first.len() <= 0xFFFF,
        second.len() <= 0xFFFF,
        first != second,
    ensures
        table_prefix(first) + first_key != table_prefix(second) + second_key,
{
    let a = table_prefix(first) + first_key;
    let b = table_prefix(second) + second_key;
    if a == b {
        assert(a[0] == (first.len() / 256) as u8);
        assert(a[1] == (first.len() % 256) as u8);
        assert(b[0] == (second.len() / 256) as u8);
        assert(b[1] == (second.len() % 256) as u8);
        assert(first.len() == second.len());
        assert forall|i: int| 0 <= i < first.len() implies first[i] == second[i] by {
            assert(a[i + 2] == first[i]);
            assert(b[i + 2] == second[i]);
        }
        assert(first =~= second);
    }
}

/// `cosmwasm_storage::to_length_prefixed`: the namespace behind its own
/// length, written as two bytes with the high byte first. The outside
/// function panics on a namespace longer than 0xFFFF bytes.
#[verifier::external_body]
pub(crate) fn length_prefixed(namespace: &[u8]) -> (prefix: Vec<u8>)
    requires
        namespace@.len() <= 0xFFFF,
    ensures
        prefix@ == table_prefix(namespace@),
{
    cosmwasm_storage::to_length_prefixed(namespace)
}

} // verus!
