//! Name records, their content hash, and the registry of one namespace: a
//! table of current records by name and a table of earlier versions by the
//! hash of each.

use crate::codec::{
    framed_opt_text, framed_text, lemma_encode_utf8_concat, lemma_encode_utf8_injective,
    lemma_take_opt_text, lemma_take_text, opt_text, opt_text_fits, put_opt_text, put_text,
    read_opt_text, read_text, take_opt_text, take_text, text_fits,
};
use crate::digest::{
    base32_bytes, base32_decode, base32_encode, base32_text, canonical_form, canonical_join,
    debug_text, is_base32_of, sha256, sha2_256, show_opt_text,
};
use crate::error::RegistryError;
use crate::laws::{
    extends_histories, holds_history, law_change_extends_histories, law_history_begins,
    law_one_change, store_after, Change,
};
use crate::store::{
    lemma_prefixes_apart, length_prefixed, store_contents, store_get, store_set, table_prefix,
};
use cosmwasm_std::MemoryStorage;
use vstd::prelude::*;
use vstd::string::StringExecFns;
use vstd::utf8::*;

verus! {

/// The longest value that a name may carry, in bytes.
pub const MAX_VALUE_LEN: usize = 256;

/// One version of a name: who controls it, what it points to, and the hash
/// of the version that it replaced.
#[derive(Debug, PartialEq, Eq)]
pub struct NameRecord {
    pub owner: String,
    pub value: Option<String>,
    pub lineage: Option<String>,
}

/// A record as contracts see it.
pub struct NameRecordView {
    pub owner: Seq<char>,
    pub value: Option<Seq<char>>,
    pub lineage: Option<Seq<char>>,
}

impl View for NameRecord {
    type V = NameRecordView;

    open spec fn view(&self) -> NameRecordView {
        NameRecordView {
            owner: self.owner@,
            value: opt_text(self.value),
            lineage: opt_text(self.lineage),
        }
    }
}

impl NameRecordView {
    /// The record of a name that was just registered.
    pub open spec fn initial(owner: Seq<char>) -> NameRecordView {
        NameRecordView { owner, value: None, lineage: None }
    }

    /// Whether each text of the record is short enough to be framed. The
    /// view of every `NameRecord` is.
    pub open spec fn fits(self) -> bool {
        text_fits(self.owner) && opt_text_fits(self.value) && opt_text_fits(self.lineage)
    }

    /// The text over which the record is hashed.
    pub open spec fn canonical_text(self) -> Seq<char> {
        canonical_join(self.owner, debug_text(self.value), debug_text(self.lineage))
    }

    /// The content hash of the record.
    pub open spec fn digest(self) -> Seq<u8> {
        sha2_256(encode_utf8(self.canonical_text()))
    }

    /// The content hash of the record as a successor quotes it.
    pub open spec fn lineage_text(self) -> Seq<char> {
        base32_text(self.digest())
    }

    /// The bytes under which the record is kept in the store.
    pub open spec fn framed(self) -> Seq<u8> {
        framed_text(self.owner) + framed_opt_text(self.value) + framed_opt_text(self.lineage)
    }

    /// The version that follows this one when the value changes.
    pub open spec fn with_value(self, value: Option<Seq<char>>) -> NameRecordView {
        NameRecordView { owner: self.owner, value, lineage: Some(self.lineage_text()) }
    }

    /// The version that follows this one when the owner changes.
    pub open spec fn with_owner(self, owner: Seq<char>) -> NameRecordView {
        NameRecordView { owner, value: self.value, lineage: Some(self.lineage_text()) }
    }
}

/// The record that a byte sequence holds, if it is one record in the
/// registry's framing and nothing more.
pub open spec fn parse_record(bytes: Seq<u8>) -> Option<NameRecordView> {
    match take_text(bytes) {
        Some((owner, rest)) => match take_opt_text(rest) {
            Some((value, rest)) => match take_opt_text(rest) {
                Some((lineage, rest)) => if rest.len() == 0 {
                    Some(NameRecordView { owner, value, lineage })
                } else {
                    None
                },
                None => None,
            },
            None => None,
        },
        None => None,
    }
}

/// What was framed parses back to the same record.
pub proof fn lemma_parse_framed_record(record: NameRecordView)
    requires
        record.fits(),
    ensures
        parse_record(record.framed()) == Some(record),
        record.framed().len() > 0,
{
    let tail2 = framed_opt_text(record.lineage);
    let tail1 = framed_opt_text(record.value) + tail2;
    assert(record.framed() =~= framed_text(record.owner) + tail1);
    lemma_take_text(record.owner, tail1);
    lemma_take_opt_text(record.value, tail2);
    assert(tail2 =~= tail2 + Seq::<u8>::empty());
    lemma_take_opt_text(record.lineage, Seq::<u8>::empty());
}

impl Clone for NameRecord {
    fn clone(&self) -> (copy: Self)
        ensures
            copy@ == self@,
    {
        NameRecord {
            owner: self.owner.clone(),
            value: clone_opt_text(&self.value),
            lineage: clone_opt_text(&self.lineage),
        }
    }
}

/// A copy of an optional text.
pub fn clone_opt_text(text: &Option<String>) -> (copy: Option<String>)
    ensures
        opt_text(copy) == opt_text(*text),
{
    match text {
        Some(t) => Some(t.clone()),
        None => None,
    }
}

impl NameRecord {
    /// The record of a name that was just registered to `owner`.
    pub fn initial(owner: &String) -> (record: NameRecord)
        ensures
            record@ == NameRecordView::initial(owner@),
    {
        NameRecord { owner: owner.clone(), value: None, lineage: None }
    }

    /// The content hash of the record: the SHA-256 digest of its canonical
    /// text, 32 bytes long.
    pub fn hash(&self) -> (digest: Vec<u8>)
        ensures
            digest@ == self@.digest(),
            digest@.len() == 32,
    {
        let value_shown = show_opt_text(&self.value);
        let lineage_shown = show_opt_text(&self.lineage);
        let text = canonical_form(
            self.owner.as_str(),
            value_shown.as_str(),
            lineage_shown.as_str(),
        );
        sha256(text.as_str().as_bytes())
    }

    /// The version that follows this one when the value changes:
    /// `predecessor` is this record's hash in base 32.
    pub fn succeed_with_value(&self, value: Option<String>, predecessor: String) -> (next:
        NameRecord)
        ensures
            next@ == (NameRecordView {
                owner: self@.owner,
                value: opt_text(value),
                lineage: Some(predecessor@),
            }),
    {
        NameRecord { owner: self.owner.clone(), value, lineage: Some(predecessor) }
    }

    /// The version that follows this one when the owner changes:
    /// `predecessor` is this record's hash in base 32.
    pub fn succeed_with_owner(&self, owner: String, predecessor: String) -> (next: NameRecord)
        ensures
            next@ == (NameRecordView {
                owner: owner@,
                value: self@.value,
                lineage: Some(predecessor@),
            }),
    {
        NameRecord { owner, value: clone_opt_text(&self.value), lineage: Some(predecessor) }
    }

    /// The bytes under which the record is kept in the store.
    pub fn to_bytes(&self) -> (bytes: Vec<u8>)
        ensures
            bytes@ == self@.framed(),
            parse_record(bytes@) == Some(self@),
            bytes@.len() > 0,
            self@.fits(),
    {
        let mut bytes: Vec<u8> = Vec::new();
        put_text(&mut bytes, self.owner.as_str());
        put_opt_text(&mut bytes, &self.value);
        put_opt_text(&mut bytes, &self.lineage);
        proof {
            assert(bytes@ =~= self@.framed());
            lemma_parse_framed_record(self@);
        }
        bytes
    }

    /// Reads a record back from the bytes kept in the store.
    pub fn from_bytes(bytes: &[u8]) -> (record: Option<NameRecord>)
        ensures
            match record {
                Some(r) => parse_record(bytes@) == Some(r@),
                None => parse_record(bytes@) is None,
            },
    {
        assert(bytes@.skip(0) =~= bytes@);
        let (owner, pos) = match read_text(bytes, 0) {
            Some(found) => found,
            None => { return None; },
        };
        let (value, pos) = match read_opt_text(bytes, pos) {
            Some(found) => found,
            None => { return None; },
        };
        let (lineage, pos) = match read_opt_text(bytes, pos) {
            Some(found) => found,
            None => { return None; },
        };
        if pos != bytes.len() {
            return None;
        }
        Some(NameRecord { owner, value, lineage })
    }
}

/// The namespace of the table that holds the current record of each name.
pub open spec fn name_namespace(tld: Seq<char>) -> Seq<u8> {
    encode_utf8(tld + "_name_registry"@)
}

/// The namespace of the table that holds the earlier versions.
pub open spec fn lineage_namespace(tld: Seq<char>) -> Seq<u8> {
    encode_utf8(tld + "_name_lineage"@)
}

/// Whether the namespaces of a top-level namespace fit the key layout, which
/// writes the length of a namespace in two bytes.
pub open spec fn tld_fits(tld: Seq<char>) -> bool {
    encode_utf8(tld).len() + 14 <= 0xFFFF
}

/// The key of a name's current record.
pub open spec fn name_key(tld: Seq<char>, name: Seq<char>) -> Seq<u8> {
    table_prefix(name_namespace(tld)) + encode_utf8(name)
}

/// The key of the archived record with the given content hash.
pub open spec fn lineage_key(tld: Seq<char>, digest: Seq<u8>) -> Seq<u8> {
    table_prefix(lineage_namespace(tld)) + digest
}

/// How long the two namespaces of a top-level namespace are.
pub proof fn lemma_namespace_len(tld: Seq<char>)
    ensures
        name_namespace(tld).len() == encode_utf8(tld).len() + 14,
        lineage_namespace(tld).len() == encode_utf8(tld).len() + 13,
{
    reveal_strlit("_name_registry");
    reveal_strlit("_name_lineage");
    lemma_encode_utf8_concat(tld, "_name_registry"@);
    lemma_encode_utf8_concat(tld, "_name_lineage"@);
    is_ascii_chars_encode_utf8("_name_registry"@);
    is_ascii_chars_encode_utf8("_name_lineage"@);
}

/// No key of the name table is a key of the table of earlier versions.
pub proof fn lemma_tables_apart(tld: Seq<char>, name: Seq<char>, digest: Seq<u8>)
    requires
        tld_fits(tld),
    ensures
        name_key(tld, name) != lineage_key(tld, digest),
{
    lemma_namespace_len(tld);
    let a = name_key(tld, name);
    let b = lineage_key(tld, digest);
    let n = encode_utf8(tld).len() as int;
    assert(a[0] == ((n + 14) / 256) as u8);
    assert(a[1] == ((n + 14) % 256) as u8);
    assert(b[0] == ((n + 13) / 256) as u8);
    assert(b[1] == ((n + 13) % 256) as u8);
    assert(a[0] != b[0] || a[1] != b[1]);
}

/// The tables of two different top-level namespaces have different
/// namespaces, and no name table shares its namespace with a table of
/// earlier versions.
pub proof fn lemma_namespaces_apart(first: Seq<char>, second: Seq<char>)
    ensures
        first != second ==> name_namespace(first) != name_namespace(second),
        first != second ==> lineage_namespace(first) != lineage_namespace(second),
        name_namespace(first) != lineage_namespace(second),
{
    reveal_strlit("_name_registry");
    reveal_strlit("_name_lineage");
    let names = "_name_registry"@;
    let lineages = "_name_lineage"@;
    if name_namespace(first) == name_namespace(second) {
        lemma_encode_utf8_injective(first + names, second + names);
        assert((first + names).len() == (second + names).len());
        assert((first + names).take(first.len() as int) =~= first);
        assert((second + names).take(second.len() as int) =~= second);
    }
    if lineage_namespace(first) == lineage_namespace(second) {
        lemma_encode_utf8_injective(first + lineages, second + lineages);
        assert((first + lineages).len() == (second + lineages).len());
        assert((first + lineages).take(first.len() as int) =~= first);
        assert((second + lineages).take(second.len() as int) =~= second);
    }
    if name_namespace(first) == lineage_namespace(second) {
        lemma_encode_utf8_injective(first + names, second + lineages);
        assert((first + names).last() == 'y');
        assert((second + lineages).last() == 'e');
    }
}

/// The key of the settings is no key of either table of a namespace.
pub proof fn lemma_settings_key_apart(tld: Seq<char>, rest: Seq<u8>)
    requires
        tld_fits(tld),
    ensures
        table_prefix(name_namespace(tld)) + rest != table_prefix(encode_utf8("config"@)),
        table_prefix(lineage_namespace(tld)) + rest != table_prefix(encode_utf8("config"@)),
{
    reveal_strlit("config");
    is_ascii_chars_encode_utf8("config"@);
    lemma_namespace_len(tld);
    let settings = encode_utf8("config"@);
    assert(table_prefix(settings) =~= table_prefix(settings) + Seq::<u8>::empty());
    lemma_prefixes_apart(name_namespace(tld), settings, rest, Seq::<u8>::empty());
    lemma_prefixes_apart(lineage_namespace(tld), settings, rest, Seq::<u8>::empty());
}

/// Two content hashes with the same key are the same hash.
pub proof fn lemma_lineage_key_injective(tld: Seq<char>, first: Seq<u8>, second: Seq<u8>)
    requires
        lineage_key(tld, first) == lineage_key(tld, second),
    ensures
        first == second,
{
    let prefix = table_prefix(lineage_namespace(tld));
    assert((prefix + first).skip(prefix.len() as int) =~= first);
    assert((prefix + second).skip(prefix.len() as int) =~= second);
}

/// Two names with the same key are the same name.
pub proof fn lemma_name_key_injective(tld: Seq<char>, first: Seq<char>, second: Seq<char>)
    requires
        name_key(tld, first) == name_key(tld, second),
    ensures
        first == second,
{
    let prefix = table_prefix(name_namespace(tld));
    assert((prefix + encode_utf8(first)).skip(prefix.len() as int) =~= encode_utf8(first));
    assert((prefix + encode_utf8(second)).skip(prefix.len() as int) =~= encode_utf8(second));
    lemma_encode_utf8_injective(first, second);
}

/// What the store holds under `key`, read as a record; `missing` is the
/// error for a key that the store lacks.
pub open spec fn stored_record(
    contents: Map<Seq<u8>, Seq<u8>>,
    key: Seq<u8>,
    missing: RegistryError,
) -> Result<NameRecordView, RegistryError> {
    if !contents.contains_key(key) {
        Err(missing)
    } else {
        match parse_record(contents[key]) {
            Some(record) => Ok(record),
            None => Err(RegistryError::CorruptEntry),
        }
    }
}

/// Whether the name table of `tld` has an entry for `name`.
pub open spec fn is_registered(
    contents: Map<Seq<u8>, Seq<u8>>,
    tld: Seq<char>,
    name: Seq<char>,
) -> bool {
    contents.contains_key(name_key(tld, name))
}

/// The current record of `name`.
pub open spec fn resolved_name(
    contents: Map<Seq<u8>, Seq<u8>>,
    tld: Seq<char>,
    name: Seq<char>,
) -> Result<NameRecordView, RegistryError> {
    stored_record(contents, name_key(tld, name), RegistryError::NameNotFound)
}

/// The archived record that a lineage reference points to.
pub open spec fn resolved_lineage(
    contents: Map<Seq<u8>, Seq<u8>>,
    tld: Seq<char>,
    lineage: Seq<char>,
) -> Result<NameRecordView, RegistryError> {
    match base32_bytes(lineage) {
        Some(digest) => stored_record(
            contents,
            lineage_key(tld, digest),
            RegistryError::LineageNotFound,
        ),
        None => Err(RegistryError::MalformedLineage),
    }
}

/// The store after `name` was registered to `owner`.
pub open spec fn after_register(
    contents: Map<Seq<u8>, Seq<u8>>,
    tld: Seq<char>,
    name: Seq<char>,
    owner: Seq<char>,
) -> Map<Seq<u8>, Seq<u8>> {
    contents.insert(name_key(tld, name), NameRecordView::initial(owner).framed())
}

/// The store after the current record of `name` was replaced by `next`: the
/// bytes of the replaced record are kept under its content hash, and `next`
/// is the current record.
pub open spec fn after_supersede(
    contents: Map<Seq<u8>, Seq<u8>>,
    tld: Seq<char>,
    name: Seq<char>,
    next: NameRecordView,
) -> Map<Seq<u8>, Seq<u8>> {
    let key = name_key(tld, name);
    let current = parse_record(contents[key])->0;
    contents.insert(lineage_key(tld, current.digest()), contents[key]).insert(key, next.framed())
}

/// Whether a value is longer than a name may carry.
pub open spec fn value_too_long(value: Option<Seq<char>>) -> bool {
    value is Some && encode_utf8(value->0).len() > MAX_VALUE_LEN
}

/// What `try_set_value` returns.
pub open spec fn set_value_result(
    contents: Map<Seq<u8>, Seq<u8>>,
    tld: Seq<char>,
    name: Seq<char>,
    value: Option<Seq<char>>,
) -> Result<NameRecordView, RegistryError> {
    if value_too_long(value) {
        Err(RegistryError::ValueTooLong)
    } else {
        match resolved_name(contents, tld, name) {
            Ok(current) => Ok(current.with_value(value)),
            Err(e) => Err(e),
        }
    }
}

/// What `try_set_owner` returns.
pub open spec fn set_owner_result(
    contents: Map<Seq<u8>, Seq<u8>>,
    tld: Seq<char>,
    name: Seq<char>,
    owner: Seq<char>,
) -> Result<NameRecordView, RegistryError> {
    match resolved_name(contents, tld, name) {
        Ok(current) => Ok(current.with_owner(owner)),
        Err(e) => Err(e),
    }
}

/// The store after a change that ended in `result`: untouched by a failure,
/// and with the new version in place of the old after a success.
pub open spec fn after_change(
    contents: Map<Seq<u8>, Seq<u8>>,
    tld: Seq<char>,
    name: Seq<char>,
    result: Result<NameRecordView, RegistryError>,
) -> Map<Seq<u8>, Seq<u8>> {
    match result {
        Ok(next) => after_supersede(contents, tld, name, next),
        Err(_) => contents,
    }
}

/// Whether a text has the shape of a lineage reference: the unpadded base 32
/// text of a hash of 32 bytes, which is 52 characters long.
pub open spec fn is_lineage_reference(text: Seq<char>) -> bool {
    is_base32_of(text, 32)
}

/// Whether, in a store, `next` is the current record of `name` and points
/// back to `replaced`: its lineage reference has the shape of one, stands
/// for the content hash of `replaced`, and resolving it gives `replaced`.
pub open spec fn links_back(
    contents: Map<Seq<u8>, Seq<u8>>,
    tld: Seq<char>,
    name: Seq<char>,
    replaced: NameRecordView,
    next: NameRecordView,
) -> bool {
    &&& resolved_name(contents, tld, name) == Ok::<NameRecordView, RegistryError>(next)
    &&& next.lineage is Some
    &&& is_lineage_reference(next.lineage->0)
    &&& base32_bytes(next.lineage->0) == Some(replaced.digest())
    &&& resolved_lineage(contents, tld, next.lineage->0) == Ok::<NameRecordView, RegistryError>(
        replaced,
    )
}

/// A result with the record in it seen as contracts see it.
pub open spec fn record_result(result: Result<NameRecord, RegistryError>) -> Result<
    NameRecordView,
    RegistryError,
> {
    match result {
        Ok(record) => Ok(record@),
        Err(e) => Err(e),
    }
}

/// The registry of one top-level namespace.
pub struct NameRegistry<'a> {
    name_registry_key: String,
    name_lineage_key: String,
    tld: &'a String,
}

impl<'a> NameRegistry<'a> {
    /// The top-level namespace that this registry serves.
    pub closed spec fn tld(&self) -> Seq<char> {
        self.tld@
    }

    #[verifier::type_invariant]
    spec fn well_formed(&self) -> bool {
        &&& tld_fits(self.tld@)
        &&& self.name_registry_key@ == self.tld@ + "_name_registry"@
        &&& self.name_lineage_key@ == self.tld@ + "_name_lineage"@
    }

    /// The registry of `tld`. The namespace must be short enough for the key
    /// layout: 65521 bytes at most.
    pub fn new(tld: &'a String) -> (registry: Self)
        requires
            tld_fits(tld@),
        ensures
            registry.tld() == tld@,
    {
        let mut name_registry_key = tld.clone();
        name_registry_key.append("_name_registry");
        let mut name_lineage_key = tld.clone();
        name_lineage_key.append("_name_lineage");
        NameRegistry { name_registry_key, name_lineage_key, tld }
    }

    /// Returns true if the name has been registered.
    pub fn name_is_registered(&self, storage: &MemoryStorage, name: &String) -> (registered: bool)
        ensures
            registered == is_registered(store_contents(*storage), self.tld(), name@),
    {
        let key = self.get_registry_key(name);
        store_get(storage, key.as_slice()).is_some()
    }

    /// The current record of a name. Fails with `NameNotFound` where the name
    /// is not registered, and with `CorruptEntry` where the bytes kept for it
    /// are no record.
    pub fn try_resolve_name(&self, storage: &MemoryStorage, name: &String) -> (result: Result<
        NameRecord,
        RegistryError,
    >)
        ensures
            record_result(result) == resolved_name(store_contents(*storage), self.tld(), name@),
    {
        let key = self.get_registry_key(name);
        match load_record(storage, key.as_slice(), RegistryError::NameNotFound) {
            Ok((record, _)) => Ok(record),
            Err(e) => Err(e),
        }
    }

    /// The archived record that a lineage reference points to. Fails with
    /// `MalformedLineage` where the reference is no base 32 text, with
    /// `LineageNotFound` where nothing is kept under the hash, and with
    /// `CorruptEntry` where the bytes kept under it are no record.
    pub fn try_resolve_lineage(&self, storage: &MemoryStorage, lineage: &String) -> (result:
        Result<NameRecord, RegistryError>)
        ensures
            record_result(result) == resolved_lineage(
                store_contents(*storage),
                self.tld(),
                lineage@,
            ),
    {
        match base32_decode(lineage.as_str()) {
            Some(digest) => self.try_resolve_hash(storage, digest.as_slice()),
            None => Err(RegistryError::MalformedLineage),
        }
    }

    /// The archived record that is kept under a content hash. Fails with
    /// `LineageNotFound` where nothing is kept under the hash, and with
    /// `CorruptEntry` where the bytes kept under it are no record.
    pub fn try_resolve_hash(&self, storage: &MemoryStorage, digest: &[u8]) -> (result: Result<
        NameRecord,
        RegistryError,
    >)
        ensures
            record_result(result) == stored_record(
                store_contents(*storage),
                lineage_key(self.tld(), digest@),
                RegistryError::LineageNotFound,
            ),
    {
        let key = self.get_lineage_key(digest);
        match load_record(storage, key.as_slice(), RegistryError::LineageNotFound) {
            Ok((record, _)) => Ok(record),
            Err(e) => Err(e),
        }
    }

    /// Hands a name to a new owner. The record that was current is kept
    /// under its hash, and the new record points back to it. Who may do
    /// this is for the caller to decide. The store afterwards is the store
    /// after this one change, which is how the laws on whole histories
    /// speak of it, and every history of the name that the store held is one
    /// version longer.
    pub fn try_set_owner(
        &mut self,
        storage: &mut MemoryStorage,
        name: &String,
        owner: String,
    ) -> (result: Result<NameRecord, RegistryError>)
        ensures
            final(self).tld() == old(self).tld(),
            record_result(result) == set_owner_result(
                store_contents(*old(storage)),
                old(self).tld(),
                name@,
                owner@,
            ),
            store_contents(*final(storage)) == after_change(
                store_contents(*old(storage)),
                old(self).tld(),
                name@,
                record_result(result),
            ),
            result is Err ==> store_contents(*final(storage)) == store_contents(*old(storage)),
            result is Ok ==> links_back(
                store_contents(*final(storage)),
                old(self).tld(),
                name@,
                resolved_name(store_contents(*old(storage)), old(self).tld(), name@)->Ok_0,
                result->Ok_0@,
            ),
            store_contents(*final(storage)) == store_after(
                store_contents(*old(storage)),
                old(self).tld(),
                name@,
                seq![Change::Owner(owner@)],
            ),
            result is Ok ==> extends_histories(
                store_contents(*old(storage)),
                store_contents(*final(storage)),
                old(self).tld(),
                name@,
                Change::Owner(owner@),
            ),
    {
        let ghost change = Change::Owner(owner@);
        proof {
            use_type_invariant(&*self);
            law_one_change(store_contents(*old(storage)), self.tld(), name@, change);
        }
        let (current, stored) = self.load_current(storage, name)?;
        let old_hash = current.hash();
        let next = current.succeed_with_owner(owner, base32_encode(old_hash.as_slice()));
        self.try_save_record(
            storage,
            name,
            &current,
            old_hash.as_slice(),
            stored.as_slice(),
            &next,
        );
        proof {
            law_change_extends_histories(
                store_contents(*old(storage)),
                self.tld(),
                name@,
                change,
            );
        }
        Ok(next)
    }

    /// Gives a name a new value, or none. The record that was current is
    /// kept under its hash, and the new record points back to it. Fails with
    /// `ValueTooLong`, before anything is read, where the value is longer
    /// than 256 bytes. Who may do this is for the caller to decide. The
    /// store afterwards is the store after this one change, which is how
    /// the laws on whole histories speak of it, and every history of the
    /// name that the store held is one version longer.
    pub fn try_set_value(
        &mut self,
        storage: &mut MemoryStorage,
        name: &String,
        value: Option<String>,
    ) -> (result: Result<NameRecord, RegistryError>)
        ensures
            final(self).tld() == old(self).tld(),
            record_result(result) == set_value_result(
                store_contents(*old(storage)),
                old(self).tld(),
                name@,
                opt_text(value),
            ),
            store_contents(*final(storage)) == after_change(
                store_contents(*old(storage)),
                old(self).tld(),
                name@,
                record_result(result),
            ),
            result is Err ==> store_contents(*final(storage)) == store_contents(*old(storage)),
            value_too_long(opt_text(value)) ==> result == Err::<NameRecord, RegistryError>(
                RegistryError::ValueTooLong,
            ),
            result is Ok ==> links_back(
                store_contents(*final(storage)),
                old(self).tld(),
                name@,
                resolved_name(store_contents(*old(storage)), old(self).tld(), name@)->Ok_0,
                result->Ok_0@,
            ),
            store_contents(*final(storage)) == store_after(
                store_contents(*old(storage)),
                old(self).tld(),
                name@,
                seq![Change::Value(opt_text(value))],
            ),
            result is Ok ==> extends_histories(
                store_contents(*old(storage)),
                store_contents(*final(storage)),
                old(self).tld(),
                name@,
                Change::Value(opt_text(value)),
            ),
    {
        let ghost change = Change::Value(opt_text(value));
        proof {
            use_type_invariant(&*self);
            law_one_change(store_contents(*old(storage)), self.tld(), name@, change);
        }
        if exceeds_max_len(&value) {
            return Err(RegistryError::ValueTooLong);
        }
        let (current, stored) = self.load_current(storage, name)?;
        let old_hash = current.hash();
        let next = current.succeed_with_value(value, base32_encode(old_hash.as_slice()));
        self.try_save_record(
            storage,
            name,
            &current,
            old_hash.as_slice(),
            stored.as_slice(),
            &next,
        );
        proof {
            law_change_extends_histories(
                store_contents(*old(storage)),
                self.tld(),
                name@,
                change,
            );
        }
        Ok(next)
    }

    /// Registers a name to an owner. Fails with `AlreadyRegistered` where
    /// the name table has an entry for the name, whoever asks. With a
    /// registration the history of the name begins.
    pub fn try_register(
        &mut self,
        storage: &mut MemoryStorage,
        name: &String,
        owner: &String,
    ) -> (result: Result<(), RegistryError>)
        ensures
            final(self).tld() == old(self).tld(),
            result is Err <==> is_registered(
                store_contents(*old(storage)),
                old(self).tld(),
                name@,
            ),
            result is Err ==> result->Err_0 == RegistryError::AlreadyRegistered
                && store_contents(*final(storage)) == store_contents(*old(storage)),
            result is Ok ==> store_contents(*final(storage)) == after_register(
                store_contents(*old(storage)),
                old(self).tld(),
                name@,
                owner@,
            ),
            result is Ok ==> resolved_name(store_contents(*final(storage)), old(self).tld(), name@)
                == Ok::<NameRecordView, RegistryError>(NameRecordView::initial(owner@)),
            result is Ok ==> holds_history(
                store_contents(*final(storage)),
                old(self).tld(),
                name@,
                NameRecordView::initial(owner@),
                Seq::empty(),
            ),
    {
        if self.name_is_registered(storage, name) {
            return Err(RegistryError::AlreadyRegistered);
        }
        let key = self.get_registry_key(name);
        let record = NameRecord::initial(owner);
        let bytes = record.to_bytes();
        store_set(storage, key.as_slice(), bytes.as_slice());
        proof {
            law_history_begins(store_contents(*storage), self.tld(), name@, record@);
        }
        Ok(())
    }

    /// The key of a name in the table of current records: the length of
    /// the table's namespace in two bytes, the namespace, the name.
    pub fn get_registry_key(&self, name: &String) -> (key: Vec<u8>)
        ensures
            key@ == name_key(self.tld(), name@),
    {
        proof {
            use_type_invariant(self);
            lemma_namespace_len(self.tld@);
        }
        let mut key = length_prefixed(self.name_registry_key.as_str().as_bytes());
        key.extend_from_slice(name.as_str().as_bytes());
        key
    }

    /// The key of a content hash in the table of earlier versions: the
    /// length of the table's namespace in two bytes, the namespace, the hash.
    pub fn get_lineage_key(&self, digest: &[u8]) -> (key: Vec<u8>)
        ensures
            key@ == lineage_key(self.tld(), digest@),
    {
        proof {
            use_type_invariant(self);
            lemma_namespace_len(self.tld@);
        }
        let mut key = length_prefixed(self.name_lineage_key.as_str().as_bytes());
        key.extend_from_slice(digest);
        key
    }

    /// Reads the current record of a name, and hands back its bytes with
    /// it.
    fn load_current(&self, storage: &MemoryStorage, name: &String) -> (result: Result<
        (NameRecord, Vec<u8>),
        RegistryError,
    >)
        ensures
            match result {
                Ok((record, stored)) => resolved_name(store_contents(*storage), self.tld(), name@)
                    == Ok::<NameRecordView, RegistryError>(record@) && stored@ == store_contents(
                    *storage,
                )[name_key(self.tld(), name@)],
                Err(e) => resolved_name(store_contents(*storage), self.tld(), name@) == Err::<
                    NameRecordView,
                    RegistryError,
                >(e),
            },
    {
        let key = self.get_registry_key(name);
        load_record(storage, key.as_slice(), RegistryError::NameNotFound)
    }

    /// Keeps the replaced record's bytes under its hash, then makes `next`
    /// the current record.
    fn try_save_record(
        &self,
        storage: &mut MemoryStorage,
        name: &String,
        replaced: &NameRecord,
        old_hash: &[u8],
        stored: &[u8],
        next: &NameRecord,
    )
        requires
            old_hash@ == replaced@.digest(),
            resolved_name(store_contents(*old(storage)), self.tld(), name@) == Ok::<
                NameRecordView,
                RegistryError,
            >(replaced@),
            stored@ == store_contents(*old(storage))[name_key(self.tld(), name@)],
            next@.lineage is Some,
            is_lineage_reference(next@.lineage->0),
            base32_bytes(next@.lineage->0) == Some(replaced@.digest()),
        ensures
            store_contents(*final(storage)) == after_supersede(
                store_contents(*old(storage)),
                self.tld(),
                name@,
                next@,
            ),
            links_back(store_contents(*final(storage)), self.tld(), name@, replaced@, next@),
            next@.fits(),
    {
        proof {
            use_type_invariant(self);
            lemma_tables_apart(self.tld@, name@, replaced@.digest());
        }
        let archive = self.get_lineage_key(old_hash);
        store_set(storage, archive.as_slice(), stored);
        let key = self.get_registry_key(name);
        let bytes = next.to_bytes();
        store_set(storage, key.as_slice(), bytes.as_slice());
    }
}

/// Whether the namespaces of a top-level namespace fit the key layout.
pub fn tld_is_usable(tld: &String) -> (usable: bool)
    ensures
        usable == tld_fits(tld@),
{
    tld.as_str().as_bytes().len() <= 0xFFFF - 14
}

/// Whether a value is longer than a name may carry.
pub fn exceeds_max_len(value: &Option<String>) -> (too_long: bool)
    ensures
        too_long == value_too_long(opt_text(*value)),
{
    match value {
        Some(text) => text.as_str().as_bytes().len() > MAX_VALUE_LEN,
        None => false,
    }
}

/// Reads the record kept under `key`, and hands back its bytes with it.
fn load_record(storage: &MemoryStorage, key: &[u8], missing: RegistryError) -> (result: Result<
    (NameRecord, Vec<u8>),
    RegistryError,
>)
    ensures
        match result {
            Ok((record, stored)) => stored_record(store_contents(*storage), key@, missing) == Ok::<
                NameRecordView,
                RegistryError,
            >(record@) && stored@ == store_contents(*storage)[key@] && stored@.len() > 0,
            Err(e) => stored_record(store_contents(*storage), key@, missing) == Err::<
                NameRecordView,
                RegistryError,
            >(e),
        },
{
    match store_get(storage, key) {
        Some(stored) => match NameRecord::from_bytes(stored.as_slice()) {
            Some(record) => Ok((record, stored)),
            None => Err(RegistryError::CorruptEntry),
        },
        None => Err(missing),
    }
}

} // verus!
