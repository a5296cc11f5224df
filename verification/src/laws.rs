//! What holds of the registry across several operations.

use crate::codec::text_fits;
use crate::config::{config_key, lemma_parse_framed_config, loaded_config, CoinView, ConfigView};
use crate::digest::base32_bytes;
use crate::error::RegistryError;
use crate::execute::{
    authorized, checked_set_owner_result, checked_set_value_result, fee_paid, register_result,
    register_store,
};
use crate::registry::{
    after_change, after_register, after_supersede, is_registered, lemma_lineage_key_injective,
    lemma_name_key_injective, lemma_namespace_len, lemma_namespaces_apart,
    lemma_settings_key_apart,
    lemma_parse_framed_record, lemma_tables_apart, lineage_key, lineage_namespace, name_key,
    name_namespace, resolved_lineage, resolved_name, set_owner_result, set_value_result,
    stored_record, tld_fits, value_too_long, NameRecordView,
};
use crate::store::lemma_prefixes_apart;
use vstd::prelude::*;
use vstd::utf8::encode_utf8;

verus! {

/// One change to a registered name.
pub enum Change {
    /// The name gets this value, or none.
    Value(Option<Seq<char>>),
    /// The name goes to this owner.
    Owner(Seq<char>),
}

impl Change {
    /// Whether the registry accepts the change: a value must not be too
    /// long.
    pub open spec fn acceptable(self) -> bool {
        match self {
            Change::Value(value) => !value_too_long(value),
            Change::Owner(_) => true,
        }
    }

    /// The version that follows `current` under this change.
    pub open spec fn applied_to(self, current: NameRecordView) -> NameRecordView {
        match self {
            Change::Value(value) => current.with_value(value),
            Change::Owner(owner) => current.with_owner(owner),
        }
    }

    /// What the registry returns for this change: the result of
    /// `NameRegistry::try_set_value` or of `NameRegistry::try_set_owner`.
    pub open spec fn result(
        self,
        contents: Map<Seq<u8>, Seq<u8>>,
        tld: Seq<char>,
        name: Seq<char>,
    ) -> Result<NameRecordView, RegistryError> {
        match self {
            Change::Value(value) => set_value_result(contents, tld, name, value),
            Change::Owner(owner) => set_owner_result(contents, tld, name, owner),
        }
    }
}

/// The version of a name after the first `i` of the changes, where `first`
/// is the version before all of them.
pub open spec fn version(first: NameRecordView, changes: Seq<Change>, i: int) -> NameRecordView
    decreases i,
{
    if i <= 0 {
        first
    } else {
        changes[i - 1].applied_to(version(first, changes, i - 1))
    }
}

/// The store after the registry has served the changes to `name`, one after
/// the other.
pub open spec fn store_after(
    contents: Map<Seq<u8>, Seq<u8>>,
    tld: Seq<char>,
    name: Seq<char>,
    changes: Seq<Change>,
) -> Map<Seq<u8>, Seq<u8>>
    decreases changes.len(),
{
    if changes.len() == 0 {
        contents
    } else {
        let before = store_after(contents, tld, name, changes.drop_last());
        after_change(before, tld, name, changes.last().result(before, tld, name))
    }
}

/// Whether the store keeps `record` under its own content hash.
pub open spec fn archived(
    contents: Map<Seq<u8>, Seq<u8>>,
    tld: Seq<char>,
    record: NameRecordView,
) -> bool {
    stored_record(contents, lineage_key(tld, record.digest()), RegistryError::LineageNotFound)
        == Ok::<NameRecordView, RegistryError>(record)
}

/// Whether every version of a history can be framed, as every record that
/// the registry hands out can.
pub open spec fn versions_fit(first: NameRecordView, changes: Seq<Change>) -> bool {
    forall|i: int| 0 <= i <= changes.len() ==> (#[trigger] version(first, changes, i)).fits()
}

/// Whether no two different versions of a history have the same content
/// hash.
pub open spec fn collision_free(first: NameRecordView, changes: Seq<Change>) -> bool {
    forall|i: int, j: int|
        0 <= i <= changes.len() && 0 <= j <= changes.len() && (#[trigger] version(
            first,
            changes,
            i,
        )).digest() == (#[trigger] version(first, changes, j)).digest() ==> version(
            first,
            changes,
            i,
        ) == version(first, changes, j)
}

/// A name that was just registered resolves to a record that belongs to
/// whoever registered it and has neither a value nor a lineage. A
/// registration goes through where the settings allow the namespace, the
/// fee is covered and the name is free.
pub proof fn law_register_then_resolve(
    contents: Map<Seq<u8>, Seq<u8>>,
    sender: Seq<char>,
    funds: Seq<CoinView>,
    name: Seq<char>,
    tld: Seq<char>,
)
    requires
        text_fits(sender),
        loaded_config(contents) is Ok,
        loaded_config(contents)->Ok_0.allows(tld),
        fee_paid(loaded_config(contents)->Ok_0, funds),
        !is_registered(contents, tld, name),
    ensures
        register_result(contents, funds, name, tld) is Ok,
        resolved_name(register_store(contents, sender, funds, name, tld), tld, name) == Ok::<
            NameRecordView,
            RegistryError,
        >(NameRecordView::initial(sender)),
{
    lemma_parse_framed_record(NameRecordView::initial(sender));
}

/// A change that passes the checks on behalf of its sender is the change
/// that the registry makes.
pub proof fn law_checked_change_is_change(
    contents: Map<Seq<u8>, Seq<u8>>,
    sender: Seq<char>,
    name: Seq<char>,
    tld: Seq<char>,
    change: Change,
)
    requires
        authorized(contents, sender, name, tld) is Ok,
    ensures
        match change {
            Change::Value(value) => checked_set_value_result(contents, sender, name, tld, value)
                == change.result(contents, tld, name),
            Change::Owner(owner) => checked_set_owner_result(contents, sender, name, tld, owner)
                == change.result(contents, tld, name),
        },
{
}

proof fn lemma_version_prefix(first: NameRecordView, changes: Seq<Change>, i: int)
    requires
        0 <= i < changes.len(),
    ensures
        version(first, changes.drop_last(), i) == version(first, changes, i),
    decreases i,
{
    if i > 0 {
        lemma_version_prefix(first, changes, i - 1);
        assert(changes.drop_last()[i - 1] == changes[i - 1]);
    }
}

/// A change keeps what the archive held and adds the record that it
/// replaces: afterwards `next` is the current record, the replaced record is
/// archived, and so is every record that was archived before, unless it
/// differs from the replaced record and has the same content hash.
pub proof fn law_change_keeps_archive(
    contents: Map<Seq<u8>, Seq<u8>>,
    tld: Seq<char>,
    name: Seq<char>,
    next: NameRecordView,
    kept: NameRecordView,
)
    requires
        tld_fits(tld),
        next.fits(),
        resolved_name(contents, tld, name) is Ok,
        archived(contents, tld, kept) || kept == resolved_name(contents, tld, name)->Ok_0,
        kept.digest() == resolved_name(contents, tld, name)->Ok_0.digest() ==> kept
            == resolved_name(contents, tld, name)->Ok_0,
    ensures
        resolved_name(after_supersede(contents, tld, name, next), tld, name) == Ok::<
            NameRecordView,
            RegistryError,
        >(next),
        archived(after_supersede(contents, tld, name, next), tld, kept),
{
    let replaced = resolved_name(contents, tld, name)->Ok_0;
    lemma_parse_framed_record(next);
    lemma_tables_apart(tld, name, replaced.digest());
    lemma_tables_apart(tld, name, kept.digest());
    if lineage_key(tld, kept.digest()) == lineage_key(tld, replaced.digest()) {
        lemma_lineage_key_injective(tld, kept.digest(), replaced.digest());
    }
}

proof fn lemma_history_kept(
    contents: Map<Seq<u8>, Seq<u8>>,
    tld: Seq<char>,
    name: Seq<char>,
    first: NameRecordView,
    changes: Seq<Change>,
)
    requires
        tld_fits(tld),
        resolved_name(contents, tld, name) == Ok::<NameRecordView, RegistryError>(first),
        forall|k: int| 0 <= k < changes.len() ==> (#[trigger] changes[k]).acceptable(),
        versions_fit(first, changes),
        collision_free(first, changes),
    ensures
        resolved_name(store_after(contents, tld, name, changes), tld, name) == Ok::<
            NameRecordView,
            RegistryError,
        >(version(first, changes, changes.len() as int)),
        forall|i: int|
            0 <= i < changes.len() ==> archived(
                store_after(contents, tld, name, changes),
                tld,
                #[trigger] version(first, changes, i),
            ),
    decreases changes.len(),
{
    if changes.len() > 0 {
        let earlier = changes.drop_last();
        let k = changes.len() - 1;
        assert forall|i: int| 0 <= i <= earlier.len() implies #[trigger] version(first, earlier, i)
            == version(first, changes, i) by {
            lemma_version_prefix(first, changes, i);
        }
        assert forall|j: int| 0 <= j < earlier.len() implies (#[trigger] earlier[j]).acceptable(
        ) by {
            assert(earlier[j] == changes[j]);
        }
        assert(versions_fit(first, earlier)) by {
            assert forall|i: int| 0 <= i <= earlier.len() implies (#[trigger] version(
                first,
                earlier,
                i,
            )).fits() by {
                assert(version(first, changes, i).fits());
            }
        }
        assert(collision_free(first, earlier)) by {
            assert forall|i: int, j: int|
                0 <= i <= earlier.len() && 0 <= j <= earlier.len() && (#[trigger] version(
                    first,
                    earlier,
                    i,
                )).digest() == (#[trigger] version(first, earlier, j)).digest() implies version(
                first,
                earlier,
                i,
            ) == version(first, earlier, j) by {
                assert(version(first, changes, i).digest() == version(first, changes, j).digest());
            }
        }
        lemma_history_kept(contents, tld, name, first, earlier);
        let before = store_after(contents, tld, name, earlier);
        let current = version(first, changes, k);
        let next = version(first, changes, k + 1);
        assert(changes.last() == changes[k]);
        assert(changes[k].acceptable());
        assert(resolved_name(before, tld, name) == Ok::<NameRecordView, RegistryError>(current));
        assert(changes[k].result(before, tld, name) == Ok::<NameRecordView, RegistryError>(next));
        assert(store_after(contents, tld, name, changes) == after_supersede(
            before,
            tld,
            name,
            next,
        ));
        assert(next.fits());
        assert forall|i: int| 0 <= i < changes.len() implies archived(
            store_after(contents, tld, name, changes),
            tld,
            #[trigger] version(first, changes, i),
        ) by {
            let kept = version(first, changes, i);
            if i < k {
                assert(archived(before, tld, version(first, earlier, i)));
            }
            if kept.digest() == current.digest() {
                assert(kept == current);
            }
            law_change_keeps_archive(before, tld, name, next, kept);
        }
        law_change_keeps_archive(before, tld, name, next, current);
    }
}

/// Every earlier version of a name stays within reach. After any number of
/// accepted changes to a name, each version that was replaced is what a
/// lineage reference to its content hash resolves to, and each version
/// quotes the content hash of the one before it.
///
/// The statement leaves out histories in which two different versions have
/// the same content hash: the later one would take the earlier one's place
/// in the archive.
pub proof fn law_lineage_chain(
    contents: Map<Seq<u8>, Seq<u8>>,
    tld: Seq<char>,
    name: Seq<char>,
    first: NameRecordView,
    changes: Seq<Change>,
    i: int,
)
    requires
        tld_fits(tld),
        resolved_name(contents, tld, name) == Ok::<NameRecordView, RegistryError>(first),
        forall|k: int| 0 <= k < changes.len() ==> (#[trigger] changes[k]).acceptable(),
        versions_fit(first, changes),
        collision_free(first, changes),
        0 <= i < changes.len(),
    ensures
        resolved_name(store_after(contents, tld, name, changes), tld, name) == Ok::<
            NameRecordView,
            RegistryError,
        >(version(first, changes, changes.len() as int)),
        archived(store_after(contents, tld, name, changes), tld, version(first, changes, i)),
        forall|reference: Seq<char>|
            #[trigger] base32_bytes(reference) == Some(version(first, changes, i).digest())
                ==> resolved_lineage(store_after(contents, tld, name, changes), tld, reference)
                == Ok::<NameRecordView, RegistryError>(version(first, changes, i)),
        version(first, changes, i + 1).lineage == Some(
            version(first, changes, i).lineage_text(),
        ),
{
    lemma_history_kept(contents, tld, name, first, changes);
    assert(archived(store_after(contents, tld, name, changes), tld, version(first, changes, i)));
}

/// Whether each version's lineage reference is one that base 32 turns back
/// into the hash it was made from. Every reference that the registry makes
/// is, as the contracts of its changes say.
pub open spec fn references_decode(first: NameRecordView, changes: Seq<Change>) -> bool {
    forall|i: int|
        0 <= i < changes.len() ==> base32_bytes(
            (#[trigger] version(first, changes, i)).lineage_text(),
        ) == Some(version(first, changes, i).digest())
}

/// The record reached from `record` by following lineage references
/// `steps` times. The walk fails with `LineageNotFound` at a record that has
/// no lineage, and with the error of the lookup where a reference does not
/// resolve.
pub open spec fn walked_back(
    contents: Map<Seq<u8>, Seq<u8>>,
    tld: Seq<char>,
    record: NameRecordView,
    steps: nat,
) -> Result<NameRecordView, RegistryError>
    decreases steps,
{
    if steps == 0 {
        Ok(record)
    } else {
        match record.lineage {
            Some(reference) => match resolved_lineage(contents, tld, reference) {
                Ok(previous) => walked_back(contents, tld, previous, (steps - 1) as nat),
                Err(e) => Err(e),
            },
            None => Err(RegistryError::LineageNotFound),
        }
    }
}

proof fn lemma_walk_back_from(
    contents: Map<Seq<u8>, Seq<u8>>,
    tld: Seq<char>,
    name: Seq<char>,
    first: NameRecordView,
    changes: Seq<Change>,
    from: int,
    steps: nat,
)
    requires
        tld_fits(tld),
        resolved_name(contents, tld, name) == Ok::<NameRecordView, RegistryError>(first),
        forall|k: int| 0 <= k < changes.len() ==> (#[trigger] changes[k]).acceptable(),
        versions_fit(first, changes),
        collision_free(first, changes),
        references_decode(first, changes),
        0 <= from <= changes.len(),
        steps <= from,
    ensures
        walked_back(
            store_after(contents, tld, name, changes),
            tld,
            version(first, changes, from),
            steps,
        ) == Ok::<NameRecordView, RegistryError>(version(first, changes, from - steps)),
    decreases steps,
{
    if steps > 0 {
        lemma_history_kept(contents, tld, name, first, changes);
        let before = version(first, changes, from - 1);
        assert(version(first, changes, from).lineage == Some(before.lineage_text()));
        assert(archived(store_after(contents, tld, name, changes), tld, before));
        assert(base32_bytes(before.lineage_text()) == Some(before.digest()));
        lemma_walk_back_from(contents, tld, name, first, changes, from - 1, (steps - 1) as nat);
    }
}

/// The history of a name is a chain that can be walked back. After any
/// number of accepted changes, following the lineage references from the
/// current record leads, one version at a time, through every earlier
/// version.
///
/// The statement leaves out histories in which two different versions have
/// the same content hash.
pub proof fn law_walk_back(
    contents: Map<Seq<u8>, Seq<u8>>,
    tld: Seq<char>,
    name: Seq<char>,
    first: NameRecordView,
    changes: Seq<Change>,
    steps: nat,
)
    requires
        tld_fits(tld),
        resolved_name(contents, tld, name) == Ok::<NameRecordView, RegistryError>(first),
        forall|k: int| 0 <= k < changes.len() ==> (#[trigger] changes[k]).acceptable(),
        versions_fit(first, changes),
        collision_free(first, changes),
        references_decode(first, changes),
        steps <= changes.len(),
    ensures
        walked_back(
            store_after(contents, tld, name, changes),
            tld,
            version(first, changes, changes.len() as int),
            steps,
        ) == Ok::<NameRecordView, RegistryError>(
            version(first, changes, changes.len() - steps),
        ),
{
    lemma_walk_back_from(contents, tld, name, first, changes, changes.len() as int, steps);
}

/// The chain of a name ends where the name began, and has no cycle. Where
/// the first version has no lineage, as the record of a name that was just
/// registered has none, the walk back from the current record reaches it
/// after as many steps as there were changes, and can go no further.
///
/// The statement leaves out histories in which two different versions have
/// the same content hash.
pub proof fn law_walk_ends_at_registration(
    contents: Map<Seq<u8>, Seq<u8>>,
    tld: Seq<char>,
    name: Seq<char>,
    first: NameRecordView,
    changes: Seq<Change>,
)
    requires
        tld_fits(tld),
        resolved_name(contents, tld, name) == Ok::<NameRecordView, RegistryError>(first),
        forall|k: int| 0 <= k < changes.len() ==> (#[trigger] changes[k]).acceptable(),
        versions_fit(first, changes),
        collision_free(first, changes),
        references_decode(first, changes),
        first.lineage is None,
    ensures
        walked_back(
            store_after(contents, tld, name, changes),
            tld,
            version(first, changes, changes.len() as int),
            changes.len(),
        ) == Ok::<NameRecordView, RegistryError>(first),
        walked_back(
            store_after(contents, tld, name, changes),
            tld,
            version(first, changes, changes.len() as int),
            changes.len() + 1,
        ) == Err::<NameRecordView, RegistryError>(RegistryError::LineageNotFound),
{
    let after = store_after(contents, tld, name, changes);
    let current = version(first, changes, changes.len() as int);
    lemma_walk_back_from(
        contents,
        tld,
        name,
        first,
        changes,
        changes.len() as int,
        changes.len(),
    );
    assert(version(first, changes, 0) == first);
    assert(walked_back(after, tld, current, changes.len()) == Ok::<
        NameRecordView,
        RegistryError,
    >(first));
    lemma_walk_ends(after, tld, current, first, changes.len());
}

/// A walk that reaches a record without lineage cannot go one step further.
proof fn lemma_walk_ends(
    contents: Map<Seq<u8>, Seq<u8>>,
    tld: Seq<char>,
    record: NameRecordView,
    last: NameRecordView,
    steps: nat,
)
    requires
        walked_back(contents, tld, record, steps) == Ok::<NameRecordView, RegistryError>(last),
        last.lineage is None,
    ensures
        walked_back(contents, tld, record, steps + 1) == Err::<NameRecordView, RegistryError>(
            RegistryError::LineageNotFound,
        ),
    decreases steps,
{
    if steps > 0 {
        let previous = resolved_lineage(contents, tld, record.lineage->0)->Ok_0;
        lemma_walk_ends(contents, tld, previous, last, (steps - 1) as nat);
    }
}

/// Whether a store holds the history of `name` that began with `first` and
/// went through `changes`: the last version is the current record, every
/// earlier version is kept under its own content hash, and every lineage
/// reference is one that base 32 turns back into the hash it was made from.
/// What follows from it is in `law_history_resolves`.
pub closed spec fn holds_history(
    contents: Map<Seq<u8>, Seq<u8>>,
    tld: Seq<char>,
    name: Seq<char>,
    first: NameRecordView,
    changes: Seq<Change>,
) -> bool {
    &&& resolved_name(contents, tld, name) == Ok::<NameRecordView, RegistryError>(
        version(first, changes, changes.len() as int),
    )
    &&& forall|i: int|
        0 <= i < changes.len() ==> archived(contents, tld, #[trigger] version(first, changes, i))
    &&& references_decode(first, changes)
}

/// Whether a change took every history of `name` that the store held one
/// version further, leaving out the histories in which the change makes
/// two different versions share a content hash. `law_history_extended` takes
/// one history a version further.
pub closed spec fn extends_histories(
    before: Map<Seq<u8>, Seq<u8>>,
    after: Map<Seq<u8>, Seq<u8>>,
    tld: Seq<char>,
    name: Seq<char>,
    change: Change,
) -> bool {
    forall|first: NameRecordView, changes: Seq<Change>|
        #[trigger] holds_history(before, tld, name, first, changes) && collision_free(
            first,
            changes.push(change),
        ) ==> holds_history(after, tld, name, first, changes.push(change))
}

/// A change that the registry accepts takes the history of a name one
/// version further: what the store held of the history it still holds, and
/// the replaced version is kept with the others.
///
/// The statement leaves out a change that makes two different versions
/// share a content hash.
pub proof fn law_history_grows(
    contents: Map<Seq<u8>, Seq<u8>>,
    tld: Seq<char>,
    name: Seq<char>,
    first: NameRecordView,
    changes: Seq<Change>,
    change: Change,
)
    requires
        tld_fits(tld),
        holds_history(contents, tld, name, first, changes),
        change.result(contents, tld, name) is Ok,
        change.result(contents, tld, name)->Ok_0.fits(),
        base32_bytes(version(first, changes, changes.len() as int).lineage_text()) == Some(
            version(first, changes, changes.len() as int).digest(),
        ),
        collision_free(first, changes.push(change)),
    ensures
        holds_history(
            after_change(contents, tld, name, change.result(contents, tld, name)),
            tld,
            name,
            first,
            changes.push(change),
        ),
{
    let longer = changes.push(change);
    let k = changes.len() as int;
    let current = version(first, changes, k);
    let next = change.applied_to(current);
    let after = after_supersede(contents, tld, name, next);
    assert(longer.drop_last() =~= changes);
    assert forall|i: int| 0 <= i <= k implies #[trigger] version(first, longer, i) == version(
        first,
        changes,
        i,
    ) by {
        lemma_version_prefix(first, longer, i);
    }
    assert(longer[k] == change);
    assert(version(first, longer, k + 1) == next);
    assert(change.result(contents, tld, name) == Ok::<NameRecordView, RegistryError>(next));
    assert forall|i: int| 0 <= i < longer.len() implies archived(
        after,
        tld,
        #[trigger] version(first, longer, i),
    ) by {
        let kept = version(first, longer, i);
        if i < k {
            assert(archived(contents, tld, version(first, changes, i)));
        }
        if kept.digest() == current.digest() {
            assert(version(first, longer, k) == current);
            assert(kept == current);
        }
        law_change_keeps_archive(contents, tld, name, next, kept);
    }
    law_change_keeps_archive(contents, tld, name, next, current);
    assert(references_decode(first, longer)) by {
        assert forall|i: int| 0 <= i < longer.len() implies base32_bytes(
            (#[trigger] version(first, longer, i)).lineage_text(),
        ) == Some(version(first, longer, i).digest()) by {
            if i < k {
                assert(base32_bytes(version(first, changes, i).lineage_text()) == Some(
                    version(first, changes, i).digest(),
                ));
            }
        }
    }
}

/// The history of a name begins with its current record.
pub proof fn law_history_begins(
    contents: Map<Seq<u8>, Seq<u8>>,
    tld: Seq<char>,
    name: Seq<char>,
    first: NameRecordView,
)
    requires
        resolved_name(contents, tld, name) == Ok::<NameRecordView, RegistryError>(first),
    ensures
        holds_history(contents, tld, name, first, Seq::empty()),
{
}

/// A change that the registry accepts extends every history of the name.
/// The reference that the new version holds must be one that base 32 turns
/// back into the hash of the replaced record, as the references that the
/// registry makes are.
pub proof fn law_change_extends_histories(
    contents: Map<Seq<u8>, Seq<u8>>,
    tld: Seq<char>,
    name: Seq<char>,
    change: Change,
)
    requires
        tld_fits(tld),
        change.result(contents, tld, name) is Ok,
        change.result(contents, tld, name)->Ok_0.fits(),
        base32_bytes(resolved_name(contents, tld, name)->Ok_0.lineage_text()) == Some(
            resolved_name(contents, tld, name)->Ok_0.digest(),
        ),
    ensures
        extends_histories(
            contents,
            after_change(contents, tld, name, change.result(contents, tld, name)),
            tld,
            name,
            change,
        ),
{
    let after = after_change(contents, tld, name, change.result(contents, tld, name));
    assert forall|first: NameRecordView, changes: Seq<Change>|
        #[trigger] holds_history(contents, tld, name, first, changes) && collision_free(
            first,
            changes.push(change),
        ) implies holds_history(after, tld, name, first, changes.push(change)) by {
        law_history_grows(contents, tld, name, first, changes, change);
    }
}

/// Takes one history a version further, after a change that extended the
/// histories of the name.
///
/// The statement leaves out a history in which the change makes two
/// different versions share a content hash.
pub proof fn law_history_extended(
    before: Map<Seq<u8>, Seq<u8>>,
    after: Map<Seq<u8>, Seq<u8>>,
    tld: Seq<char>,
    name: Seq<char>,
    change: Change,
    first: NameRecordView,
    changes: Seq<Change>,
)
    requires
        extends_histories(before, after, tld, name, change),
        holds_history(before, tld, name, first, changes),
        collision_free(first, changes.push(change)),
    ensures
        holds_history(after, tld, name, first, changes.push(change)),
{
}

/// Any number of changes, served one after the other, leave a store that
/// holds the whole history of the name. `stores` are the contents before
/// the first change and after each one, so each is what the call before it
/// left behind.
///
/// The statement leaves out histories in which two different versions have
/// the same content hash.
pub proof fn law_histories_extended(
    stores: Seq<Map<Seq<u8>, Seq<u8>>>,
    tld: Seq<char>,
    name: Seq<char>,
    first: NameRecordView,
    changes: Seq<Change>,
)
    requires
        stores.len() == changes.len() + 1,
        holds_history(stores[0], tld, name, first, Seq::empty()),
        forall|k: int|
            0 <= k < changes.len() ==> extends_histories(
                #[trigger] stores[k],
                stores[k + 1],
                tld,
                name,
                changes[k],
            ),
        collision_free(first, changes),
    ensures
        holds_history(stores.last(), tld, name, first, changes),
    decreases changes.len(),
{
    if changes.len() == 0 {
        assert(changes =~= Seq::<Change>::empty());
    } else {
        let k = changes.len() - 1;
        let earlier = changes.drop_last();
        let before = stores.drop_last();
        assert forall|i: int| 0 <= i <= earlier.len() implies #[trigger] version(first, earlier, i)
            == version(first, changes, i) by {
            lemma_version_prefix(first, changes, i);
        }
        assert(collision_free(first, earlier)) by {
            assert forall|i: int, j: int|
                0 <= i <= earlier.len() && 0 <= j <= earlier.len() && (#[trigger] version(
                    first,
                    earlier,
                    i,
                )).digest() == (#[trigger] version(first, earlier, j)).digest() implies version(
                first,
                earlier,
                i,
            ) == version(first, earlier, j) by {
                assert(version(first, changes, i).digest() == version(first, changes, j).digest());
            }
        }
        assert forall|j: int| 0 <= j < earlier.len() implies extends_histories(
            #[trigger] before[j],
            before[j + 1],
            tld,
            name,
            earlier[j],
        ) by {
            assert(before[j] == stores[j]);
            assert(before[j + 1] == stores[j + 1]);
            assert(earlier[j] == changes[j]);
        }
        law_histories_extended(before, tld, name, first, earlier);
        assert(before.last() == stores[k]);
        assert(stores.last() == stores[k + 1]);
        assert(earlier.push(changes[k]) =~= changes);
        law_history_extended(stores[k], stores[k + 1], tld, name, changes[k], first, earlier);
    }
}

/// In a store that holds the history of a name, the last version is the
/// current record, each version's lineage reference resolves to the version
/// before it, and so does every other reference that stands for the same
/// content hash.
pub proof fn law_history_resolves(
    contents: Map<Seq<u8>, Seq<u8>>,
    tld: Seq<char>,
    name: Seq<char>,
    first: NameRecordView,
    changes: Seq<Change>,
    i: int,
)
    requires
        holds_history(contents, tld, name, first, changes),
        0 <= i < changes.len(),
    ensures
        resolved_name(contents, tld, name) == Ok::<NameRecordView, RegistryError>(
            version(first, changes, changes.len() as int),
        ),
        version(first, changes, i + 1).lineage == Some(version(first, changes, i).lineage_text()),
        resolved_lineage(contents, tld, version(first, changes, i + 1).lineage->0) == Ok::<
            NameRecordView,
            RegistryError,
        >(version(first, changes, i)),
        forall|reference: Seq<char>|
            #[trigger] base32_bytes(reference) == Some(version(first, changes, i).digest())
                ==> resolved_lineage(contents, tld, reference) == Ok::<
                NameRecordView,
                RegistryError,
            >(version(first, changes, i)),
{
    assert(archived(contents, tld, version(first, changes, i)));
    assert(base32_bytes(version(first, changes, i).lineage_text()) == Some(
        version(first, changes, i).digest(),
    ));
}

/// The store after one change is the store that the registry leaves behind
/// when it serves that change.
pub proof fn law_one_change(
    contents: Map<Seq<u8>, Seq<u8>>,
    tld: Seq<char>,
    name: Seq<char>,
    change: Change,
)
    ensures
        store_after(contents, tld, name, seq![change]) == after_change(
            contents,
            tld,
            name,
            change.result(contents, tld, name),
        ),
{
    let one = seq![change];
    assert(one.drop_last() =~= Seq::<Change>::empty());
    assert(one.last() == change);
    assert(store_after(contents, tld, name, one.drop_last()) == contents);
}

/// Serving changes in two runs is serving them in one: the store after the
/// first run and then the second is the store after all of them, and the
/// versions are the same.
pub proof fn law_changes_compose(
    contents: Map<Seq<u8>, Seq<u8>>,
    tld: Seq<char>,
    name: Seq<char>,
    first: NameRecordView,
    earlier: Seq<Change>,
    later: Seq<Change>,
)
    ensures
        store_after(contents, tld, name, earlier + later) == store_after(
            store_after(contents, tld, name, earlier),
            tld,
            name,
            later,
        ),
        forall|j: int|
            0 <= j <= later.len() ==> #[trigger] version(
                version(first, earlier, earlier.len() as int),
                later,
                j,
            ) == version(first, earlier + later, earlier.len() + j),
        forall|i: int|
            0 <= i <= earlier.len() ==> #[trigger] version(first, earlier, i) == version(
                first,
                earlier + later,
                i,
            ),
    decreases later.len(),
{
    assert forall|i: int| 0 <= i <= earlier.len() implies #[trigger] version(first, earlier, i)
        == version(first, earlier + later, i) by {
        lemma_version_of_prefix(first, earlier, later, i);
    }
    assert forall|j: int| 0 <= j <= later.len() implies #[trigger] version(
        version(first, earlier, earlier.len() as int),
        later,
        j,
    ) == version(first, earlier + later, earlier.len() + j) by {
        lemma_version_of_suffix(first, earlier, later, j);
    }
    if later.len() == 0 {
        assert(earlier + later =~= earlier);
    } else {
        law_changes_compose(contents, tld, name, first, earlier, later.drop_last());
        assert((earlier + later).drop_last() =~= earlier + later.drop_last());
        assert((earlier + later).last() == later.last());
    }
}

proof fn lemma_version_of_prefix(
    first: NameRecordView,
    earlier: Seq<Change>,
    later: Seq<Change>,
    i: int,
)
    requires
        0 <= i <= earlier.len(),
    ensures
        version(first, earlier, i) == version(first, earlier + later, i),
    decreases i,
{
    if i > 0 {
        lemma_version_of_prefix(first, earlier, later, i - 1);
        assert((earlier + later)[i - 1] == earlier[i - 1]);
    }
}

proof fn lemma_version_of_suffix(
    first: NameRecordView,
    earlier: Seq<Change>,
    later: Seq<Change>,
    j: int,
)
    requires
        0 <= j <= later.len(),
    ensures
        version(version(first, earlier, earlier.len() as int), later, j) == version(
            first,
            earlier + later,
            earlier.len() + j,
        ),
    decreases j,
{
    if j > 0 {
        lemma_version_of_suffix(first, earlier, later, j - 1);
        assert((earlier + later)[earlier.len() + j - 1] == later[j - 1]);
    } else {
        lemma_version_of_prefix(first, earlier, later, earlier.len() as int);
    }
}

/// A change to one name leaves the current record of every other name of
/// the namespace as it was.
pub proof fn law_other_names_untouched(
    contents: Map<Seq<u8>, Seq<u8>>,
    tld: Seq<char>,
    name: Seq<char>,
    change: Change,
    other: Seq<char>,
)
    requires
        tld_fits(tld),
        other != name,
    ensures
        resolved_name(
            after_change(contents, tld, name, change.result(contents, tld, name)),
            tld,
            other,
        ) == resolved_name(contents, tld, other),
{
    if change.result(contents, tld, name) is Ok {
        let current = resolved_name(contents, tld, name)->Ok_0;
        lemma_tables_apart(tld, other, current.digest());
        if name_key(tld, other) == name_key(tld, name) {
            lemma_name_key_injective(tld, other, name);
        }
    }
}

/// What happens under one namespace leaves the tables of every other
/// namespace as they were: after a registration or a change under `tld`,
/// each name of `other` resolves as before, and so does each content hash.
pub proof fn law_namespaces_independent(
    contents: Map<Seq<u8>, Seq<u8>>,
    tld: Seq<char>,
    name: Seq<char>,
    owner: Seq<char>,
    change: Change,
    other: Seq<char>,
    other_name: Seq<char>,
    digest: Seq<u8>,
)
    requires
        tld_fits(tld),
        tld_fits(other),
        other != tld,
    ensures
        resolved_name(after_register(contents, tld, name, owner), other, other_name)
            == resolved_name(contents, other, other_name),
        stored_record(
            after_register(contents, tld, name, owner),
            lineage_key(other, digest),
            RegistryError::LineageNotFound,
        ) == stored_record(contents, lineage_key(other, digest), RegistryError::LineageNotFound),
        resolved_name(
            after_change(contents, tld, name, change.result(contents, tld, name)),
            other,
            other_name,
        ) == resolved_name(contents, other, other_name),
        stored_record(
            after_change(contents, tld, name, change.result(contents, tld, name)),
            lineage_key(other, digest),
            RegistryError::LineageNotFound,
        ) == stored_record(contents, lineage_key(other, digest), RegistryError::LineageNotFound),
{
    lemma_namespace_len(tld);
    lemma_namespace_len(other);
    lemma_namespaces_apart(tld, other);
    lemma_namespaces_apart(other, tld);
    let replaced = resolved_name(contents, tld, name)->Ok_0.digest();
    lemma_prefixes_apart(
        name_namespace(tld),
        name_namespace(other),
        encode_utf8(name),
        encode_utf8(other_name),
    );
    lemma_prefixes_apart(
        name_namespace(tld),
        lineage_namespace(other),
        encode_utf8(name),
        digest,
    );
    lemma_prefixes_apart(
        lineage_namespace(tld),
        name_namespace(other),
        replaced,
        encode_utf8(other_name),
    );
    lemma_prefixes_apart(lineage_namespace(tld), lineage_namespace(other), replaced, digest);
}

/// The registry never touches the settings: they load after a registration
/// or a change as they did before it.
pub proof fn law_settings_untouched(
    contents: Map<Seq<u8>, Seq<u8>>,
    tld: Seq<char>,
    name: Seq<char>,
    owner: Seq<char>,
    change: Change,
)
    requires
        tld_fits(tld),
    ensures
        loaded_config(after_register(contents, tld, name, owner)) == loaded_config(contents),
        loaded_config(after_change(contents, tld, name, change.result(contents, tld, name)))
            == loaded_config(contents),
{
    let replaced = resolved_name(contents, tld, name)->Ok_0.digest();
    lemma_settings_key_apart(tld, encode_utf8(name));
    lemma_settings_key_apart(tld, replaced);
}

/// A registration keeps what the archive held.
pub proof fn law_register_keeps_archive(
    contents: Map<Seq<u8>, Seq<u8>>,
    tld: Seq<char>,
    name: Seq<char>,
    owner: Seq<char>,
    kept: NameRecordView,
)
    requires
        tld_fits(tld),
        archived(contents, tld, kept),
    ensures
        archived(after_register(contents, tld, name, owner), tld, kept),
{
    lemma_tables_apart(tld, name, kept.digest());
}

/// Settings that were saved are the settings that are loaded, whatever was
/// saved before them.
pub proof fn law_saved_settings_load(contents: Map<Seq<u8>, Seq<u8>>, config: ConfigView)
    requires
        config.fits(),
    ensures
        loaded_config(contents.insert(config_key(), config.framed())) == Ok::<
            ConfigView,
            RegistryError,
        >(config),
{
    lemma_parse_framed_config(config);
}

} // verus!
