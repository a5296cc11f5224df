//! The three entry points of a deployment: set it up, change it, read it.

use crate::config::{config_key, loaded_config, set_config, CoinView, Config, ConfigView};
use crate::error::RegistryError;
use crate::execute::{
    checked_set_owner_result, checked_set_value_result, register_result, register_store,
    response_of, response_result, servable, try_register_name, try_set_owner, try_set_value,
};
use crate::message::{
    coins, CoolNSExecuteMessage, CoolNSInstantiateMessage, CoolNSQueryMessage, ExecuteView,
    MessageInfo, QueryView, Response,
};
use crate::registry::{
    after_change, is_registered, lemma_settings_key_apart, record_result, resolved_lineage,
    resolved_name, tld_fits, NameRecord, NameRecordView, NameRegistry,
};
use crate::store::{no_entries, store_contents};
use cosmwasm_std::MemoryStorage;
use vstd::prelude::*;
use vstd::utf8::encode_utf8;

verus! {

/// What `execute` answers to a request.
pub open spec fn execute_result(
    contents: Map<Seq<u8>, Seq<u8>>,
    sender: Seq<char>,
    funds: Seq<CoinView>,
    msg: ExecuteView,
) -> Result<Option<NameRecordView>, RegistryError> {
    match msg {
        ExecuteView::Register { name, tld } => match register_result(contents, funds, name, tld) {
            Ok(_) => Ok(None),
            Err(e) => Err(e),
        },
        ExecuteView::SetValue { name, tld, value } => response_of(
            checked_set_value_result(contents, sender, name, tld, value),
        ),
        ExecuteView::SetOwner { name, tld, owner } => response_of(
            checked_set_owner_result(contents, sender, name, tld, owner),
        ),
    }
}

/// The store after `execute` has served a request.
pub open spec fn execute_store(
    contents: Map<Seq<u8>, Seq<u8>>,
    sender: Seq<char>,
    funds: Seq<CoinView>,
    msg: ExecuteView,
) -> Map<Seq<u8>, Seq<u8>> {
    match msg {
        ExecuteView::Register { name, tld } => register_store(contents, sender, funds, name, tld),
        ExecuteView::SetValue { name, tld, value } => after_change(
            contents,
            tld,
            name,
            checked_set_value_result(contents, sender, name, tld, value),
        ),
        ExecuteView::SetOwner { name, tld, owner } => after_change(
            contents,
            tld,
            name,
            checked_set_owner_result(contents, sender, name, tld, owner),
        ),
    }
}

/// What `query` answers to a request.
pub open spec fn query_result(contents: Map<Seq<u8>, Seq<u8>>, msg: QueryView) -> Result<
    NameRecordView,
    RegistryError,
> {
    match msg {
        QueryView::ResolveName { name, tld } => resolved_name(contents, tld, name),
        QueryView::ResolveLineage { tld, lineage } => resolved_lineage(contents, tld, lineage),
    }
}

/// The namespace that a request to change the registry is about.
pub open spec fn execute_tld(msg: ExecuteView) -> Seq<char> {
    match msg {
        ExecuteView::Register { name, tld } => tld,
        ExecuteView::SetValue { name, tld, value } => tld,
        ExecuteView::SetOwner { name, tld, owner } => tld,
    }
}

/// The namespace that a query is about.
pub open spec fn query_tld(msg: QueryView) -> Seq<char> {
    match msg {
        QueryView::ResolveName { name, tld } => tld,
        QueryView::ResolveLineage { tld, lineage } => tld,
    }
}

/// The settings that a deployment starts with.
pub open spec fn initial_config(msg: CoolNSInstantiateMessage) -> ConfigView {
    (Config { registration_fee: msg.registration_fee, allowed_tlds: msg.allowed_tlds })@
}

/// The store of a new deployment: nothing but the settings of the message
/// is in it, and no name is registered.
pub fn new_deployment(msg: CoolNSInstantiateMessage) -> (storage: MemoryStorage)
    ensures
        store_contents(storage) == no_entries().insert(
            config_key(),
            initial_config(msg).framed(),
        ),
        loaded_config(store_contents(storage)) == Ok::<ConfigView, RegistryError>(
            initial_config(msg),
        ),
        forall|tld: Seq<char>, name: Seq<char>|
            tld_fits(tld) ==> !#[trigger] is_registered(store_contents(storage), tld, name),
{
    let mut storage = MemoryStorage::new();
    let stored = instantiate(&mut storage, msg);
    proof {
        assert forall|tld: Seq<char>, name: Seq<char>|
            tld_fits(tld) implies !#[trigger] is_registered(
            store_contents(storage),
            tld,
            name,
        ) by {
            lemma_settings_key_apart(tld, encode_utf8(name));
        }
    }
    storage
}

/// Stores the settings that a deployment starts with. Called once for the
/// lifetime of a deployment. This never fails, and the settings are what
/// `get_config` returns from then on.
pub fn instantiate(storage: &mut MemoryStorage, msg: CoolNSInstantiateMessage) -> (result: Result<
    Response,
    RegistryError,
>)
    ensures
        response_result(result) == Ok::<Option<NameRecordView>, RegistryError>(None),
        store_contents(*final(storage)) == store_contents(*old(storage)).insert(
            config_key(),
            initial_config(msg).framed(),
        ),
        loaded_config(store_contents(*final(storage))) == Ok::<ConfigView, RegistryError>(
            initial_config(msg),
        ),
{
    let config = Config {
        registration_fee: msg.registration_fee,
        allowed_tlds: msg.allowed_tlds,
    };
    match set_config(storage, config) {
        Ok(_) => Ok(Response { data: None }),
        Err(e) => Err(e),
    }
}

/// Serves one request that changes the registry, on behalf of `info.sender`
/// and with the payment in `info.funds`. The namespace of the request, where
/// the settings allow it, must be short enough for the key layout, as
/// `can_serve` tests.
pub fn execute(
    storage: &mut MemoryStorage,
    info: MessageInfo,
    msg: CoolNSExecuteMessage,
) -> (result: Result<Response, RegistryError>)
    requires
        servable(store_contents(*old(storage)), execute_tld(msg@)),
    ensures
        response_result(result) == execute_result(
            store_contents(*old(storage)),
            info.sender@,
            coins(info.funds@),
            msg@,
        ),
        store_contents(*final(storage)) == execute_store(
            store_contents(*old(storage)),
            info.sender@,
            coins(info.funds@),
            msg@,
        ),
        result is Err ==> store_contents(*final(storage)) == store_contents(*old(storage)),
{
    match msg {
        CoolNSExecuteMessage::Register { name, tld } => {
            try_register_name(storage, &info, &name, &tld)
        },
        CoolNSExecuteMessage::SetValue { name, tld, value } => {
            try_set_value(storage, &info, &name, &tld, value)
        },
        CoolNSExecuteMessage::SetOwner { name, tld, owner } => {
            try_set_owner(storage, &info, &name, &tld, owner)
        },
    }
}

/// Serves one request that only reads. The namespace must be short enough
/// for the key layout, as `tld_is_usable` tests.
pub fn query(storage: &MemoryStorage, msg: CoolNSQueryMessage) -> (result: Result<
    NameRecord,
    RegistryError,
>)
    requires
        tld_fits(query_tld(msg@)),
    ensures
        record_result(result) == query_result(store_contents(*storage), msg@),
{
    match msg {
        CoolNSQueryMessage::ResolveName { name, tld } => {
            let name_registry = NameRegistry::new(&tld);
            name_registry.try_resolve_name(storage, &name)
        },
        CoolNSQueryMessage::ResolveLineage { lineage, tld } => {
            let name_registry = NameRegistry::new(&tld);
            name_registry.try_resolve_lineage(storage, &lineage)
        },
    }
}

} // verus!
