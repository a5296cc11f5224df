//! The checks that stand before every change of the registry: the settings
//! must be there, the namespace must be allowed, a registration must be paid
//! for, and only the owner of a name may change it.

use crate::codec::opt_text;
use crate::config::{
    config_result, get_config, loaded_config, Coin, CoinView, Config, ConfigView,
};
use crate::error::RegistryError;
use crate::laws::{extends_histories, holds_history, Change};
use crate::message::{coins, MessageInfo, Response};
use crate::registry::{
    after_change, after_register, is_registered, links_back, resolved_name, set_owner_result,
    set_value_result, tld_fits, tld_is_usable, value_too_long, NameRecordView, NameRegistry,
};
use crate::store::store_contents;
use cosmwasm_std::MemoryStorage;
use vstd::prelude::*;

verus! {

/// Whether one of the coins is of the fee's denomination and at least as
/// large as the fee.
pub open spec fn covers(fee: CoinView, funds: Seq<CoinView>) -> bool {
    exists|i: int|
        0 <= i < funds.len() && (#[trigger] funds[i]).denom == fee.denom && funds[i].amount
            >= fee.amount
}

/// Whether the attached payment meets the registration fee, if there is one.
pub open spec fn fee_paid(config: ConfigView, funds: Seq<CoinView>) -> bool {
    config.registration_fee is Some ==> covers(config.registration_fee->0, funds)
}

/// The settings, once the namespace of a request has passed: the error of
/// loading them, or `UnknownTld` where they do not allow the namespace.
pub open spec fn admitted(contents: Map<Seq<u8>, Seq<u8>>, tld: Seq<char>) -> Result<
    ConfigView,
    RegistryError,
> {
    match loaded_config(contents) {
        Ok(config) => if config.allows(tld) {
            Ok(config)
        } else {
            Err(RegistryError::UnknownTld)
        },
        Err(e) => Err(e),
    }
}

/// Whether the registry can serve a request about `tld`: where the settings
/// allow the namespace, it must be short enough for the key layout. A
/// request about any other namespace is refused before a key is made.
pub open spec fn servable(contents: Map<Seq<u8>, Seq<u8>>, tld: Seq<char>) -> bool {
    admitted(contents, tld) is Ok ==> tld_fits(tld)
}

/// What `try_register_name` returns.
pub open spec fn register_result(
    contents: Map<Seq<u8>, Seq<u8>>,
    funds: Seq<CoinView>,
    name: Seq<char>,
    tld: Seq<char>,
) -> Result<(), RegistryError> {
    match admitted(contents, tld) {
        Ok(config) => if !fee_paid(config, funds) {
            Err(RegistryError::InsufficientPayment)
        } else if is_registered(contents, tld, name) {
            Err(RegistryError::AlreadyRegistered)
        } else {
            Ok(())
        },
        Err(e) => Err(e),
    }
}

/// The store after `try_register_name`.
pub open spec fn register_store(
    contents: Map<Seq<u8>, Seq<u8>>,
    sender: Seq<char>,
    funds: Seq<CoinView>,
    name: Seq<char>,
    tld: Seq<char>,
) -> Map<Seq<u8>, Seq<u8>> {
    if register_result(contents, funds, name, tld) is Ok {
        after_register(contents, tld, name, sender)
    } else {
        contents
    }
}

/// The current record of a name, once a request to change it has passed
/// every check: the error of the first check that fails, in the order
/// settings, namespace, name, owner.
pub open spec fn authorized(
    contents: Map<Seq<u8>, Seq<u8>>,
    sender: Seq<char>,
    name: Seq<char>,
    tld: Seq<char>,
) -> Result<NameRecordView, RegistryError> {
    match admitted(contents, tld) {
        Ok(_) => match resolved_name(contents, tld, name) {
            Ok(current) => if current.owner == sender {
                Ok(current)
            } else {
                Err(RegistryError::NotOwner)
            },
            Err(e) => Err(e),
        },
        Err(e) => Err(e),
    }
}

/// Whether a request to change `name` gets as far as the ownership check,
/// and is made by someone other than the owner.
pub open spec fn asked_by_stranger(
    contents: Map<Seq<u8>, Seq<u8>>,
    sender: Seq<char>,
    name: Seq<char>,
    tld: Seq<char>,
) -> bool {
    &&& admitted(contents, tld) is Ok
    &&& resolved_name(contents, tld, name) is Ok
    &&& resolved_name(contents, tld, name)->Ok_0.owner != sender
}

/// What `try_set_value` returns, as a record.
pub open spec fn checked_set_value_result(
    contents: Map<Seq<u8>, Seq<u8>>,
    sender: Seq<char>,
    name: Seq<char>,
    tld: Seq<char>,
    value: Option<Seq<char>>,
) -> Result<NameRecordView, RegistryError> {
    match authorized(contents, sender, name, tld) {
        Ok(_) => set_value_result(contents, tld, name, value),
        Err(e) => Err(e),
    }
}

/// What `try_set_owner` returns, as a record.
pub open spec fn checked_set_owner_result(
    contents: Map<Seq<u8>, Seq<u8>>,
    sender: Seq<char>,
    name: Seq<char>,
    tld: Seq<char>,
    owner: Seq<char>,
) -> Result<NameRecordView, RegistryError> {
    match authorized(contents, sender, name, tld) {
        Ok(_) => set_owner_result(contents, tld, name, owner),
        Err(e) => Err(e),
    }
}

/// The answer that goes with the record of a change.
pub open spec fn response_of(result: Result<NameRecordView, RegistryError>) -> Result<
    Option<NameRecordView>,
    RegistryError,
> {
    match result {
        Ok(record) => Ok(Some(record)),
        Err(e) => Err(e),
    }
}

/// A result with the answer in it seen as contracts see it.
pub open spec fn response_result(result: Result<Response, RegistryError>) -> Result<
    Option<NameRecordView>,
    RegistryError,
> {
    match result {
        Ok(response) => Ok(response@),
        Err(e) => Err(e),
    }
}

/// Whether one of the attached coins covers the fee.
pub fn fee_is_covered(fee: &Coin, funds: &Vec<Coin>) -> (paid: bool)
    ensures
        paid == covers(fee@, coins(funds@)),
{
    let mut i: usize = 0;
    while i < funds.len()
        invariant
            i <= funds.len(),
            forall|j: int|
                0 <= j < i ==> !((#[trigger] coins(funds@)[j]).denom == fee@.denom && coins(
                    funds@,
                )[j].amount >= fee@.amount),
        decreases funds.len() - i,
    {
        if funds[i].denom == fee.denom && funds[i].amount >= fee.amount {
            assert(coins(funds@)[i as int].denom == fee@.denom);
            return true;
        }
        i += 1;
    }
    false
}

/// Whether the registry can serve a request about `tld`, as the three
/// operations below require. A namespace of 65521 bytes or less can always
/// be served.
pub fn can_serve(storage: &MemoryStorage, tld: &String) -> (servable: bool)
    ensures
        servable == self::servable(store_contents(*storage), tld@),
        tld_fits(tld@) ==> servable,
{
    if tld_is_usable(tld) {
        true
    } else {
        load_settings_for(storage, tld).is_err()
    }
}

/// Loads the settings and checks the namespace against them.
fn load_settings_for(storage: &MemoryStorage, tld: &String) -> (result: Result<
    Config,
    RegistryError,
>)
    ensures
        config_result(result) == admitted(store_contents(*storage), tld@),
{
    let config = get_config(storage)?;
    if !config.allows(tld) {
        return Err(RegistryError::UnknownTld);
    }
    Ok(config)
}

/// Hands a name to a new owner on behalf of `info.sender`, who must own it.
/// The answer carries the new record, which points back to the replaced
/// one. A failure leaves the store as it was. The namespace, where the
/// settings allow it, must be short enough for the key layout, as
/// `can_serve` tests.
pub fn try_set_owner(
    storage: &mut MemoryStorage,
    info: &MessageInfo,
    name: &String,
    tld: &String,
    new_owner: String,
) -> (result: Result<Response, RegistryError>)
    requires
        servable(store_contents(*old(storage)), tld@),
    ensures
        response_result(result) == response_of(
            checked_set_owner_result(
                store_contents(*old(storage)),
                info.sender@,
                name@,
                tld@,
                new_owner@,
            ),
        ),
        store_contents(*final(storage)) == after_change(
            store_contents(*old(storage)),
            tld@,
            name@,
            checked_set_owner_result(
                store_contents(*old(storage)),
                info.sender@,
                name@,
                tld@,
                new_owner@,
            ),
        ),
        result is Err ==> store_contents(*final(storage)) == store_contents(*old(storage)),
        asked_by_stranger(store_contents(*old(storage)), info.sender@, name@, tld@) ==> result
            == Err::<Response, RegistryError>(RegistryError::NotOwner),
        result is Ok ==> result->Ok_0@ is Some && links_back(
            store_contents(*final(storage)),
            tld@,
            name@,
            resolved_name(store_contents(*old(storage)), tld@, name@)->Ok_0,
            result->Ok_0@->0,
        ),
        result is Ok ==> extends_histories(
            store_contents(*old(storage)),
            store_contents(*final(storage)),
            tld@,
            name@,
            Change::Owner(new_owner@),
        ),
{
    load_settings_for(storage, tld)?;
    let mut name_registry = NameRegistry::new(tld);
    let name_record = name_registry.try_resolve_name(storage, name)?;
    if !(name_record.owner == info.sender) {
        return Err(RegistryError::NotOwner);
    }
    let name_record = name_registry.try_set_owner(storage, name, new_owner)?;
    Ok(Response { data: Some(name_record) })
}

/// Gives a name a new value, or none, on behalf of `info.sender`, who must
/// own it. The answer carries the new record, which points back to the
/// replaced one. A failure leaves the store as it was. The namespace, where
/// the settings allow it, must be short enough for the key layout, as
/// `can_serve` tests.
pub fn try_set_value(
    storage: &mut MemoryStorage,
    info: &MessageInfo,
    name: &String,
    tld: &String,
    value: Option<String>,
) -> (result: Result<Response, RegistryError>)
    requires
        servable(store_contents(*old(storage)), tld@),
    ensures
        response_result(result) == response_of(
            checked_set_value_result(
                store_contents(*old(storage)),
                info.sender@,
                name@,
                tld@,
                opt_text(value),
            ),
        ),
        store_contents(*final(storage)) == after_change(
            store_contents(*old(storage)),
            tld@,
            name@,
            checked_set_value_result(
                store_contents(*old(storage)),
                info.sender@,
                name@,
                tld@,
                opt_text(value),
            ),
        ),
        result is Err ==> store_contents(*final(storage)) == store_contents(*old(storage)),
        asked_by_stranger(store_contents(*old(storage)), info.sender@, name@, tld@) ==> result
            == Err::<Response, RegistryError>(RegistryError::NotOwner),
        result is Ok ==> result->Ok_0@ is Some && links_back(
            store_contents(*final(storage)),
            tld@,
            name@,
            resolved_name(store_contents(*old(storage)), tld@, name@)->Ok_0,
            result->Ok_0@->0,
        ),
        result is Ok ==> extends_histories(
            store_contents(*old(storage)),
            store_contents(*final(storage)),
            tld@,
            name@,
            Change::Value(opt_text(value)),
        ),
        value_too_long(opt_text(value)) ==> result is Err,
        value_too_long(opt_text(value)) && authorized(
            store_contents(*old(storage)),
            info.sender@,
            name@,
            tld@,
        ) is Ok ==> result == Err::<Response, RegistryError>(RegistryError::ValueTooLong),
{
    load_settings_for(storage, tld)?;
    let mut name_registry = NameRegistry::new(tld);
    let name_record = name_registry.try_resolve_name(storage, name)?;
    if !(name_record.owner == info.sender) {
        return Err(RegistryError::NotOwner);
    }
    let name_record = name_registry.try_set_value(storage, name, value)?;
    Ok(Response { data: Some(name_record) })
}

/// Registers a name to `info.sender`. The namespace must be allowed, the
/// fee, if there is one, must be covered by one of the attached coins, and
/// the name must be free. A failure leaves the store as it was. The
/// namespace, where the settings allow it, must be short enough for the key
/// layout, as `can_serve` tests.
pub fn try_register_name(
    storage: &mut MemoryStorage,
    info: &MessageInfo,
    name: &String,
    tld: &String,
) -> (result: Result<Response, RegistryError>)
    requires
        servable(store_contents(*old(storage)), tld@),
    ensures
        match result {
            Ok(response) => response@ is None && register_result(
                store_contents(*old(storage)),
                coins(info.funds@),
                name@,
                tld@,
            ) is Ok,
            Err(e) => register_result(
                store_contents(*old(storage)),
                coins(info.funds@),
                name@,
                tld@,
            ) == Err::<(), RegistryError>(e),
        },
        store_contents(*final(storage)) == register_store(
            store_contents(*old(storage)),
            info.sender@,
            coins(info.funds@),
            name@,
            tld@,
        ),
        result is Err ==> store_contents(*final(storage)) == store_contents(*old(storage)),
        result is Ok ==> resolved_name(store_contents(*final(storage)), tld@, name@) == Ok::<
            NameRecordView,
            RegistryError,
        >(NameRecordView::initial(info.sender@)),
        result is Ok ==> holds_history(
            store_contents(*final(storage)),
            tld@,
            name@,
            NameRecordView::initial(info.sender@),
            Seq::empty(),
        ),
        is_registered(store_contents(*old(storage)), tld@, name@) ==> result is Err,
        is_registered(store_contents(*old(storage)), tld@, name@) && admitted(
            store_contents(*old(storage)),
            tld@,
        ) is Ok && fee_paid(
            admitted(store_contents(*old(storage)), tld@)->Ok_0,
            coins(info.funds@),
        ) ==> result == Err::<Response, RegistryError>(RegistryError::AlreadyRegistered),
{
    let config = load_settings_for(storage, tld)?;
    match &config.registration_fee {
        Some(fee) => {
            if !fee_is_covered(fee, &info.funds) {
                return Err(RegistryError::InsufficientPayment);
            }
        },
        None => {},
    }
    let mut name_registry = NameRegistry::new(tld);
    name_registry.try_register(storage, name, &info.sender)?;
    Ok(Response { data: None })
}

} // verus!
