//! The settings of a deployment: the fee that a registration costs, if any,
//! and the top-level namespaces that accept names. They live in the store
//! under one fixed key and are read anew by every operation.

use crate::codec::{
    framed_text, lemma_take_text, lemma_take_u128, lemma_take_u64, put_text, put_u128, put_u64,
    read_text, read_u128, read_u64, take_text, take_u128, take_u64, text_fits,
};
use crate::error::RegistryError;
use crate::store::{length_prefixed, store_contents, store_get, store_set, table_prefix};
use cosmwasm_std::MemoryStorage;
use vstd::bytes::{spec_u128_to_le_bytes, spec_u64_to_le_bytes};
use vstd::prelude::*;
use vstd::utf8::{encode_utf8, is_ascii_chars_encode_utf8};

verus! {

/// An amount of one denomination.
#[derive(Debug, PartialEq, Eq)]
pub struct Coin {
    pub denom: String,
    pub amount: u128,
}

/// A coin as contracts see it.
pub struct CoinView {
    pub denom: Seq<char>,
    pub amount: u128,
}

impl View for Coin {
    type V = CoinView;

    open spec fn view(&self) -> CoinView {
        CoinView { denom: self.denom@, amount: self.amount }
    }
}

/// What a deployment is set up with.
#[derive(Debug, PartialEq, Eq)]
pub struct Config {
    pub registration_fee: Option<Coin>,
    pub allowed_tlds: Vec<String>,
}

/// The settings as contracts see them.
pub struct ConfigView {
    pub registration_fee: Option<CoinView>,
    pub allowed_tlds: Seq<Seq<char>>,
}

/// The coin that an optional `Coin` stands for.
pub open spec fn opt_coin(coin: Option<Coin>) -> Option<CoinView> {
    match coin {
        Some(c) => Some(c@),
        None => None,
    }
}

/// The texts that a sequence of `String`s stands for.
pub open spec fn texts(strings: Seq<String>) -> Seq<Seq<char>> {
    strings.map_values(|s: String| s@)
}

impl View for Config {
    type V = ConfigView;

    open spec fn view(&self) -> ConfigView {
        ConfigView {
            registration_fee: opt_coin(self.registration_fee),
            allowed_tlds: texts(self.allowed_tlds@),
        }
    }
}

impl Clone for Coin {
    fn clone(&self) -> (copy: Self)
        ensures
            copy@ == self@,
    {
        Coin { denom: self.denom.clone(), amount: self.amount }
    }
}

impl Clone for Config {
    fn clone(&self) -> (copy: Self)
        ensures
            copy@ == self@,
    {
        let registration_fee = match &self.registration_fee {
            Some(fee) => Some(fee.clone()),
            None => None,
        };
        Config { registration_fee, allowed_tlds: clone_texts(&self.allowed_tlds) }
    }
}

/// A copy of a list of texts.
pub fn clone_texts(items: &Vec<String>) -> (copy: Vec<String>)
    ensures
        texts(copy@) == texts(items@),
{
    let mut copy: Vec<String> = Vec::new();
    let mut i: usize = 0;
    while i < items.len()
        invariant
            i <= items.len(),
            copy@.len() == i,
            forall|j: int| 0 <= j < i ==> (#[trigger] copy@[j])@ == items@[j]@,
        decreases items.len() - i,
    {
        copy.push(items[i].clone());
        i += 1;
    }
    assert(texts(copy@) =~= texts(items@));
    copy
}

/// An optional fee: the tag 0 alone, or the tag 1, the denomination and the
/// amount in 16 bytes.
pub open spec fn framed_opt_coin(coin: Option<CoinView>) -> Seq<u8> {
    match coin {
        None => seq![0u8],
        Some(c) => seq![1u8] + framed_text(c.denom) + spec_u128_to_le_bytes(c.amount),
    }
}

/// Texts framed one after the other.
pub open spec fn framed_texts(items: Seq<Seq<char>>) -> Seq<u8>
    decreases items.len(),
{
    if items.len() == 0 {
        Seq::empty()
    } else {
        framed_text(items[0]) + framed_texts(items.drop_first())
    }
}

/// The optional fee in front, and what follows it.
pub open spec fn take_opt_coin(bytes: Seq<u8>) -> Option<(Option<CoinView>, Seq<u8>)> {
    if bytes.len() == 0 {
        None
    } else if bytes[0] == 0 {
        Some((None, bytes.skip(1)))
    } else if bytes[0] == 1 {
        match take_text(bytes.skip(1)) {
            Some((denom, rest)) => match take_u128(rest) {
                Some((amount, rest)) => Some((Some(CoinView { denom, amount }), rest)),
                None => None,
            },
            None => None,
        }
    } else {
        None
    }
}

/// The first `count` framed texts, and what follows them.
pub open spec fn take_texts(bytes: Seq<u8>, count: nat) -> Option<(Seq<Seq<char>>, Seq<u8>)>
    decreases count,
{
    if count == 0 {
        Some((Seq::empty(), bytes))
    } else {
        match take_text(bytes) {
            Some((first, rest)) => match take_texts(rest, (count - 1) as nat) {
                Some((others, rest)) => Some((seq![first] + others, rest)),
                None => None,
            },
            None => None,
        }
    }
}

impl ConfigView {
    /// Whether every part of the settings is short enough to be framed. The
    /// view of every `Config` is.
    pub open spec fn fits(self) -> bool {
        &&& self.registration_fee is Some ==> text_fits(self.registration_fee->0.denom)
        &&& self.allowed_tlds.len() <= u64::MAX
        &&& forall|i: int|
            0 <= i < self.allowed_tlds.len() ==> text_fits(#[trigger] self.allowed_tlds[i])
    }

    /// The bytes under which the settings are kept in the store.
    pub open spec fn framed(self) -> Seq<u8> {
        framed_opt_coin(self.registration_fee) + spec_u64_to_le_bytes(
            self.allowed_tlds.len() as u64,
        ) + framed_texts(self.allowed_tlds)
    }

    /// Whether `tld` is among the allowed namespaces.
    pub open spec fn allows(self, tld: Seq<char>) -> bool {
        self.allowed_tlds.contains(tld)
    }
}

/// The settings that a byte sequence holds, if it is settings in the
/// registry's framing and nothing more.
pub open spec fn parse_config(bytes: Seq<u8>) -> Option<ConfigView> {
    match take_opt_coin(bytes) {
        Some((registration_fee, rest)) => match take_u64(rest) {
            Some((count, rest)) => match take_texts(rest, count as nat) {
                Some((allowed_tlds, rest)) => if rest.len() == 0 {
                    Some(ConfigView { registration_fee, allowed_tlds })
                } else {
                    None
                },
                None => None,
            },
            None => None,
        },
        None => None,
    }
}

/// The key under which the settings are kept.
pub open spec fn config_key() -> Seq<u8> {
    table_prefix(encode_utf8("config"@))
}

/// What `get_config` returns for a store with the given contents.
pub open spec fn loaded_config(contents: Map<Seq<u8>, Seq<u8>>) -> Result<
    ConfigView,
    RegistryError,
> {
    if !contents.contains_key(config_key()) {
        Err(RegistryError::ConfigNotFound)
    } else {
        match parse_config(contents[config_key()]) {
            Some(config) => Ok(config),
            None => Err(RegistryError::CorruptEntry),
        }
    }
}

/// A result with the settings in it seen as contracts see them.
pub open spec fn config_result(result: Result<Config, RegistryError>) -> Result<
    ConfigView,
    RegistryError,
> {
    match result {
        Ok(config) => Ok(config@),
        Err(e) => Err(e),
    }
}

/// Framing one more text appends its frame.
pub proof fn lemma_framed_texts_push(items: Seq<Seq<char>>, last: Seq<char>)
    ensures
        framed_texts(items.push(last)) == framed_texts(items) + framed_text(last),
    decreases items.len(),
{
    if items.len() == 0 {
        let one = items.push(last);
        assert(one.drop_first() =~= Seq::<Seq<char>>::empty());
        assert(framed_texts(one.drop_first()) =~= Seq::<u8>::empty());
        assert(one[0] == last);
        assert(framed_texts(one) =~= framed_text(last) + framed_texts(one.drop_first()));
        assert(framed_texts(items) =~= Seq::<u8>::empty());
        assert(framed_texts(one) =~= framed_texts(items) + framed_text(last));
    } else {
        lemma_framed_texts_push(items.drop_first(), last);
        assert(items.push(last).drop_first() =~= items.drop_first().push(last));
        assert(framed_texts(items.push(last)) =~= framed_texts(items) + framed_text(last));
    }
}

/// A reader finds framed texts again, and behind them what was written
/// next.
pub proof fn lemma_take_texts(items: Seq<Seq<char>>, rest: Seq<u8>)
    requires
        forall|i: int| 0 <= i < items.len() ==> text_fits(#[trigger] items[i]),
    ensures
        take_texts(framed_texts(items) + rest, items.len()) == Some((items, rest)),
    decreases items.len(),
{
    if items.len() == 0 {
        assert(framed_texts(items) + rest =~= rest);
        assert(items =~= Seq::<Seq<char>>::empty());
    } else {
        let tail = items.drop_first();
        assert forall|i: int| 0 <= i < tail.len() implies text_fits(#[trigger] tail[i]) by {
            assert(tail[i] == items[i + 1]);
        }
        lemma_take_texts(tail, rest);
        lemma_take_text(items[0], framed_texts(tail) + rest);
        assert(framed_texts(items) + rest =~= framed_text(items[0]) + (framed_texts(tail) + rest));
        assert(seq![items[0]] + tail =~= items);
    }
}

/// What was framed parses back to the same settings.
pub proof fn lemma_parse_framed_config(config: ConfigView)
    requires
        config.fits(),
    ensures
        parse_config(config.framed()) == Some(config),
        config.framed().len() > 0,
{
    let count = config.allowed_tlds.len() as u64;
    let tail2 = framed_texts(config.allowed_tlds);
    let tail1 = spec_u64_to_le_bytes(count) + tail2;
    let head = framed_opt_coin(config.registration_fee);
    assert(config.framed() =~= head + tail1);
    match config.registration_fee {
        None => {
            assert((head + tail1).skip(1) =~= tail1);
        },
        Some(c) => {
            let after_denom = spec_u128_to_le_bytes(c.amount) + tail1;
            assert((head + tail1).skip(1) =~= framed_text(c.denom) + after_denom);
            lemma_take_text(c.denom, after_denom);
            lemma_take_u128(c.amount, tail1);
        },
    }
    lemma_take_u64(count, tail2);
    assert(tail2 =~= tail2 + Seq::<u8>::empty());
    lemma_take_texts(config.allowed_tlds, Seq::<u8>::empty());
}

impl Config {
    /// The bytes under which the settings are kept in the store.
    pub fn to_bytes(&self) -> (bytes: Vec<u8>)
        ensures
            bytes@ == self@.framed(),
            parse_config(bytes@) == Some(self@),
            bytes@.len() > 0,
    {
        let mut bytes: Vec<u8> = Vec::new();
        match &self.registration_fee {
            None => {
                bytes.push(0u8);
            },
            Some(fee) => {
                bytes.push(1u8);
                put_text(&mut bytes, fee.denom.as_str());
                put_u128(&mut bytes, fee.amount);
            },
        }
        assert(bytes@ =~= framed_opt_coin(self@.registration_fee));
        let count: usize = self.allowed_tlds.len();
        put_u64(&mut bytes, count as u64);
        let ghost head = bytes@;
        let mut i: usize = 0;
        assert(texts(self.allowed_tlds@).take(0) =~= Seq::<Seq<char>>::empty());
        assert(bytes@ =~= head + framed_texts(texts(self.allowed_tlds@).take(0)));
        while i < count
            invariant
                i <= count,
                count == self.allowed_tlds.len(),
                bytes@ == head + framed_texts(texts(self.allowed_tlds@).take(i as int)),
                forall|j: int| 0 <= j < i ==> text_fits(#[trigger] texts(self.allowed_tlds@)[j]),
            decreases count - i,
        {
            put_text(&mut bytes, self.allowed_tlds[i].as_str());
            proof {
                let all = texts(self.allowed_tlds@);
                lemma_framed_texts_push(all.take(i as int), all[i as int]);
                assert(all.take(i as int).push(all[i as int]) =~= all.take(i + 1));
                assert(bytes@ =~= head + framed_texts(all.take(i + 1)));
            }
            i += 1;
        }
        proof {
            let all = texts(self.allowed_tlds@);
            assert(all.take(count as int) =~= all);
            assert(bytes@ =~= self@.framed());
            lemma_parse_framed_config(self@);
        }
        bytes
    }

    /// Reads settings back from the bytes kept in the store.
    pub fn from_bytes(bytes: &[u8]) -> (config: Option<Config>)
        ensures
            match config {
                Some(c) => parse_config(bytes@) == Some(c@),
                None => parse_config(bytes@) is None,
            },
    {
        assert(bytes@.skip(0) =~= bytes@);
        let (registration_fee, after_fee) = match read_opt_coin(bytes, 0) {
            Some(found) => found,
            None => { return None; },
        };
        let (count, start) = match read_u64(bytes, after_fee) {
            Some(found) => found,
            None => { return None; },
        };
        let mut allowed_tlds: Vec<String> = Vec::new();
        let mut pos: usize = start;
        let mut i: u64 = 0;
        assert(texts(allowed_tlds@) =~= Seq::<Seq<char>>::empty());
        while i < count
            invariant
                i <= count,
                pos <= bytes@.len(),
                take_opt_coin(bytes@) == Some(
                    (opt_coin(registration_fee), bytes@.skip(after_fee as int)),
                ),
                take_u64(bytes@.skip(after_fee as int)) == Some(
                    (count, bytes@.skip(start as int)),
                ),
                match take_texts(bytes@.skip(pos as int), (count - i) as nat) {
                    Some((others, rest)) => take_texts(bytes@.skip(start as int), count as nat)
                        == Some((texts(allowed_tlds@) + others, rest)),
                    None => take_texts(bytes@.skip(start as int), count as nat) is None,
                },
            decreases count - i,
        {
            let (tld, next) = match read_text(bytes, pos) {
                Some(found) => found,
                None => { return None; },
            };
            proof {
                let before = texts(allowed_tlds@);
                let after = texts(allowed_tlds@.push(tld));
                assert(after =~= before.push(tld@));
                match take_texts(bytes@.skip(next as int), (count - i - 1) as nat) {
                    Some((others, rest)) => {
                        assert(before + (seq![tld@] + others) =~= after + others);
                    },
                    None => {},
                }
            }
            allowed_tlds.push(tld);
            pos = next;
            i += 1;
        }
        if pos != bytes.len() {
            return None;
        }
        proof {
            assert(texts(allowed_tlds@) + Seq::<Seq<char>>::empty() =~= texts(allowed_tlds@));
        }
        Some(Config { registration_fee, allowed_tlds })
    }

    /// Whether `tld` is among the allowed namespaces.
    pub fn allows(&self, tld: &String) -> (allowed: bool)
        ensures
            allowed == self@.allows(tld@),
    {
        let mut i: usize = 0;
        while i < self.allowed_tlds.len()
            invariant
                i <= self.allowed_tlds.len(),
                forall|j: int| 0 <= j < i ==> texts(self.allowed_tlds@)[j] != tld@,
            decreases self.allowed_tlds.len() - i,
        {
            if self.allowed_tlds[i] == *tld {
                assert(texts(self.allowed_tlds@)[i as int] == tld@);
                return true;
            }
            i += 1;
        }
        false
    }
}

fn read_opt_coin(bytes: &[u8], pos: usize) -> (found: Option<(Option<Coin>, usize)>)
    requires
        pos <= bytes@.len(),
    ensures
        match found {
            Some((coin, next)) => pos <= next <= bytes@.len() && take_opt_coin(
                bytes@.skip(pos as int),
            ) == Some((opt_coin(coin), bytes@.skip(next as int))),
            None => take_opt_coin(bytes@.skip(pos as int)) is None,
        },
{
    if pos == bytes.len() {
        return None;
    }
    let tag: u8 = bytes[pos];
    proof {
        let tail = bytes@.skip(pos as int);
        assert(tail[0] == tag);
        assert(tail.skip(1) =~= bytes@.skip(pos + 1));
    }
    if tag == 0 {
        Some((None, pos + 1))
    } else if tag == 1 {
        let (denom, next) = match read_text(bytes, pos + 1) {
            Some(found) => found,
            None => { return None; },
        };
        let (amount, next) = match read_u128(bytes, next) {
            Some(found) => found,
            None => { return None; },
        };
        Some((Some(Coin { denom, amount }), next))
    } else {
        None
    }
}

/// The storage key of the settings.
pub fn get_config_key() -> (key: Vec<u8>)
    ensures
        key@ == config_key(),
{
    proof {
        reveal_strlit("config");
        is_ascii_chars_encode_utf8("config"@);
    }
    length_prefixed("config".as_bytes())
}

/// Loads the settings. Fails with `ConfigNotFound` where none were ever
/// saved, and with `CorruptEntry` where the bytes under the key are no
/// settings.
pub fn get_config(storage: &MemoryStorage) -> (result: Result<Config, RegistryError>)
    ensures
        config_result(result) == loaded_config(store_contents(*storage)),
{
    let key = get_config_key();
    match store_get(storage, key.as_slice()) {
        Some(stored) => match Config::from_bytes(stored.as_slice()) {
            Some(config) => Ok(config),
            None => Err(RegistryError::CorruptEntry),
        },
        None => Err(RegistryError::ConfigNotFound),
    }
}

/// Replaces the stored settings, whatever they were and whatever the new
/// ones hold. This never fails, and the new settings are what `get_config`
/// returns from then on.
pub fn set_config(storage: &mut MemoryStorage, config: Config) -> (result: Result<
    (),
    RegistryError,
>)
    ensures
        result is Ok,
        store_contents(*final(storage)) == store_contents(*old(storage)).insert(
            config_key(),
            config@.framed(),
        ),
        loaded_config(store_contents(*final(storage))) == Ok::<ConfigView, RegistryError>(
            config@,
        ),
{
    let key = get_config_key();
    let bytes = config.to_bytes();
    store_set(storage, key.as_slice(), bytes.as_slice());
    Ok(())
}

} // verus!
