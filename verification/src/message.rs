//! What callers send to the registry and what they get back.

use crate::codec::opt_text;
use crate::config::{Coin, CoinView};
use crate::registry::{NameRecord, NameRecordView};
use vstd::prelude::*;

verus! {

/// The settings that a deployment starts with.
#[derive(Debug, PartialEq, Eq)]
pub struct CoolNSInstantiateMessage {
    pub registration_fee: Option<Coin>,
    pub allowed_tlds: Vec<String>,
}

/// A request that changes the registry.
#[derive(Debug, PartialEq, Eq)]
pub enum CoolNSExecuteMessage {
    Register { name: String, tld: String },
    SetValue { name: String, tld: String, value: Option<String> },
    SetOwner { name: String, tld: String, owner: String },
}

/// A request that only reads.
#[derive(Debug, PartialEq, Eq)]
pub enum CoolNSQueryMessage {
    ResolveName { name: String, tld: String },
    ResolveLineage { tld: String, lineage: String },
}

/// Who sent a request, and the payment attached to it.
#[derive(Debug, PartialEq, Eq)]
pub struct MessageInfo {
    pub sender: String,
    pub funds: Vec<Coin>,
}

/// The answer to a request that changed the registry: the record as it is
/// after the change, where the request was about an existing name.
#[derive(Debug, PartialEq, Eq)]
pub struct Response {
    pub data: Option<NameRecord>,
}

/// The coins that a sequence of `Coin`s stands for.
pub open spec fn coins(funds: Seq<Coin>) -> Seq<CoinView> {
    funds.map_values(|c: Coin| c@)
}

/// The record that an optional `NameRecord` stands for.
pub open spec fn opt_record(record: Option<NameRecord>) -> Option<NameRecordView> {
    match record {
        Some(r) => Some(r@),
        None => None,
    }
}

impl Clone for MessageInfo {
    fn clone(&self) -> (copy: Self)
        ensures
            copy.sender@ == self.sender@,
            coins(copy.funds@) == coins(self.funds@),
    {
        let mut funds: Vec<Coin> = Vec::new();
        let mut i: usize = 0;
        while i < self.funds.len()
            invariant
                i <= self.funds.len(),
                funds@.len() == i,
                forall|j: int| 0 <= j < i ==> (#[trigger] funds@[j])@ == self.funds@[j]@,
            decreases self.funds.len() - i,
        {
            funds.push(self.funds[i].clone());
            i += 1;
        }
        assert(coins(funds@) =~= coins(self.funds@));
        MessageInfo { sender: self.sender.clone(), funds }
    }
}

impl Clone for Response {
    fn clone(&self) -> (copy: Self)
        ensures
            copy@ == self@,
    {
        let data = match &self.data {
            Some(record) => Some(record.clone()),
            None => None,
        };
        Response { data }
    }
}

impl View for Response {
    type V = Option<NameRecordView>;

    open spec fn view(&self) -> Option<NameRecordView> {
        opt_record(self.data)
    }
}

/// A request that changes the registry, as contracts see it.
pub enum ExecuteView {
    Register { name: Seq<char>, tld: Seq<char> },
    SetValue { name: Seq<char>, tld: Seq<char>, value: Option<Seq<char>> },
    SetOwner { name: Seq<char>, tld: Seq<char>, owner: Seq<char> },
}

/// A request that only reads, as contracts see it.
pub enum QueryView {
    ResolveName { name: Seq<char>, tld: Seq<char> },
    ResolveLineage { tld: Seq<char>, lineage: Seq<char> },
}

impl View for CoolNSExecuteMessage {
    type V = ExecuteView;

    open spec fn view(&self) -> ExecuteView {
        match *self {
            CoolNSExecuteMessage::Register { name, tld } => ExecuteView::Register {
                name: name@,
                tld: tld@,
            },
            CoolNSExecuteMessage::SetValue { name, tld, value } => ExecuteView::SetValue {
                name: name@,
                tld: tld@,
                value: opt_text(value),
            },
            CoolNSExecuteMessage::SetOwner { name, tld, owner } => ExecuteView::SetOwner {
                name: name@,
                tld: tld@,
                owner: owner@,
            },
        }
    }
}

impl View for CoolNSQueryMessage {
    type V = QueryView;

    open spec fn view(&self) -> QueryView {
        match *self {
            CoolNSQueryMessage::ResolveName { name, tld } => QueryView::ResolveName {
                name: name@,
                tld: tld@,
            },
            CoolNSQueryMessage::ResolveLineage { tld, lineage } => QueryView::ResolveLineage {
                tld: tld@,
                lineage: lineage@,
            },
        }
    }
}

} // verus!
