//! What a service is told about the call it serves, and the events it emits.

use crate::asset::types::{Asset, TransferEvent};
use crate::dex::types::{Order, OrderView, Trade};
use crate::primitive::{self, bytes_equal, Address};
use vstd::prelude::*;

verus! {

/// The capability token, `dex_token` in ASCII, that admits a caller to the
/// privileged balance operations.
pub open spec fn admission_token() -> Seq<u8> {
    seq![100u8, 101u8, 120u8, 95u8, 116u8, 111u8, 107u8, 101u8, 110u8]
}

/// The capability token as bytes.
pub fn admission_token_bytes() -> (token: Vec<u8>)
    ensures
        token@ == admission_token(),
{
    let mut token: Vec<u8> = Vec::new();
    token.push(100u8);
    token.push(101u8);
    token.push(120u8);
    token.push(95u8);
    token.push(116u8);
    token.push(111u8);
    token.push(107u8);
    token.push(101u8);
    token.push(110u8);
    assert(token@ =~= admission_token());
    token
}

/// A record that a service publishes in the block's receipt log.
#[derive(Debug)]
pub enum Event {
    CreateAsset(Asset),
    TransferAsset(TransferEvent),
    AddTrade(Trade),
    Order(Order),
}

/// An event as a mathematical value.
pub enum EventView {
    CreateAsset(Asset),
    TransferAsset(TransferEvent),
    AddTrade(Trade),
    Order(OrderView),
}

impl View for Event {
    type V = EventView;

    open spec fn view(&self) -> EventView {
        match self {
            Event::CreateAsset(a) => EventView::CreateAsset(*a),
            Event::TransferAsset(t) => EventView::TransferAsset(*t),
            Event::AddTrade(t) => EventView::AddTrade(*t),
            Event::Order(o) => EventView::Order(o@),
        }
    }
}

impl EventView {
    /// The topic under which the event is published.
    pub open spec fn topic(self) -> Seq<char> {
        match self {
            EventView::CreateAsset(_) => "CreateAsset"@,
            EventView::TransferAsset(_) => "TransferAsset"@,
            EventView::AddTrade(_) => "AddTrade"@,
            EventView::Order(_) => "Order"@,
        }
    }
}

impl Event {
    /// The topic under which the event is published.
    pub fn topic(&self) -> (name: &'static str)
        ensures
            name@ == self@.topic(),
    {
        match self {
            Event::CreateAsset(_) => "CreateAsset",
            Event::TransferAsset(_) => "TransferAsset",
            Event::AddTrade(_) => "AddTrade",
            Event::Order(_) => "Order",
        }
    }
}

/// What the executor tells a hook that runs after a block.
#[derive(Clone, Copy, Debug, PartialEq, Eq)]
pub struct ExecutorParams {
    pub height: u64,
}

/// The values from which a context is made.
#[derive(Debug)]
pub struct ServiceContextParams {
    pub tx_hash: Option<primitive::Hash>,
    pub caller: Address,
    pub height: u64,
    pub extra: Option<Vec<u8>>,
    pub events: Vec<Event>,
}

/// What a service knows of the call it serves: who calls, in which
/// transaction and block, with which capability token, and what was emitted.
#[derive(Debug)]
pub struct ServiceContext {
    pub tx_hash: Option<primitive::Hash>,
    pub caller: Address,
    pub height: u64,
    pub extra: Option<Vec<u8>>,
    pub events: Vec<Event>,
}

impl ServiceContext {
    /// Whether the context carries the admission token.
    pub open spec fn admitted(&self) -> bool {
        self.extra matches Some(e) && e@ == admission_token()
    }

    /// The events emitted so far, oldest first.
    pub open spec fn emitted(&self) -> Seq<EventView> {
        self.events@.map_values(|e: Event| e@)
    }

    /// The context made of the given values.
    pub fn new(params: ServiceContextParams) -> (ctx: Self)
        ensures
            ctx.tx_hash == params.tx_hash,
            ctx.caller == params.caller,
            ctx.height == params.height,
            ctx.extra == params.extra,
            ctx.events == params.events,
    {
        ServiceContext {
            tx_hash: params.tx_hash,
            caller: params.caller,
            height: params.height,
            extra: params.extra,
            events: params.events,
        }
    }

    /// Who calls.
    pub fn get_caller(&self) -> (caller: Address)
        ensures
            caller == self.caller,
    {
        self.caller
    }

    /// The hash of the transaction, if the call is made in one.
    pub fn get_tx_hash(&self) -> (tx_hash: Option<primitive::Hash>)
        ensures
            tx_hash == self.tx_hash,
    {
        self.tx_hash
    }

    /// The height of the block in which the call is made.
    pub fn get_current_height(&self) -> (height: u64)
        ensures
            height == self.height,
    {
        self.height
    }

    /// Whether the context carries the admission token.
    pub fn is_admitted(&self) -> (yes: bool)
        ensures
            yes == self.admitted(),
    {
        match &self.extra {
            Some(e) => {
                let token = admission_token_bytes();
                bytes_equal(e.as_slice(), token.as_slice())
            },
            None => false,
        }
    }

    /// Appends an event to the log.
    pub fn emit_event(&mut self, event: Event)
        ensures
            final(self).emitted() == old(self).emitted().push(event@),
            final(self).tx_hash == old(self).tx_hash,
            final(self).caller == old(self).caller,
            final(self).height == old(self).height,
            final(self).extra == old(self).extra,
    {
        self.events.push(event);
        assert(self.emitted() =~= old(self).emitted().push(event@));
    }
}

} // verus!
