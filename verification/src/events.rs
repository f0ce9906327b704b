//! The events that flow between connections and the hub.
//!
//! Interactors and the signal handler push `ClientEvent`s into the hub's
//! inbox; the hub answers with `ServerEvent`s addressed to client outboxes,
//! each wrapped in a `Delivery` naming its recipient.

use vstd::prelude::*;

use crate::authorization::{AuthorizationSpec, AuthorizationSpecV};
use crate::messages::{Message, MessageV};

verus! {

/// What a connection (or the reload handler) tells the hub.
pub enum ClientEvent {
    /// A client connected: id, peer host, authenticated user.
    OnConnect(String, String, String),
    /// A decoded message arrived from the client.
    OnMessage(String, Message),
    /// The client's connection ended.
    OnClose(String),
    /// A fresh authorization policy was loaded.
    OnReset(Vec<AuthorizationSpec>),
}

pub enum ClientEventV {
    OnConnect(Seq<char>, Seq<char>, Seq<char>),
    OnMessage(Seq<char>, MessageV),
    OnClose(Seq<char>),
    OnReset(Seq<AuthorizationSpecV>),
}

impl DeepView for ClientEvent {
    type V = ClientEventV;

    open spec fn deep_view(&self) -> ClientEventV {
        match self {
            ClientEvent::OnConnect(id, host, user) => ClientEventV::OnConnect(id@, host@, user@),
            ClientEvent::OnMessage(id, m) => ClientEventV::OnMessage(id@, m.deep_view()),
            ClientEvent::OnClose(id) => ClientEventV::OnClose(id@),
            ClientEvent::OnReset(specs) => ClientEventV::OnReset(specs.deep_view()),
        }
    }
}

/// What the hub tells a client.
pub enum ServerEvent {
    OnMessage(Message),
}

impl DeepView for ServerEvent {
    type V = MessageV;

    open spec fn deep_view(&self) -> MessageV {
        match self {
            ServerEvent::OnMessage(m) => m.deep_view(),
        }
    }
}

/// One outbound event and the client it goes to.
pub struct Delivery {
    pub client_id: String,
    pub event: ServerEvent,
}

pub struct DeliveryV {
    pub client_id: Seq<char>,
    pub message: MessageV,
}

impl DeepView for Delivery {
    type V = DeliveryV;

    open spec fn deep_view(&self) -> DeliveryV {
        DeliveryV { client_id: self.client_id@, message: self.event.deep_view() }
    }
}

} // verus!
