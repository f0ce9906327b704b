//! The per-connection translator between frames and hub events.
//!
//! An interactor holds the client id the server issued and nothing else.
//! It turns each inbound frame into the hub event it stands for, and each
//! outbound server event into a frame; the caller owns the socket, the
//! handshake sequencing and the close.

use vstd::prelude::*;

use crate::codec::Serializable;
use crate::events::{ClientEvent, ClientEventV, ServerEvent};
use crate::frame::{enc_frame, frame_message};
use crate::messages::{AuthenticationRequest, AuthenticationResponse, Message, MessageV};

verus! {

pub struct Interactor {
    pub id: String,
}

impl Interactor {
    pub fn new(id: String) -> (r: Interactor)
        ensures
            r.id == id,
    {
        Interactor { id }
    }

    /// Reads the handshake frame: it must hold an authentication request;
    /// anything else ends the connection.
    pub fn read_handshake(payload: &Vec<u8>) -> (r: Option<AuthenticationRequest>)
        ensures
            match r {
                Some(a) => {
                    &&& <Message as Serializable>::dec(payload@) matches Some((m, _))
                    &&& <Message as Serializable>::dec(payload@)->Some_0.0
                        == MessageV::AuthenticationRequest(a.deep_view())
                },
                None => match <Message as Serializable>::dec(payload@) {
                    Some((m, _)) => !(m is AuthenticationRequest),
                    None => true,
                },
            },
    {
        proof {
            assert(payload@.skip(0) =~= payload@);
        }
        let mut pos: usize = 0;
        match Message::deserialize(payload, &mut pos) {
            Some(Message::AuthenticationRequest(a)) => Some(a),
            _ => None,
        }
    }

    /// The reply a freshly authenticated client receives.
    pub fn authentication_response(&self) -> (r: Message)
        ensures
            r.deep_view() == MessageV::AuthenticationResponse(
                crate::messages::AuthenticationResponseV { client_id: self.id@ },
            ),
    {
        Message::AuthenticationResponse(AuthenticationResponse { client_id: self.id.clone() })
    }

    /// Turns one inbound frame into the hub event it stands for; a frame
    /// that holds no well-formed message ends the connection.
    pub fn on_frame(&self, payload: &Vec<u8>) -> (r: Option<ClientEvent>)
        ensures
            match r {
                Some(ev) => {
                    &&& <Message as Serializable>::dec(payload@) matches Some((m, _))
                    &&& ev.deep_view() == ClientEventV::OnMessage(
                        self.id@,
                        <Message as Serializable>::dec(payload@)->Some_0.0,
                    )
                },
                None => <Message as Serializable>::dec(payload@) is None,
            },
    {
        proof {
            assert(payload@.skip(0) =~= payload@);
        }
        let mut pos: usize = 0;
        match Message::deserialize(payload, &mut pos) {
            Some(m) => Some(ClientEvent::OnMessage(self.id.clone(), m)),
            None => None,
        }
    }

    /// Turns one outbound server event into its frame; refused when the
    /// message does not fit the wire format.
    pub fn encode_event(event: &ServerEvent) -> (r: Option<Vec<u8>>)
        ensures
            ({
                let body = <Message as Serializable>::enc(event.deep_view());
                let ok = <Message as Serializable>::enc_ok(event.deep_view()) && body.len()
                    <= crate::codec::max_len();
                match r {
                    Some(b) => ok && b@ == enc_frame(body),
                    None => !ok,
                }
            }),
    {
        match event {
            ServerEvent::OnMessage(m) => frame_message(m),
        }
    }
}

} // verus!
