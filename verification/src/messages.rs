//! The wire-visible messages of the bus.
//!
//! Every message travels as a one-byte type code followed by its fields in
//! declaration order, each field in the form given in `codec`.  The
//! mathematical model of a message is its deep view: a mirror structure in
//! which strings are character sequences and vectors are sequences.

use vstd::prelude::*;

use crate::codec::{dec_u8, enc_u8, lemma_concat_skip, lemma_skip_skip, Serializable};

verus! {

// ---------------------------------------------------------------------------
// Message type codes
// ---------------------------------------------------------------------------
#[derive(Clone, Copy, PartialEq, Eq, Structural, Debug)]
pub enum MessageType {
    AuthenticationRequest,
    AuthenticationResponse,
    MulticastData,
    UnicastData,
    SubscriptionRequest,
    NotificationRequest,
    ForwardedMulticastData,
    ForwardedUnicastData,
    ForwardedSubscriptionRequest,
}

/// The stable one-byte code of each message type.
pub open spec fn type_code(t: MessageType) -> u8 {
    match t {
        MessageType::AuthenticationRequest => 1,
        MessageType::AuthenticationResponse => 2,
        MessageType::MulticastData => 3,
        MessageType::UnicastData => 4,
        MessageType::SubscriptionRequest => 5,
        MessageType::NotificationRequest => 6,
        MessageType::ForwardedMulticastData => 7,
        MessageType::ForwardedUnicastData => 8,
        MessageType::ForwardedSubscriptionRequest => 9,
    }
}

pub open spec fn type_of_code(c: u8) -> Option<MessageType> {
    if c == 1 {
        Some(MessageType::AuthenticationRequest)
    } else if c == 2 {
        Some(MessageType::AuthenticationResponse)
    } else if c == 3 {
        Some(MessageType::MulticastData)
    } else if c == 4 {
        Some(MessageType::UnicastData)
    } else if c == 5 {
        Some(MessageType::SubscriptionRequest)
    } else if c == 6 {
        Some(MessageType::NotificationRequest)
    } else if c == 7 {
        Some(MessageType::ForwardedMulticastData)
    } else if c == 8 {
        Some(MessageType::ForwardedUnicastData)
    } else if c == 9 {
        Some(MessageType::ForwardedSubscriptionRequest)
    } else {
        None
    }
}

impl MessageType {
    pub fn code(self) -> (c: u8)
        ensures
            c == type_code(self),
    {
        match self {
            MessageType::AuthenticationRequest => 1,
            MessageType::AuthenticationResponse => 2,
            MessageType::MulticastData => 3,
            MessageType::UnicastData => 4,
            MessageType::SubscriptionRequest => 5,
            MessageType::NotificationRequest => 6,
            MessageType::ForwardedMulticastData => 7,
            MessageType::ForwardedUnicastData => 8,
            MessageType::ForwardedSubscriptionRequest => 9,
        }
    }

    pub fn from_code(c: u8) -> (t: Option<MessageType>)
        ensures
            t == type_of_code(c),
    {
        if c == 1 {
            Some(MessageType::AuthenticationRequest)
        } else if c == 2 {
            Some(MessageType::AuthenticationResponse)
        } else if c == 3 {
            Some(MessageType::MulticastData)
        } else if c == 4 {
            Some(MessageType::UnicastData)
        } else if c == 5 {
            Some(MessageType::SubscriptionRequest)
        } else if c == 6 {
            Some(MessageType::NotificationRequest)
        } else if c == 7 {
            Some(MessageType::ForwardedMulticastData)
        } else if c == 8 {
            Some(MessageType::ForwardedUnicastData)
        } else if c == 9 {
            Some(MessageType::ForwardedSubscriptionRequest)
        } else {
            None
        }
    }
}

// ---------------------------------------------------------------------------
// Data packets
// ---------------------------------------------------------------------------
/// One unit of published data: the entitlements a reader must hold, and the
/// payload bytes.
#[derive(Clone, Debug, PartialEq)]
pub struct DataPacket {
    pub entitlements: Vec<i32>,
    pub data: Vec<u8>,
}

pub struct DataPacketV {
    pub entitlements: Seq<i32>,
    pub data: Seq<u8>,
}

impl DeepView for DataPacket {
    type V = DataPacketV;

    open spec fn deep_view(&self) -> DataPacketV {
        DataPacketV { entitlements: self.entitlements.deep_view(), data: self.data.deep_view() }
    }
}

impl DataPacket {
    pub fn new(entitlements: Vec<i32>, data: Vec<u8>) -> (r: DataPacket)
        ensures
            r.entitlements == entitlements,
            r.data == data,
    {
        DataPacket { entitlements, data }
    }

    /// A fresh packet with the same model.
    pub fn duplicate(&self) -> (r: DataPacket)
        ensures
            r.deep_view() == self.deep_view(),
    {
        let r = DataPacket {
            entitlements: copy_i32s(&self.entitlements),
            data: copy_bytes(&self.data),
        };
        proof {
            assert(r.deep_view().entitlements =~= self.deep_view().entitlements);
            assert(r.deep_view().data =~= self.deep_view().data);
        }
        r
    }
}

fn copy_i32s(v: &Vec<i32>) -> (r: Vec<i32>)
    ensures
        r@ == v@,
{
    let n = v.len();
    let mut r: Vec<i32> = Vec::new();
    let mut i: usize = 0;
    while i < n
        invariant
            i <= n,
            n == v.len(),
            r@ == v@.take(i as int),
        decreases n - i,
    {
        r.push(v[i]);
        proof {
            assert(r@ =~= v@.take(i + 1));
        }
        i = i + 1;
    }
    proof {
        assert(v@.take(n as int) =~= v@);
    }
    r
}

fn copy_bytes(v: &Vec<u8>) -> (r: Vec<u8>)
    ensures
        r@ == v@,
{
    let n = v.len();
    let mut r: Vec<u8> = Vec::new();
    let mut i: usize = 0;
    while i < n
        invariant
            i <= n,
            n == v.len(),
            r@ == v@.take(i as int),
        decreases n - i,
    {
        r.push(v[i]);
        proof {
            assert(r@ =~= v@.take(i + 1));
        }
        i = i + 1;
    }
    proof {
        assert(v@.take(n as int) =~= v@);
    }
    r
}

/// Fresh packets with the same models, in the same order.
pub fn copy_packets(ps: &Vec<DataPacket>) -> (r: Vec<DataPacket>)
    ensures
        r.deep_view() == ps.deep_view(),
{
    let n = ps.len();
    let mut r: Vec<DataPacket> = Vec::new();
    let mut i: usize = 0;
    while i < n
        invariant
            i <= n,
            n == ps.len(),
            r.deep_view() == ps.deep_view().take(i as int),
        decreases n - i,
    {
        let ghost r0 = r.deep_view();
        let p = ps[i].duplicate();
        proof {
            assert(p.deep_view() == ps.deep_view()[i as int]);
        }
        r.push(p);
        proof {
            assert(r.deep_view() =~= r0.push(ps.deep_view()[i as int]));
            assert(r0.push(ps.deep_view()[i as int]) =~= ps.deep_view().take(i + 1));
        }
        i = i + 1;
    }
    proof {
        assert(ps.deep_view().take(n as int) =~= ps.deep_view());
    }
    r
}

impl Serializable for DataPacket {
    open spec fn enc(v: DataPacketV) -> Seq<u8> {
        <Vec<i32> as Serializable>::enc(v.entitlements) + <Vec<u8> as Serializable>::enc(v.data)
    }

    open spec fn enc_ok(v: DataPacketV) -> bool {
        <Vec<i32> as Serializable>::enc_ok(v.entitlements) && <Vec<u8> as Serializable>::enc_ok(
            v.data,
        )
    }

    open spec fn dec(b: Seq<u8>) -> Option<(DataPacketV, int)> {
        match <Vec<i32> as Serializable>::dec(b) {
            Some((entitlements, n1)) => match <Vec<u8> as Serializable>::dec(b.skip(n1)) {
                Some((data, n2)) => Some((DataPacketV { entitlements, data }, n1 + n2)),
                None => None,
            },
            None => None,
        }
    }

    proof fn lemma_dec_bounds(b: Seq<u8>) {
        <Vec<i32> as Serializable>::lemma_dec_bounds(b);
        match <Vec<i32> as Serializable>::dec(b) {
            Some((entitlements, n1)) => {
                <Vec<u8> as Serializable>::lemma_dec_bounds(b.skip(n1));
            },
            None => {},
        }
    }

    proof fn lemma_dec_enc(v: DataPacketV, rest: Seq<u8>) {
        let e1 = <Vec<i32> as Serializable>::enc(v.entitlements);
        let e2 = <Vec<u8> as Serializable>::enc(v.data);
        let whole = Self::enc(v) + rest;
        assert(whole =~= e1 + (e2 + rest));
        <Vec<i32> as Serializable>::lemma_dec_enc(v.entitlements, e2 + rest);
        assert(whole.skip(e1.len() as int) =~= e2 + rest);
        <Vec<u8> as Serializable>::lemma_dec_enc(v.data, rest);
    }

    fn serialize(&self, out: &mut Vec<u8>) -> (ok: bool) {
        let orig_len: usize = out.len();
        if !self.entitlements.serialize(out) {
            return false;
        }
        if !self.data.serialize(out) {
            out.truncate(orig_len);
            proof {
                assert(out@ =~= old(out)@);
            }
            return false;
        }
        proof {
            assert(out@ =~= old(out)@ + Self::enc(self.deep_view()));
        }
        true
    }

    fn deserialize(buf: &Vec<u8>, pos: &mut usize) -> (r: Option<DataPacket>) {
        let start: usize = *pos;
        let entitlements = match <Vec<i32> as Serializable>::deserialize(buf, pos) {
            Some(v) => v,
            None => {
                return None;
            },
        };
        let ghost p1 = *pos as int;
        let data = match <Vec<u8> as Serializable>::deserialize(buf, pos) {
            Some(v) => v,
            None => {
                proof {
                    assert(buf@.skip(start as int).skip(p1 - start) =~= buf@.skip(p1));
                }
                *pos = start;
                return None;
            },
        };
        proof {
            assert(buf@.skip(start as int).skip(p1 - start) =~= buf@.skip(p1));
        }
        Some(DataPacket { entitlements, data })
    }
}

// ---------------------------------------------------------------------------
// Request messages
// ---------------------------------------------------------------------------
/// A request to add or drop one subscription to a topic.
#[derive(Clone, Debug, PartialEq)]
pub struct SubscriptionRequest {
    pub topic: String,
    pub is_add: bool,
}

pub struct SubscriptionRequestV {
    pub topic: Seq<char>,
    pub is_add: bool,
}

impl DeepView for SubscriptionRequest {
    type V = SubscriptionRequestV;

    open spec fn deep_view(&self) -> SubscriptionRequestV {
        SubscriptionRequestV { topic: self.topic@, is_add: self.is_add }
    }
}

impl SubscriptionRequest {
    pub fn message_type(&self) -> (t: MessageType)
        ensures
            t == MessageType::SubscriptionRequest,
    {
        MessageType::SubscriptionRequest
    }

    pub open spec fn enc_body(v: SubscriptionRequestV) -> Seq<u8> {
        <String as Serializable>::enc(v.topic) + <bool as Serializable>::enc(v.is_add)
    }

    pub open spec fn body_ok(v: SubscriptionRequestV) -> bool {
        <String as Serializable>::enc_ok(v.topic)
    }

    pub open spec fn dec_body(b: Seq<u8>) -> Option<(SubscriptionRequestV, int)> {
        match <String as Serializable>::dec(b) {
            Some((topic, n1)) => match <bool as Serializable>::dec(b.skip(n1)) {
                Some((is_add, n2)) => Some((SubscriptionRequestV { topic, is_add }, n1 + n2)),
                None => None,
            },
            None => None,
        }
    }

    pub proof fn lemma_dec_enc_body(v: SubscriptionRequestV, rest: Seq<u8>)
        requires
            Self::body_ok(v),
        ensures
            Self::dec_body(Self::enc_body(v) + rest) == Some(
                (v, Self::enc_body(v).len() as int),
            ),
    {
        let e1 = <String as Serializable>::enc(v.topic);
        let e2 = <bool as Serializable>::enc(v.is_add);
        let whole = Self::enc_body(v) + rest;
        assert(whole =~= e1 + (e2 + rest));
        <String as Serializable>::lemma_dec_enc(v.topic, e2 + rest);
        assert(whole.skip(e1.len() as int) =~= e2 + rest);
        <bool as Serializable>::lemma_dec_enc(v.is_add, rest);
    }

    /// Writes the message body (without the type code).
    pub fn write(&self, out: &mut Vec<u8>) -> (ok: bool)
        ensures
            ok == Self::body_ok(self.deep_view()),
            ok ==> final(out)@ == old(out)@ + Self::enc_body(self.deep_view()),
            !ok ==> final(out)@ == old(out)@,
    {
        if !self.topic.serialize(out) {
            return false;
        }
        let _ = self.is_add.serialize(out);
        proof {
            assert(out@ =~= old(out)@ + Self::enc_body(self.deep_view()));
        }
        true
    }

    /// Reads one message body (without the type code) from `buf` at `*pos`.
    pub fn read(buf: &Vec<u8>, pos: &mut usize) -> (r: Option<Self>)
        requires
            *old(pos) <= buf@.len(),
        ensures
            match r {
                Some(v) => {
                    &&& *old(pos) <= *final(pos) <= buf@.len()
                    &&& Self::dec_body(buf@.skip(*old(pos) as int)) == Some(
                        (v.deep_view(), *final(pos) - *old(pos)),
                    )
                },
                None => {
                    &&& Self::dec_body(buf@.skip(*old(pos) as int)) is None
                    &&& *final(pos) == *old(pos)
                },
            },
    {
        let start: usize = *pos;
        let topic = match String::deserialize(buf, pos) {
            Some(v) => v,
            None => {
                return None;
            },
        };
        let ghost p1 = *pos as int;
        let is_add = match bool::deserialize(buf, pos) {
            Some(v) => v,
            None => {
                proof {
                    assert(buf@.skip(start as int).skip(p1 - start) =~= buf@.skip(p1));
                }
                *pos = start;
                return None;
            },
        };
        proof {
            assert(buf@.skip(start as int).skip(p1 - start) =~= buf@.skip(p1));
        }
        Some(SubscriptionRequest { topic, is_add })
    }
}

/// A request to start or stop listening for subscription changes on topics
/// that match a pattern.
#[derive(Clone, Debug, PartialEq)]
pub struct NotificationRequest {
    pub pattern: String,
    pub is_add: bool,
}

pub struct NotificationRequestV {
    pub pattern: Seq<char>,
    pub is_add: bool,
}

impl DeepView for NotificationRequest {
    type V = NotificationRequestV;

    open spec fn deep_view(&self) -> NotificationRequestV {
        NotificationRequestV { pattern: self.pattern@, is_add: self.is_add }
    }
}

impl NotificationRequest {
    pub fn message_type(&self) -> (t: MessageType)
        ensures
            t == MessageType::NotificationRequest,
    {
        MessageType::NotificationRequest
    }

    pub open spec fn enc_body(v: NotificationRequestV) -> Seq<u8> {
        <String as Serializable>::enc(v.pattern) + <bool as Serializable>::enc(v.is_add)
    }

    pub open spec fn body_ok(v: NotificationRequestV) -> bool {
        <String as Serializable>::enc_ok(v.pattern)
    }

    pub open spec fn dec_body(b: Seq<u8>) -> Option<(NotificationRequestV, int)> {
        match <String as Serializable>::dec(b) {
            Some((pattern, n1)) => match <bool as Serializable>::dec(b.skip(n1)) {
                Some((is_add, n2)) => Some((NotificationRequestV { pattern, is_add }, n1 + n2)),
                None => None,
            },
            None => None,
        }
    }

    pub proof fn lemma_dec_enc_body(v: NotificationRequestV, rest: Seq<u8>)
        requires
            Self::body_ok(v),
        ensures
            Self::dec_body(Self::enc_body(v) + rest) == Some(
                (v, Self::enc_body(v).len() as int),
            ),
    {
        let e1 = <String as Serializable>::enc(v.pattern);
        let e2 = <bool as Serializable>::enc(v.is_add);
        let whole = Self::enc_body(v) + rest;
        assert(whole =~= e1 + (e2 + rest));
        <String as Serializable>::lemma_dec_enc(v.pattern, e2 + rest);
        assert(whole.skip(e1.len() as int) =~= e2 + rest);
        <bool as Serializable>::lemma_dec_enc(v.is_add, rest);
    }

    /// Writes the message body (without the type code).
    pub fn write(&self, out: &mut Vec<u8>) -> (ok: bool)
        ensures
            ok == Self::body_ok(self.deep_view()),
            ok ==> final(out)@ == old(out)@ + Self::enc_body(self.deep_view()),
            !ok ==> final(out)@ == old(out)@,
    {
        if !self.pattern.serialize(out) {
            return false;
        }
        let _ = self.is_add.serialize(out);
        proof {
            assert(out@ =~= old(out)@ + Self::enc_body(self.deep_view()));
        }
        true
    }

    /// Reads one message body (without the type code) from `buf` at `*pos`.
    pub fn read(buf: &Vec<u8>, pos: &mut usize) -> (r: Option<Self>)
        requires
            *old(pos) <= buf@.len(),
        ensures
            match r {
                Some(v) => {
                    &&& *old(pos) <= *final(pos) <= buf@.len()
                    &&& Self::dec_body(buf@.skip(*old(pos) as int)) == Some(
                        (v.deep_view(), *final(pos) - *old(pos)),
                    )
                },
                None => {
                    &&& Self::dec_body(buf@.skip(*old(pos) as int)) is None
                    &&& *final(pos) == *old(pos)
                },
            },
    {
        let start: usize = *pos;
        let pattern = match String::deserialize(buf, pos) {
            Some(v) => v,
            None => {
                return None;
            },
        };
        let ghost p1 = *pos as int;
        let is_add = match bool::deserialize(buf, pos) {
            Some(v) => v,
            None => {
                proof {
                    assert(buf@.skip(start as int).skip(p1 - start) =~= buf@.skip(p1));
                }
                *pos = start;
                return None;
            },
        };
        proof {
            assert(buf@.skip(start as int).skip(p1 - start) =~= buf@.skip(p1));
        }
        Some(NotificationRequest { pattern, is_add })
    }
}

// ---------------------------------------------------------------------------
// Authentication messages
// ---------------------------------------------------------------------------
/// The first message of a connection: an authentication method name and the
/// credential bytes that method expects.
#[derive(Clone, Debug, PartialEq)]
pub struct AuthenticationRequest {
    pub method: String,
    pub credentials: Vec<u8>,
}

pub struct AuthenticationRequestV {
    pub method: Seq<char>,
    pub credentials: Seq<u8>,
}

impl DeepView for AuthenticationRequest {
    type V = AuthenticationRequestV;

    open spec fn deep_view(&self) -> AuthenticationRequestV {
        AuthenticationRequestV { method: self.method@, credentials: self.credentials.deep_view() }
    }
}

impl AuthenticationRequest {
    pub fn message_type(&self) -> (t: MessageType)
        ensures
            t == MessageType::AuthenticationRequest,
    {
        MessageType::AuthenticationRequest
    }

    pub open spec fn enc_body(v: AuthenticationRequestV) -> Seq<u8> {
        <String as Serializable>::enc(v.method) + <Vec<u8> as Serializable>::enc(v.credentials)
    }

    pub open spec fn body_ok(v: AuthenticationRequestV) -> bool {
        <String as Serializable>::enc_ok(v.method) && <Vec<u8> as Serializable>::enc_ok(
            v.credentials,
        )
    }

    pub open spec fn dec_body(b: Seq<u8>) -> Option<(AuthenticationRequestV, int)> {
        match <String as Serializable>::dec(b) {
            Some((method, n1)) => match <Vec<u8> as Serializable>::dec(b.skip(n1)) {
                Some((credentials, n2)) => Some(
                    (AuthenticationRequestV { method, credentials }, n1 + n2),
                ),
                None => None,
            },
            None => None,
        }
    }

    pub proof fn lemma_dec_enc_body(v: AuthenticationRequestV, rest: Seq<u8>)
        requires
            Self::body_ok(v),
        ensures
            Self::dec_body(Self::enc_body(v) + rest) == Some(
                (v, Self::enc_body(v).len() as int),
            ),
    {
        let e1 = <String as Serializable>::enc(v.method);
        let t1 = <Vec<u8> as Serializable>::enc(v.credentials) + rest;
        assert(Self::enc_body(v) + rest =~= e1 + t1);
        <String as Serializable>::lemma_dec_enc(v.method, t1);
        lemma_concat_skip(e1, t1);
        <Vec<u8> as Serializable>::lemma_dec_enc(v.credentials, rest);
    }

    /// Writes the message body (without the type code).
    pub fn write(&self, out: &mut Vec<u8>) -> (ok: bool)
        ensures
            ok == Self::body_ok(self.deep_view()),
            ok ==> final(out)@ == old(out)@ + Self::enc_body(self.deep_view()),
            !ok ==> final(out)@ == old(out)@,
    {
        let orig_len: usize = out.len();
        if !self.method.serialize(out) {
            return false;
        }
        if !self.credentials.serialize(out) {
            out.truncate(orig_len);
            proof {
                assert(out@ =~= old(out)@);
            }
            return false;
        }
        proof {
            assert(out@ =~= old(out)@ + Self::enc_body(self.deep_view()));
        }
        true
    }

    /// Reads one message body (without the type code) from `buf` at `*pos`.
    pub fn read(buf: &Vec<u8>, pos: &mut usize) -> (r: Option<Self>)
        requires
            *old(pos) <= buf@.len(),
        ensures
            match r {
                Some(v) => {
                    &&& *old(pos) <= *final(pos) <= buf@.len()
                    &&& Self::dec_body(buf@.skip(*old(pos) as int)) == Some(
                        (v.deep_view(), *final(pos) - *old(pos)),
                    )
                },
                None => {
                    &&& Self::dec_body(buf@.skip(*old(pos) as int)) is None
                    &&& *final(pos) == *old(pos)
                },
            },
    {
        let start: usize = *pos;
        let method = match String::deserialize(buf, pos) {
            Some(v) => v,
            None => {
                return None;
            },
        };
        let ghost p1 = *pos as int;
        let credentials = match <Vec<u8> as Serializable>::deserialize(buf, pos) {
            Some(v) => v,
            None => {
                proof {
                    lemma_skip_skip(buf@, start as int, p1);
                }
                *pos = start;
                return None;
            },
        };
        proof {
            lemma_skip_skip(buf@, start as int, p1);
        }
        Some(AuthenticationRequest { method, credentials })
    }
}

/// The server's reply to a successful authentication: the client's id.
#[derive(Clone, Debug, PartialEq)]
pub struct AuthenticationResponse {
    pub client_id: String,
}

pub struct AuthenticationResponseV {
    pub client_id: Seq<char>,
}

impl DeepView for AuthenticationResponse {
    type V = AuthenticationResponseV;

    open spec fn deep_view(&self) -> AuthenticationResponseV {
        AuthenticationResponseV { client_id: self.client_id@ }
    }
}

impl AuthenticationResponse {
    pub fn message_type(&self) -> (t: MessageType)
        ensures
            t == MessageType::AuthenticationResponse,
    {
        MessageType::AuthenticationResponse
    }

    pub open spec fn enc_body(v: AuthenticationResponseV) -> Seq<u8> {
        <String as Serializable>::enc(v.client_id)
    }

    pub open spec fn body_ok(v: AuthenticationResponseV) -> bool {
        <String as Serializable>::enc_ok(v.client_id)
    }

    pub open spec fn dec_body(b: Seq<u8>) -> Option<(AuthenticationResponseV, int)> {
        match <String as Serializable>::dec(b) {
            Some((client_id, n1)) => Some((AuthenticationResponseV { client_id }, n1)),
            None => None,
        }
    }

    pub proof fn lemma_dec_enc_body(v: AuthenticationResponseV, rest: Seq<u8>)
        requires
            Self::body_ok(v),
        ensures
            Self::dec_body(Self::enc_body(v) + rest) == Some(
                (v, Self::enc_body(v).len() as int),
            ),
    {
        <String as Serializable>::lemma_dec_enc(v.client_id, rest);
    }

    /// Writes the message body (without the type code).
    pub fn write(&self, out: &mut Vec<u8>) -> (ok: bool)
        ensures
            ok == Self::body_ok(self.deep_view()),
            ok ==> final(out)@ == old(out)@ + Self::enc_body(self.deep_view()),
            !ok ==> final(out)@ == old(out)@,
    {
        self.client_id.serialize(out)
    }

    /// Reads one message body (without the type code) from `buf` at `*pos`.
    pub fn read(buf: &Vec<u8>, pos: &mut usize) -> (r: Option<Self>)
        requires
            *old(pos) <= buf@.len(),
        ensures
            match r {
                Some(v) => {
                    &&& *old(pos) <= *final(pos) <= buf@.len()
                    &&& Self::dec_body(buf@.skip(*old(pos) as int)) == Some(
                        (v.deep_view(), *final(pos) - *old(pos)),
                    )
                },
                None => {
                    &&& Self::dec_body(buf@.skip(*old(pos) as int)) is None
                    &&& *final(pos) == *old(pos)
                },
            },
    {
        match String::deserialize(buf, pos) {
            Some(client_id) => Some(AuthenticationResponse { client_id }),
            None => None,
        }
    }
}

// ---------------------------------------------------------------------------
// Published data
// ---------------------------------------------------------------------------
/// Data published to every subscriber of a topic.
#[derive(Clone, Debug, PartialEq)]
pub struct MulticastData {
    pub topic: String,
    pub content_type: String,
    pub data_packets: Vec<DataPacket>,
}

pub struct MulticastDataV {
    pub topic: Seq<char>,
    pub content_type: Seq<char>,
    pub data_packets: Seq<DataPacketV>,
}

impl DeepView for MulticastData {
    type V = MulticastDataV;

    open spec fn deep_view(&self) -> MulticastDataV {
        MulticastDataV {
            topic: self.topic@,
            content_type: self.content_type@,
            data_packets: self.data_packets.deep_view(),
        }
    }
}

impl MulticastData {
    pub fn message_type(&self) -> (t: MessageType)
        ensures
            t == MessageType::MulticastData,
    {
        MessageType::MulticastData
    }

    pub open spec fn enc_body(v: MulticastDataV) -> Seq<u8> {
        <String as Serializable>::enc(v.topic) + <String as Serializable>::enc(v.content_type)
            + <Vec<DataPacket> as Serializable>::enc(v.data_packets)
    }

    pub open spec fn body_ok(v: MulticastDataV) -> bool {
        &&& <String as Serializable>::enc_ok(v.topic)
        &&& <String as Serializable>::enc_ok(v.content_type)
        &&& <Vec<DataPacket> as Serializable>::enc_ok(v.data_packets)
    }

    pub open spec fn dec_body(b: Seq<u8>) -> Option<(MulticastDataV, int)> {
        match <String as Serializable>::dec(b) {
            Some((topic, n1)) => match <String as Serializable>::dec(b.skip(n1)) {
                Some((content_type, n2)) => match <Vec<DataPacket> as Serializable>::dec(
                    b.skip(n1).skip(n2),
                ) {
                    Some((data_packets, n3)) => Some(
                        (MulticastDataV { topic, content_type, data_packets }, n1 + n2 + n3),
                    ),
                    None => None,
                },
                None => None,
            },
            None => None,
        }
    }

    pub proof fn lemma_dec_enc_body(v: MulticastDataV, rest: Seq<u8>)
        requires
            Self::body_ok(v),
        ensures
            Self::dec_body(Self::enc_body(v) + rest) == Some(
                (v, Self::enc_body(v).len() as int),
            ),
    {
        let e1 = <String as Serializable>::enc(v.topic);
        let e2 = <String as Serializable>::enc(v.content_type);
        let e3 = <Vec<DataPacket> as Serializable>::enc(v.data_packets);
        let t2 = e3 + rest;
        let t1 = e2 + t2;
        assert(Self::enc_body(v) + rest =~= e1 + t1);
        <String as Serializable>::lemma_dec_enc(v.topic, t1);
        lemma_concat_skip(e1, t1);
        <String as Serializable>::lemma_dec_enc(v.content_type, t2);
        lemma_concat_skip(e2, t2);
        <Vec<DataPacket> as Serializable>::lemma_dec_enc(v.data_packets, rest);
    }

    /// Writes the message body (without the type code).
    pub fn write(&self, out: &mut Vec<u8>) -> (ok: bool)
        ensures
            ok == Self::body_ok(self.deep_view()),
            ok ==> final(out)@ == old(out)@ + Self::enc_body(self.deep_view()),
            !ok ==> final(out)@ == old(out)@,
    {
        let orig_len: usize = out.len();
        if !self.topic.serialize(out) {
            return false;
        }
        if !self.content_type.serialize(out) {
            out.truncate(orig_len);
            proof {
                assert(out@ =~= old(out)@);
            }
            return false;
        }
        if !self.data_packets.serialize(out) {
            out.truncate(orig_len);
            proof {
                assert(out@ =~= old(out)@);
            }
            return false;
        }
        proof {
            assert(out@ =~= old(out)@ + Self::enc_body(self.deep_view()));
        }
        true
    }

    /// Reads one message body (without the type code) from `buf` at `*pos`.
    pub fn read(buf: &Vec<u8>, pos: &mut usize) -> (r: Option<Self>)
        requires
            *old(pos) <= buf@.len(),
        ensures
            match r {
                Some(v) => {
                    &&& *old(pos) <= *final(pos) <= buf@.len()
                    &&& Self::dec_body(buf@.skip(*old(pos) as int)) == Some(
                        (v.deep_view(), *final(pos) - *old(pos)),
                    )
                },
                None => {
                    &&& Self::dec_body(buf@.skip(*old(pos) as int)) is None
                    &&& *final(pos) == *old(pos)
                },
            },
    {
        let start: usize = *pos;
        let topic = match String::deserialize(buf, pos) {
            Some(v) => v,
            None => {
                return None;
            },
        };
        let ghost p1 = *pos as int;
        let content_type = match String::deserialize(buf, pos) {
            Some(v) => v,
            None => {
                proof {
                    lemma_skip_skip(buf@, start as int, p1);
                }
                *pos = start;
                return None;
            },
        };
        let ghost p2 = *pos as int;
        let data_packets = match <Vec<DataPacket> as Serializable>::deserialize(buf, pos) {
            Some(v) => v,
            None => {
                proof {
                    lemma_skip_skip(buf@, start as int, p1);
                    lemma_skip_skip(buf@, p1, p2);
                }
                *pos = start;
                return None;
            },
        };
        proof {
            lemma_skip_skip(buf@, start as int, p1);
            lemma_skip_skip(buf@, p1, p2);
        }
        Some(MulticastData { topic, content_type, data_packets })
    }
}

/// Data published to one named client.
#[derive(Clone, Debug, PartialEq)]
pub struct UnicastData {
    pub client_id: String,
    pub topic: String,
    pub content_type: String,
    pub data_packets: Vec<DataPacket>,
}

pub struct UnicastDataV {
    pub client_id: Seq<char>,
    pub topic: Seq<char>,
    pub content_type: Seq<char>,
    pub data_packets: Seq<DataPacketV>,
}

impl DeepView for UnicastData {
    type V = UnicastDataV;

    open spec fn deep_view(&self) -> UnicastDataV {
        UnicastDataV {
            client_id: self.client_id@,
            topic: self.topic@,
            content_type: self.content_type@,
            data_packets: self.data_packets.deep_view(),
        }
    }
}

impl UnicastData {
    pub fn message_type(&self) -> (t: MessageType)
        ensures
            t == MessageType::UnicastData,
    {
        MessageType::UnicastData
    }

    pub open spec fn enc_body(v: UnicastDataV) -> Seq<u8> {
        <String as Serializable>::enc(v.client_id) + <String as Serializable>::enc(v.topic)
            + <String as Serializable>::enc(v.content_type) + <Vec<
            DataPacket,
        > as Serializable>::enc(v.data_packets)
    }

    pub open spec fn body_ok(v: UnicastDataV) -> bool {
        &&& <String as Serializable>::enc_ok(v.client_id)
        &&& <String as Serializable>::enc_ok(v.topic)
        &&& <String as Serializable>::enc_ok(v.content_type)
        &&& <Vec<DataPacket> as Serializable>::enc_ok(v.data_packets)
    }

    pub open spec fn dec_body(b: Seq<u8>) -> Option<(UnicastDataV, int)> {
        match <String as Serializable>::dec(b) {
            Some((client_id, n1)) => match <String as Serializable>::dec(b.skip(n1)) {
                Some((topic, n2)) => match <String as Serializable>::dec(b.skip(n1).skip(n2)) {
                    Some((content_type, n3)) => match <Vec<DataPacket> as Serializable>::dec(
                        b.skip(n1).skip(n2).skip(n3),
                    ) {
                        Some((data_packets, n4)) => Some(
                            (
                                UnicastDataV { client_id, topic, content_type, data_packets },
                                n1 + n2 + n3 + n4,
                            ),
                        ),
                        None => None,
                    },
                    None => None,
                },
                None => None,
            },
            None => None,
        }
    }

    pub proof fn lemma_dec_enc_body(v: UnicastDataV, rest: Seq<u8>)
        requires
            Self::body_ok(v),
        ensures
            Self::dec_body(Self::enc_body(v) + rest) == Some(
                (v, Self::enc_body(v).len() as int),
            ),
    {
        let e1 = <String as Serializable>::enc(v.client_id);
        let e2 = <String as Serializable>::enc(v.topic);
        let e3 = <String as Serializable>::enc(v.content_type);
        let e4 = <Vec<DataPacket> as Serializable>::enc(v.data_packets);
        let t3 = e4 + rest;
        let t2 = e3 + t3;
        let t1 = e2 + t2;
        assert(Self::enc_body(v) + rest =~= e1 + t1);
        <String as Serializable>::lemma_dec_enc(v.client_id, t1);
        lemma_concat_skip(e1, t1);
        <String as Serializable>::lemma_dec_enc(v.topic, t2);
        lemma_concat_skip(e2, t2);
        <String as Serializable>::lemma_dec_enc(v.content_type, t3);
        lemma_concat_skip(e3, t3);
        <Vec<DataPacket> as Serializable>::lemma_dec_enc(v.data_packets, rest);
    }

    /// Writes the message body (without the type code).
    pub fn write(&self, out: &mut Vec<u8>) -> (ok: bool)
        ensures
            ok == Self::body_ok(self.deep_view()),
            ok ==> final(out)@ == old(out)@ + Self::enc_body(self.deep_view()),
            !ok ==> final(out)@ == old(out)@,
    {
        let orig_len: usize = out.len();
        if !self.client_id.serialize(out) {
            return false;
        }
        if !self.topic.serialize(out) {
            out.truncate(orig_len);
            proof {
                assert(out@ =~= old(out)@);
            }
            return false;
        }
        if !self.content_type.serialize(out) {
            out.truncate(orig_len);
            proof {
                assert(out@ =~= old(out)@);
            }
            return false;
        }
        if !self.data_packets.serialize(out) {
            out.truncate(orig_len);
            proof {
                assert(out@ =~= old(out)@);
            }
            return false;
        }
        proof {
            assert(out@ =~= old(out)@ + Self::enc_body(self.deep_view()));
        }
        true
    }

    /// Reads one message body (without the type code) from `buf` at `*pos`.
    pub fn read(buf: &Vec<u8>, pos: &mut usize) -> (r: Option<Self>)
        requires
            *old(pos) <= buf@.len(),
        ensures
            match r {
                Some(v) => {
                    &&& *old(pos) <= *final(pos) <= buf@.len()
                    &&& Self::dec_body(buf@.skip(*old(pos) as int)) == Some(
                        (v.deep_view(), *final(pos) - *old(pos)),
                    )
                },
                None => {
                    &&& Self::dec_body(buf@.skip(*old(pos) as int)) is None
                    &&& *final(pos) == *old(pos)
                },
            },
    {
        let start: usize = *pos;
        let client_id = match String::deserialize(buf, pos) {
            Some(v) => v,
            None => {
                return None;
            },
        };
        let ghost p1 = *pos as int;
        let topic = match String::deserialize(buf, pos) {
            Some(v) => v,
            None => {
                proof {
                    lemma_skip_skip(buf@, start as int, p1);
                }
                *pos = start;
                return None;
            },
        };
        let ghost p2 = *pos as int;
        let content_type = match String::deserialize(buf, pos) {
            Some(v) => v,
            None => {
                proof {
                    lemma_skip_skip(buf@, start as int, p1);
                    lemma_skip_skip(buf@, p1, p2);
                }
                *pos = start;
                return None;
            },
        };
        let ghost p3 = *pos as int;
        let data_packets = match <Vec<DataPacket> as Serializable>::deserialize(buf, pos) {
            Some(v) => v,
            None => {
                proof {
                    lemma_skip_skip(buf@, start as int, p1);
                    lemma_skip_skip(buf@, p1, p2);
                    lemma_skip_skip(buf@, p2, p3);
                }
                *pos = start;
                return None;
            },
        };
        proof {
            lemma_skip_skip(buf@, start as int, p1);
            lemma_skip_skip(buf@, p1, p2);
            lemma_skip_skip(buf@, p2, p3);
        }
        Some(UnicastData { client_id, topic, content_type, data_packets })
    }
}

// ---------------------------------------------------------------------------
// Forwarded traffic, sent by the hub to clients
// ---------------------------------------------------------------------------
/// A subscription change on a matching topic, forwarded to a notification
/// listener; `host`, `user` and `client_id` identify the subscriber.
#[derive(Clone, Debug, PartialEq)]
pub struct ForwardedSubscriptionRequest {
    pub host: String,
    pub user: String,
    pub client_id: String,
    pub topic: String,
    pub is_add: bool,
}

pub struct ForwardedSubscriptionRequestV {
    pub host: Seq<char>,
    pub user: Seq<char>,
    pub client_id: Seq<char>,
    pub topic: Seq<char>,
    pub is_add: bool,
}

impl DeepView for ForwardedSubscriptionRequest {
    type V = ForwardedSubscriptionRequestV;

    open spec fn deep_view(&self) -> ForwardedSubscriptionRequestV {
        ForwardedSubscriptionRequestV {
            host: self.host@,
            user: self.user@,
            client_id: self.client_id@,
            topic: self.topic@,
            is_add: self.is_add,
        }
    }
}

impl ForwardedSubscriptionRequest {
    pub fn message_type(&self) -> (t: MessageType)
        ensures
            t == MessageType::ForwardedSubscriptionRequest,
    {
        MessageType::ForwardedSubscriptionRequest
    }

    pub open spec fn enc_body(v: ForwardedSubscriptionRequestV) -> Seq<u8> {
        <String as Serializable>::enc(v.host) + <String as Serializable>::enc(v.user) + <String as Serializable>::enc(
            v.client_id,
        ) + <String as Serializable>::enc(v.topic) + <bool as Serializable>::enc(v.is_add)
    }

    pub open spec fn body_ok(v: ForwardedSubscriptionRequestV) -> bool {
        &&& <String as Serializable>::enc_ok(v.host)
        &&& <String as Serializable>::enc_ok(v.user)
        &&& <String as Serializable>::enc_ok(v.client_id)
        &&& <String as Serializable>::enc_ok(v.topic)
    }

    pub open spec fn dec_body(b: Seq<u8>) -> Option<(ForwardedSubscriptionRequestV, int)> {
        match <String as Serializable>::dec(b) {
            Some((host, n1)) => match <String as Serializable>::dec(b.skip(n1)) {
                Some((user, n2)) => match <String as Serializable>::dec(b.skip(n1).skip(n2)) {
                    Some((client_id, n3)) => match <String as Serializable>::dec(
                        b.skip(n1).skip(n2).skip(n3),
                    ) {
                        Some((topic, n4)) => match <bool as Serializable>::dec(
                            b.skip(n1).skip(n2).skip(n3).skip(n4),
                        ) {
                            Some((is_add, n5)) => Some(
                                (
                                    ForwardedSubscriptionRequestV {
                                        host,
                                        user,
                                        client_id,
                                        topic,
                                        is_add,
                                    },
                                    n1 + n2 + n3 + n4 + n5,
                                ),
                            ),
                            None => None,
                        },
                        None => None,
                    },
                    None => None,
                },
                None => None,
            },
            None => None,
        }
    }

    pub proof fn lemma_dec_enc_body(v: ForwardedSubscriptionRequestV, rest: Seq<u8>)
        requires
            Self::body_ok(v),
        ensures
            Self::dec_body(Self::enc_body(v) + rest) == Some(
                (v, Self::enc_body(v).len() as int),
            ),
    {
        let e1 = <String as Serializable>::enc(v.host);
        let e2 = <String as Serializable>::enc(v.user);
        let e3 = <String as Serializable>::enc(v.client_id);
        let e4 = <String as Serializable>::enc(v.topic);
        let e5 = <bool as Serializable>::enc(v.is_add);
        let t4 = e5 + rest;
        let t3 = e4 + t4;
        let t2 = e3 + t3;
        let t1 = e2 + t2;
        assert(Self::enc_body(v) + rest =~= e1 + t1);
        <String as Serializable>::lemma_dec_enc(v.host, t1);
        lemma_concat_skip(e1, t1);
        <String as Serializable>::lemma_dec_enc(v.user, t2);
        lemma_concat_skip(e2, t2);
        <String as Serializable>::lemma_dec_enc(v.client_id, t3);
        lemma_concat_skip(e3, t3);
        <String as Serializable>::lemma_dec_enc(v.topic, t4);
        lemma_concat_skip(e4, t4);
        <bool as Serializable>::lemma_dec_enc(v.is_add, rest);
    }

    /// Writes the message body (without the type code).
    pub fn write(&self, out: &mut Vec<u8>) -> (ok: bool)
        ensures
            ok == Self::body_ok(self.deep_view()),
            ok ==> final(out)@ == old(out)@ + Self::enc_body(self.deep_view()),
            !ok ==> final(out)@ == old(out)@,
    {
        let orig_len: usize = out.len();
        if !self.host.serialize(out) {
            return false;
        }
        if !self.user.serialize(out) {
            out.truncate(orig_len);
            proof {
                assert(out@ =~= old(out)@);
            }
            return false;
        }
        if !self.client_id.serialize(out) {
            out.truncate(orig_len);
            proof {
                assert(out@ =~= old(out)@);
            }
            return false;
        }
        if !self.topic.serialize(out) {
            out.truncate(orig_len);
            proof {
                assert(out@ =~= old(out)@);
            }
            return false;
        }
        let _ = self.is_add.serialize(out);
        proof {
            assert(out@ =~= old(out)@ + Self::enc_body(self.deep_view()));
        }
        true
    }

    /// Reads one message body (without the type code) from `buf` at `*pos`.
    pub fn read(buf: &Vec<u8>, pos: &mut usize) -> (r: Option<Self>)
        requires
            *old(pos) <= buf@.len(),
        ensures
            match r {
                Some(v) => {
                    &&& *old(pos) <= *final(pos) <= buf@.len()
                    &&& Self::dec_body(buf@.skip(*old(pos) as int)) == Some(
                        (v.deep_view(), *final(pos) - *old(pos)),
                    )
                },
                None => {
                    &&& Self::dec_body(buf@.skip(*old(pos) as int)) is None
                    &&& *final(pos) == *old(pos)
                },
            },
    {
        let start: usize = *pos;
        let host = match String::deserialize(buf, pos) {
            Some(v) => v,
            None => {
                return None;
            },
        };
        let ghost p1 = *pos as int;
        let user = match String::deserialize(buf, pos) {
            Some(v) => v,
            None => {
                proof {
                    lemma_skip_skip(buf@, start as int, p1);
                }
                *pos = start;
                return None;
            },
        };
        let ghost p2 = *pos as int;
        let client_id = match String::deserialize(buf, pos) {
            Some(v) => v,
            None => {
                proof {
                    lemma_skip_skip(buf@, start as int, p1);
                    lemma_skip_skip(buf@, p1, p2);
                }
                *pos = start;
                return None;
            },
        };
        let ghost p3 = *pos as int;
        let topic = match String::deserialize(buf, pos) {
            Some(v) => v,
            None => {
                proof {
                    lemma_skip_skip(buf@, start as int, p1);
                    lemma_skip_skip(buf@, p1, p2);
                    lemma_skip_skip(buf@, p2, p3);
                }
                *pos = start;
                return None;
            },
        };
        let ghost p4 = *pos as int;
        let is_add = match bool::deserialize(buf, pos) {
            Some(v) => v,
            None => {
                proof {
                    lemma_skip_skip(buf@, start as int, p1);
                    lemma_skip_skip(buf@, p1, p2);
                    lemma_skip_skip(buf@, p2, p3);
                    lemma_skip_skip(buf@, p3, p4);
                }
                *pos = start;
                return None;
            },
        };
        proof {
            lemma_skip_skip(buf@, start as int, p1);
            lemma_skip_skip(buf@, p1, p2);
            lemma_skip_skip(buf@, p2, p3);
            lemma_skip_skip(buf@, p3, p4);
        }
        Some(ForwardedSubscriptionRequest { host, user, client_id, topic, is_add })
    }
}

/// Multicast data forwarded to a subscriber; `host` and `user` identify the
/// publisher.  An empty packet list announces a stale topic: its last
/// publisher is gone.
#[derive(Clone, Debug, PartialEq)]
pub struct ForwardedMulticastData {
    pub host: String,
    pub user: String,
    pub topic: String,
    pub content_type: String,
    pub data_packets: Vec<DataPacket>,
}

pub struct ForwardedMulticastDataV {
    pub host: Seq<char>,
    pub user: Seq<char>,
    pub topic: Seq<char>,
    pub content_type: Seq<char>,
    pub data_packets: Seq<DataPacketV>,
}

impl DeepView for ForwardedMulticastData {
    type V = ForwardedMulticastDataV;

    open spec fn deep_view(&self) -> ForwardedMulticastDataV {
        ForwardedMulticastDataV {
            host: self.host@,
            user: self.user@,
            topic: self.topic@,
            content_type: self.content_type@,
            data_packets: self.data_packets.deep_view(),
        }
    }
}

impl ForwardedMulticastData {
    pub fn message_type(&self) -> (t: MessageType)
        ensures
            t == MessageType::ForwardedMulticastData,
    {
        MessageType::ForwardedMulticastData
    }

    pub open spec fn enc_body(v: ForwardedMulticastDataV) -> Seq<u8> {
        <String as Serializable>::enc(v.host) + <String as Serializable>::enc(v.user) + <String as Serializable>::enc(
            v.topic,
        ) + <String as Serializable>::enc(v.content_type) + <Vec<DataPacket> as Serializable>::enc(
            v.data_packets,
        )
    }

    pub open spec fn body_ok(v: ForwardedMulticastDataV) -> bool {
        &&& <String as Serializable>::enc_ok(v.host)
        &&& <String as Serializable>::enc_ok(v.user)
        &&& <String as Serializable>::enc_ok(v.topic)
        &&& <String as Serializable>::enc_ok(v.content_type)
        &&& <Vec<DataPacket> as Serializable>::enc_ok(v.data_packets)
    }

    pub open spec fn dec_body(b: Seq<u8>) -> Option<(ForwardedMulticastDataV, int)> {
        match <String as Serializable>::dec(b) {
            Some((host, n1)) => match <String as Serializable>::dec(b.skip(n1)) {
                Some((user, n2)) => match <String as Serializable>::dec(b.skip(n1).skip(n2)) {
                    Some((topic, n3)) => match <String as Serializable>::dec(
                        b.skip(n1).skip(n2).skip(n3),
                    ) {
                        Some((content_type, n4)) => match <Vec<DataPacket> as Serializable>::dec(
                            b.skip(n1).skip(n2).skip(n3).skip(n4),
                        ) {
                            Some((data_packets, n5)) => Some(
                                (
                                    ForwardedMulticastDataV {
                                        host,
                                        user,
                                        topic,
                                        content_type,
                                        data_packets,
                                    },
                                    n1 + n2 + n3 + n4 + n5,
                                ),
                            ),
                            None => None,
                        },
                        None => None,
                    },
                    None => None,
                },
                None => None,
            },
            None => None,
        }
    }

    pub proof fn lemma_dec_enc_body(v: ForwardedMulticastDataV, rest: Seq<u8>)
        requires
            Self::body_ok(v),
        ensures
            Self::dec_body(Self::enc_body(v) + rest) == Some(
                (v, Self::enc_body(v).len() as int),
            ),
    {
        let e1 = <String as Serializable>::enc(v.host);
        let e2 = <String as Serializable>::enc(v.user);
        let e3 = <String as Serializable>::enc(v.topic);
        let e4 = <String as Serializable>::enc(v.content_type);
        let e5 = <Vec<DataPacket> as Serializable>::enc(v.data_packets);
        let t4 = e5 + rest;
        let t3 = e4 + t4;
        let t2 = e3 + t3;
        let t1 = e2 + t2;
        assert(Self::enc_body(v) + rest =~= e1 + t1);
        <String as Serializable>::lemma_dec_enc(v.host, t1);
        lemma_concat_skip(e1, t1);
        <String as Serializable>::lemma_dec_enc(v.user, t2);
        lemma_concat_skip(e2, t2);
        <String as Serializable>::lemma_dec_enc(v.topic, t3);
        lemma_concat_skip(e3, t3);
        <String as Serializable>::lemma_dec_enc(v.content_type, t4);
        lemma_concat_skip(e4, t4);
        <Vec<DataPacket> as Serializable>::lemma_dec_enc(v.data_packets, rest);
    }

    /// Writes the message body (without the type code).
    pub fn write(&self, out: &mut Vec<u8>) -> (ok: bool)
        ensures
            ok == Self::body_ok(self.deep_view()),
            ok ==> final(out)@ == old(out)@ + Self::enc_body(self.deep_view()),
            !ok ==> final(out)@ == old(out)@,
    {
        let orig_len: usize = out.len();
        if !self.host.serialize(out) {
            return false;
        }
        if !self.user.serialize(out) {
            out.truncate(orig_len);
            proof {
                assert(out@ =~= old(out)@);
            }
            return false;
        }
        if !self.topic.serialize(out) {
            out.truncate(orig_len);
            proof {
                assert(out@ =~= old(out)@);
            }
            return false;
        }
        if !self.content_type.serialize(out) {
            out.truncate(orig_len);
            proof {
                assert(out@ =~= old(out)@);
            }
            return false;
        }
        if !self.data_packets.serialize(out) {
            out.truncate(orig_len);
            proof {
                assert(out@ =~= old(out)@);
            }
            return false;
        }
        proof {
            assert(out@ =~= old(out)@ + Self::enc_body(self.deep_view()));
        }
        true
    }

    /// Reads one message body (without the type code) from `buf` at `*pos`.
    pub fn read(buf: &Vec<u8>, pos: &mut usize) -> (r: Option<Self>)
        requires
            *old(pos) <= buf@.len(),
        ensures
            match r {
                Some(v) => {
                    &&& *old(pos) <= *final(pos) <= buf@.len()
                    &&& Self::dec_body(buf@.skip(*old(pos) as int)) == Some(
                        (v.deep_view(), *final(pos) - *old(pos)),
                    )
                },
                None => {
                    &&& Self::dec_body(buf@.skip(*old(pos) as int)) is None
                    &&& *final(pos) == *old(pos)
                },
            },
    {
        let start: usize = *pos;
        let host = match String::deserialize(buf, pos) {
            Some(v) => v,
            None => {
                return None;
            },
        };
        let ghost p1 = *pos as int;
        let user = match String::deserialize(buf, pos) {
            Some(v) => v,
            None => {
                proof {
                    lemma_skip_skip(buf@, start as int, p1);
                }
                *pos = start;
                return None;
            },
        };
        let ghost p2 = *pos as int;
        let topic = match String::deserialize(buf, pos) {
            Some(v) => v,
            None => {
                proof {
                    lemma_skip_skip(buf@, start as int, p1);
                    lemma_skip_skip(buf@, p1, p2);
                }
                *pos = start;
                return None;
            },
        };
        let ghost p3 = *pos as int;
        let content_type = match String::deserialize(buf, pos) {
            Some(v) => v,
            None => {
                proof {
                    lemma_skip_skip(buf@, start as int, p1);
                    lemma_skip_skip(buf@, p1, p2);
                    lemma_skip_skip(buf@, p2, p3);
                }
                *pos = start;
                return None;
            },
        };
        let ghost p4 = *pos as int;
        let data_packets = match <Vec<DataPacket> as Serializable>::deserialize(buf, pos) {
            Some(v) => v,
            None => {
                proof {
                    lemma_skip_skip(buf@, start as int, p1);
                    lemma_skip_skip(buf@, p1, p2);
                    lemma_skip_skip(buf@, p2, p3);
                    lemma_skip_skip(buf@, p3, p4);
                }
                *pos = start;
                return None;
            },
        };
        proof {
            lemma_skip_skip(buf@, start as int, p1);
            lemma_skip_skip(buf@, p1, p2);
            lemma_skip_skip(buf@, p2, p3);
            lemma_skip_skip(buf@, p3, p4);
        }
        Some(ForwardedMulticastData { host, user, topic, content_type, data_packets })
    }
}

/// Unicast data forwarded to its destination; `host`, `user` and
/// `client_id` identify the sender.
#[derive(Clone, Debug, PartialEq)]
pub struct ForwardedUnicastData {
    pub host: String,
    pub user: String,
    pub client_id: String,
    pub topic: String,
    pub content_type: String,
    pub data_packets: Vec<DataPacket>,
}

pub struct ForwardedUnicastDataV {
    pub host: Seq<char>,
    pub user: Seq<char>,
    pub client_id: Seq<char>,
    pub topic: Seq<char>,
    pub content_type: Seq<char>,
    pub data_packets: Seq<DataPacketV>,
}

impl DeepView for ForwardedUnicastData {
    type V = ForwardedUnicastDataV;

    open spec fn deep_view(&self) -> ForwardedUnicastDataV {
        ForwardedUnicastDataV {
            host: self.host@,
            user: self.user@,
            client_id: self.client_id@,
            topic: self.topic@,
            content_type: self.content_type@,
            data_packets: self.data_packets.deep_view(),
        }
    }
}

impl ForwardedUnicastData {
    pub fn message_type(&self) -> (t: MessageType)
        ensures
            t == MessageType::ForwardedUnicastData,
    {
        MessageType::ForwardedUnicastData
    }

    pub open spec fn enc_body(v: ForwardedUnicastDataV) -> Seq<u8> {
        <String as Serializable>::enc(v.host) + <String as Serializable>::enc(v.user) + <String as Serializable>::enc(
            v.client_id,
        ) + <String as Serializable>::enc(v.topic) + <String as Serializable>::enc(v.content_type)
            + <Vec<DataPacket> as Serializable>::enc(v.data_packets)
    }

    pub open spec fn body_ok(v: ForwardedUnicastDataV) -> bool {
        &&& <String as Serializable>::enc_ok(v.host)
        &&& <String as Serializable>::enc_ok(v.user)
        &&& <String as Serializable>::enc_ok(v.client_id)
        &&& <String as Serializable>::enc_ok(v.topic)
        &&& <String as Serializable>::enc_ok(v.content_type)
        &&& <Vec<DataPacket> as Serializable>::enc_ok(v.data_packets)
    }

    pub open spec fn dec_body(b: Seq<u8>) -> Option<(ForwardedUnicastDataV, int)> {
        match <String as Serializable>::dec(b) {
            Some((host, n1)) => match <String as Serializable>::dec(b.skip(n1)) {
                Some((user, n2)) => match <String as Serializable>::dec(b.skip(n1).skip(n2)) {
                    Some((client_id, n3)) => match <String as Serializable>::dec(
                        b.skip(n1).skip(n2).skip(n3),
                    ) {
                        Some((topic, n4)) => match <String as Serializable>::dec(
                            b.skip(n1).skip(n2).skip(n3).skip(n4),
                        ) {
                            Some((content_type, n5)) => match <Vec<
                                DataPacket,
                            > as Serializable>::dec(
                                b.skip(n1).skip(n2).skip(n3).skip(n4).skip(n5),
                            ) {
                                Some((data_packets, n6)) => Some(
                                    (
                                        ForwardedUnicastDataV {
                                            host,
                                            user,
                                            client_id,
                                            topic,
                                            content_type,
                                            data_packets,
                                        },
                                        n1 + n2 + n3 + n4 + n5 + n6,
                                    ),
                                ),
                                None => None,
                            },
                            None => None,
                        },
                        None => None,
                    },
                    None => None,
                },
                None => None,
            },
            None => None,
        }
    }

    pub proof fn lemma_dec_enc_body(v: ForwardedUnicastDataV, rest: Seq<u8>)
        requires
            Self::body_ok(v),
        ensures
            Self::dec_body(Self::enc_body(v) + rest) == Some(
                (v, Self::enc_body(v).len() as int),
            ),
    {
        let e1 = <String as Serializable>::enc(v.host);
        let e2 = <String as Serializable>::enc(v.user);
        let e3 = <String as Serializable>::enc(v.client_id);
        let e4 = <String as Serializable>::enc(v.topic);
        let e5 = <String as Serializable>::enc(v.content_type);
        let e6 = <Vec<DataPacket> as Serializable>::enc(v.data_packets);
        let t5 = e6 + rest;
        let t4 = e5 + t5;
        let t3 = e4 + t4;
        let t2 = e3 + t3;
        let t1 = e2 + t2;
        assert(Self::enc_body(v) + rest =~= e1 + t1);
        <String as Serializable>::lemma_dec_enc(v.host, t1);
        lemma_concat_skip(e1, t1);
        <String as Serializable>::lemma_dec_enc(v.user, t2);
        lemma_concat_skip(e2, t2);
        <String as Serializable>::lemma_dec_enc(v.client_id, t3);
        lemma_concat_skip(e3, t3);
        <String as Serializable>::lemma_dec_enc(v.topic, t4);
        lemma_concat_skip(e4, t4);
        <String as Serializable>::lemma_dec_enc(v.content_type, t5);
        lemma_concat_skip(e5, t5);
        <Vec<DataPacket> as Serializable>::lemma_dec_enc(v.data_packets, rest);
    }

    /// Writes the message body (without the type code).
    pub fn write(&self, out: &mut Vec<u8>) -> (ok: bool)
        ensures
            ok == Self::body_ok(self.deep_view()),
            ok ==> final(out)@ == old(out)@ + Self::enc_body(self.deep_view()),
            !ok ==> final(out)@ == old(out)@,
    {
        let orig_len: usize = out.len();
        if !self.host.serialize(out) {
            return false;
        }
        if !self.user.serialize(out) {
            out.truncate(orig_len);
            proof {
                assert(out@ =~= old(out)@);
            }
            return false;
        }
        if !self.client_id.serialize(out) {
            out.truncate(orig_len);
            proof {
                assert(out@ =~= old(out)@);
            }
            return false;
        }
        if !self.topic.serialize(out) {
            out.truncate(orig_len);
            proof {
                assert(out@ =~= old(out)@);
            }
            return false;
        }
        if !self.content_type.serialize(out) {
            out.truncate(orig_len);
            proof {
                assert(out@ =~= old(out)@);
            }
            return false;
        }
        if !self.data_packets.serialize(out) {
            out.truncate(orig_len);
            proof {
                assert(out@ =~= old(out)@);
            }
            return false;
        }
        proof {
            assert(out@ =~= old(out)@ + Self::enc_body(self.deep_view()));
        }
        true
    }

    /// Reads one message body (without the type code) from `buf` at `*pos`.
    #[verifier::rlimit(50)]
    pub fn read(buf: &Vec<u8>, pos: &mut usize) -> (r: Option<Self>)
        requires
            *old(pos) <= buf@.len(),
        ensures
            match r {
                Some(v) => {
                    &&& *old(pos) <= *final(pos) <= buf@.len()
                    &&& Self::dec_body(buf@.skip(*old(pos) as int)) == Some(
                        (v.deep_view(), *final(pos) - *old(pos)),
                    )
                },
                None => {
                    &&& Self::dec_body(buf@.skip(*old(pos) as int)) is None
                    &&& *final(pos) == *old(pos)
                },
            },
    {
        let start: usize = *pos;
        let host = match String::deserialize(buf, pos) {
            Some(v) => v,
            None => {
                return None;
            },
        };
        let ghost p1 = *pos as int;
        let user = match String::deserialize(buf, pos) {
            Some(v) => v,
            None => {
                proof {
                    lemma_skip_skip(buf@, start as int, p1);
                }
                *pos = start;
                return None;
            },
        };
        let ghost p2 = *pos as int;
        let client_id = match String::deserialize(buf, pos) {
            Some(v) => v,
            None => {
                proof {
                    lemma_skip_skip(buf@, start as int, p1);
                    lemma_skip_skip(buf@, p1, p2);
                }
                *pos = start;
                return None;
            },
        };
        let ghost p3 = *pos as int;
        let topic = match String::deserialize(buf, pos) {
            Some(v) => v,
            None => {
                proof {
                    lemma_skip_skip(buf@, start as int, p1);
                    lemma_skip_skip(buf@, p1, p2);
                    lemma_skip_skip(buf@, p2, p3);
                }
                *pos = start;
                return None;
            },
        };
        let ghost p4 = *pos as int;
        let content_type = match String::deserialize(buf, pos) {
            Some(v) => v,
            None => {
                proof {
                    lemma_skip_skip(buf@, start as int, p1);
                    lemma_skip_skip(buf@, p1, p2);
                    lemma_skip_skip(buf@, p2, p3);
                    lemma_skip_skip(buf@, p3, p4);
                }
                *pos = start;
                return None;
            },
        };
        let ghost p5 = *pos as int;
        let data_packets = match <Vec<DataPacket> as Serializable>::deserialize(buf, pos) {
            Some(v) => v,
            None => {
                proof {
                    lemma_skip_skip(buf@, start as int, p1);
                    lemma_skip_skip(buf@, p1, p2);
                    lemma_skip_skip(buf@, p2, p3);
                    lemma_skip_skip(buf@, p3, p4);
                    lemma_skip_skip(buf@, p4, p5);
                }
                *pos = start;
                return None;
            },
        };
        proof {
            lemma_skip_skip(buf@, start as int, p1);
            lemma_skip_skip(buf@, p1, p2);
            lemma_skip_skip(buf@, p2, p3);
            lemma_skip_skip(buf@, p3, p4);
            lemma_skip_skip(buf@, p4, p5);
        }
        Some(
            ForwardedUnicastData { host, user, client_id, topic, content_type, data_packets },
        )
    }
}

// ---------------------------------------------------------------------------
// The message union
// ---------------------------------------------------------------------------
/// Any message of the bus, as it travels on the wire: a type code followed
/// by the body of the corresponding variant.
#[derive(Clone, Debug, PartialEq)]
pub enum Message {
    AuthenticationRequest(AuthenticationRequest),
    AuthenticationResponse(AuthenticationResponse),
    MulticastData(MulticastData),
    UnicastData(UnicastData),
    SubscriptionRequest(SubscriptionRequest),
    NotificationRequest(NotificationRequest),
    ForwardedMulticastData(ForwardedMulticastData),
    ForwardedUnicastData(ForwardedUnicastData),
    ForwardedSubscriptionRequest(ForwardedSubscriptionRequest),
}

pub enum MessageV {
    AuthenticationRequest(AuthenticationRequestV),
    AuthenticationResponse(AuthenticationResponseV),
    MulticastData(MulticastDataV),
    UnicastData(UnicastDataV),
    SubscriptionRequest(SubscriptionRequestV),
    NotificationRequest(NotificationRequestV),
    ForwardedMulticastData(ForwardedMulticastDataV),
    ForwardedUnicastData(ForwardedUnicastDataV),
    ForwardedSubscriptionRequest(ForwardedSubscriptionRequestV),
}

impl DeepView for Message {
    type V = MessageV;

    open spec fn deep_view(&self) -> MessageV {
        match self {
            Message::AuthenticationRequest(m) => MessageV::AuthenticationRequest(m.deep_view()),
            Message::AuthenticationResponse(m) => MessageV::AuthenticationResponse(m.deep_view()),
            Message::MulticastData(m) => MessageV::MulticastData(m.deep_view()),
            Message::UnicastData(m) => MessageV::UnicastData(m.deep_view()),
            Message::SubscriptionRequest(m) => MessageV::SubscriptionRequest(m.deep_view()),
            Message::NotificationRequest(m) => MessageV::NotificationRequest(m.deep_view()),
            Message::ForwardedMulticastData(m) => MessageV::ForwardedMulticastData(m.deep_view()),
            Message::ForwardedUnicastData(m) => MessageV::ForwardedUnicastData(m.deep_view()),
            Message::ForwardedSubscriptionRequest(m) => MessageV::ForwardedSubscriptionRequest(
                m.deep_view(),
            ),
        }
    }
}

/// The type of a message model.
pub open spec fn type_of(v: MessageV) -> MessageType {
    match v {
        MessageV::AuthenticationRequest(_) => MessageType::AuthenticationRequest,
        MessageV::AuthenticationResponse(_) => MessageType::AuthenticationResponse,
        MessageV::MulticastData(_) => MessageType::MulticastData,
        MessageV::UnicastData(_) => MessageType::UnicastData,
        MessageV::SubscriptionRequest(_) => MessageType::SubscriptionRequest,
        MessageV::NotificationRequest(_) => MessageType::NotificationRequest,
        MessageV::ForwardedMulticastData(_) => MessageType::ForwardedMulticastData,
        MessageV::ForwardedUnicastData(_) => MessageType::ForwardedUnicastData,
        MessageV::ForwardedSubscriptionRequest(_) => MessageType::ForwardedSubscriptionRequest,
    }
}

/// The encoding of a message body, without the leading type code.
pub open spec fn enc_msg_body(v: MessageV) -> Seq<u8> {
    match v {
        MessageV::AuthenticationRequest(m) => AuthenticationRequest::enc_body(m),
        MessageV::AuthenticationResponse(m) => AuthenticationResponse::enc_body(m),
        MessageV::MulticastData(m) => MulticastData::enc_body(m),
        MessageV::UnicastData(m) => UnicastData::enc_body(m),
        MessageV::SubscriptionRequest(m) => SubscriptionRequest::enc_body(m),
        MessageV::NotificationRequest(m) => NotificationRequest::enc_body(m),
        MessageV::ForwardedMulticastData(m) => ForwardedMulticastData::enc_body(m),
        MessageV::ForwardedUnicastData(m) => ForwardedUnicastData::enc_body(m),
        MessageV::ForwardedSubscriptionRequest(m) => ForwardedSubscriptionRequest::enc_body(m),
    }
}

impl Message {
    pub fn message_type(&self) -> (t: MessageType)
        ensures
            t == type_of(self.deep_view()),
    {
        match self {
            Message::AuthenticationRequest(_) => MessageType::AuthenticationRequest,
            Message::AuthenticationResponse(_) => MessageType::AuthenticationResponse,
            Message::MulticastData(_) => MessageType::MulticastData,
            Message::UnicastData(_) => MessageType::UnicastData,
            Message::SubscriptionRequest(_) => MessageType::SubscriptionRequest,
            Message::NotificationRequest(_) => MessageType::NotificationRequest,
            Message::ForwardedMulticastData(_) => MessageType::ForwardedMulticastData,
            Message::ForwardedUnicastData(_) => MessageType::ForwardedUnicastData,
            Message::ForwardedSubscriptionRequest(_) => MessageType::ForwardedSubscriptionRequest,
        }
    }

    /// The number of bytes of this message's wire form.
    pub fn size(&self) -> (n: usize)
        ensures
            <Message as Serializable>::enc_ok(self.deep_view()) ==> n == <Message as Serializable>::enc(
                self.deep_view(),
            ).len(),
    {
        let mut out: Vec<u8> = Vec::new();
        if self.serialize(&mut out) {
            out.len()
        } else {
            0
        }
    }
}

impl Serializable for Message {
    open spec fn enc(v: MessageV) -> Seq<u8> {
        enc_u8(type_code(type_of(v))) + enc_msg_body(v)
    }

    open spec fn enc_ok(v: MessageV) -> bool {
        match v {
            MessageV::AuthenticationRequest(m) => AuthenticationRequest::body_ok(m),
            MessageV::AuthenticationResponse(m) => AuthenticationResponse::body_ok(m),
            MessageV::MulticastData(m) => MulticastData::body_ok(m),
            MessageV::UnicastData(m) => UnicastData::body_ok(m),
            MessageV::SubscriptionRequest(m) => SubscriptionRequest::body_ok(m),
            MessageV::NotificationRequest(m) => NotificationRequest::body_ok(m),
            MessageV::ForwardedMulticastData(m) => ForwardedMulticastData::body_ok(m),
            MessageV::ForwardedUnicastData(m) => ForwardedUnicastData::body_ok(m),
            MessageV::ForwardedSubscriptionRequest(m) => ForwardedSubscriptionRequest::body_ok(m),
        }
    }

    open spec fn dec(b: Seq<u8>) -> Option<(MessageV, int)> {
        match dec_u8(b) {
            Some((c, _)) => match type_of_code(c) {
                Some(MessageType::AuthenticationRequest) => match AuthenticationRequest::dec_body(
                    b.skip(1),
                ) {
                    Some((v, n)) => Some((MessageV::AuthenticationRequest(v), 1 + n)),
                    None => None,
                },
                Some(MessageType::AuthenticationResponse) => match AuthenticationResponse::dec_body(
                    b.skip(1),
                ) {
                    Some((v, n)) => Some((MessageV::AuthenticationResponse(v), 1 + n)),
                    None => None,
                },
                Some(MessageType::MulticastData) => match MulticastData::dec_body(b.skip(1)) {
                    Some((v, n)) => Some((MessageV::MulticastData(v), 1 + n)),
                    None => None,
                },
                Some(MessageType::UnicastData) => match UnicastData::dec_body(b.skip(1)) {
                    Some((v, n)) => Some((MessageV::UnicastData(v), 1 + n)),
                    None => None,
                },
                Some(MessageType::SubscriptionRequest) => match SubscriptionRequest::dec_body(
                    b.skip(1),
                ) {
                    Some((v, n)) => Some((MessageV::SubscriptionRequest(v), 1 + n)),
                    None => None,
                },
                Some(MessageType::NotificationRequest) => match NotificationRequest::dec_body(
                    b.skip(1),
                ) {
                    Some((v, n)) => Some((MessageV::NotificationRequest(v), 1 + n)),
                    None => None,
                },
                Some(MessageType::ForwardedMulticastData) => match ForwardedMulticastData::dec_body(
                    b.skip(1),
                ) {
                    Some((v, n)) => Some((MessageV::ForwardedMulticastData(v), 1 + n)),
                    None => None,
                },
                Some(MessageType::ForwardedUnicastData) => match ForwardedUnicastData::dec_body(
                    b.skip(1),
                ) {
                    Some((v, n)) => Some((MessageV::ForwardedUnicastData(v), 1 + n)),
                    None => None,
                },
                Some(MessageType::ForwardedSubscriptionRequest) => match ForwardedSubscriptionRequest::dec_body(
                    b.skip(1),
                ) {
                    Some((v, n)) => Some((MessageV::ForwardedSubscriptionRequest(v), 1 + n)),
                    None => None,
                },
                None => None,
            },
            None => None,
        }
    }

    proof fn lemma_dec_bounds(b: Seq<u8>) {
        match dec_u8(b) {
            Some((c, _)) => {
                lemma_msg_body_bounds(b.skip(1));
            },
            None => {},
        }
    }

    #[verifier::rlimit(100)]
    #[verifier::spinoff_prover]
    proof fn lemma_dec_enc(v: MessageV, rest: Seq<u8>) {
        let code = type_code(type_of(v));
        let body = enc_msg_body(v);
        let whole = Self::enc(v) + rest;
        assert(whole =~= enc_u8(code) + (body + rest));
        assert(whole[0] == code);
        assert(whole.skip(1) =~= body + rest);
        match v {
            MessageV::AuthenticationRequest(m) => {
                AuthenticationRequest::lemma_dec_enc_body(m, rest);
            },
            MessageV::AuthenticationResponse(m) => {
                AuthenticationResponse::lemma_dec_enc_body(m, rest);
            },
            MessageV::MulticastData(m) => {
                MulticastData::lemma_dec_enc_body(m, rest);
            },
            MessageV::UnicastData(m) => {
                UnicastData::lemma_dec_enc_body(m, rest);
            },
            MessageV::SubscriptionRequest(m) => {
                SubscriptionRequest::lemma_dec_enc_body(m, rest);
            },
            MessageV::NotificationRequest(m) => {
                NotificationRequest::lemma_dec_enc_body(m, rest);
            },
            MessageV::ForwardedMulticastData(m) => {
                ForwardedMulticastData::lemma_dec_enc_body(m, rest);
            },
            MessageV::ForwardedUnicastData(m) => {
                ForwardedUnicastData::lemma_dec_enc_body(m, rest);
            },
            MessageV::ForwardedSubscriptionRequest(m) => {
                ForwardedSubscriptionRequest::lemma_dec_enc_body(m, rest);
            },
        }
    }

    fn serialize(&self, out: &mut Vec<u8>) -> (ok: bool) {
        let orig_len: usize = out.len();
        let code = self.message_type().code();
        let _ = code.serialize(out);
        let ok = match self {
            Message::AuthenticationRequest(m) => m.write(out),
            Message::AuthenticationResponse(m) => m.write(out),
            Message::MulticastData(m) => m.write(out),
            Message::UnicastData(m) => m.write(out),
            Message::SubscriptionRequest(m) => m.write(out),
            Message::NotificationRequest(m) => m.write(out),
            Message::ForwardedMulticastData(m) => m.write(out),
            Message::ForwardedUnicastData(m) => m.write(out),
            Message::ForwardedSubscriptionRequest(m) => m.write(out),
        };
        if !ok {
            out.truncate(orig_len);
            proof {
                assert(out@ =~= old(out)@);
            }
            return false;
        }
        proof {
            assert(out@ =~= old(out)@ + Self::enc(self.deep_view()));
        }
        true
    }

    #[verifier::rlimit(80)]
    #[verifier::spinoff_prover]
    fn deserialize(buf: &Vec<u8>, pos: &mut usize) -> (r: Option<Message>) {
        let start: usize = *pos;
        let code = match u8::deserialize(buf, pos) {
            Some(c) => c,
            None => {
                return None;
            },
        };
        proof {
            lemma_skip_skip(buf@, start as int, start + 1);
        }
        let t = match MessageType::from_code(code) {
            Some(t) => t,
            None => {
                *pos = start;
                return None;
            },
        };
        let r = match t {
            MessageType::AuthenticationRequest => match AuthenticationRequest::read(buf, pos) {
                Some(m) => Some(Message::AuthenticationRequest(m)),
                None => None,
            },
            MessageType::AuthenticationResponse => match AuthenticationResponse::read(buf, pos) {
                Some(m) => Some(Message::AuthenticationResponse(m)),
                None => None,
            },
            MessageType::MulticastData => match MulticastData::read(buf, pos) {
                Some(m) => Some(Message::MulticastData(m)),
                None => None,
            },
            MessageType::UnicastData => match UnicastData::read(buf, pos) {
                Some(m) => Some(Message::UnicastData(m)),
                None => None,
            },
            MessageType::SubscriptionRequest => match SubscriptionRequest::read(buf, pos) {
                Some(m) => Some(Message::SubscriptionRequest(m)),
                None => None,
            },
            MessageType::NotificationRequest => match NotificationRequest::read(buf, pos) {
                Some(m) => Some(Message::NotificationRequest(m)),
                None => None,
            },
            MessageType::ForwardedMulticastData => match ForwardedMulticastData::read(buf, pos) {
                Some(m) => Some(Message::ForwardedMulticastData(m)),
                None => None,
            },
            MessageType::ForwardedUnicastData => match ForwardedUnicastData::read(buf, pos) {
                Some(m) => Some(Message::ForwardedUnicastData(m)),
                None => None,
            },
            MessageType::ForwardedSubscriptionRequest => match ForwardedSubscriptionRequest::read(
                buf,
                pos,
            ) {
                Some(m) => Some(Message::ForwardedSubscriptionRequest(m)),
                None => None,
            },
        };
        match r {
            Some(m) => Some(m),
            None => {
                *pos = start;
                None
            },
        }
    }
}

/// Round trip: decoding the encoding of any well-formed message, whatever
/// follows it, yields exactly that message.
pub proof fn lemma_message_round_trip(v: MessageV, rest: Seq<u8>)
    requires
        <Message as Serializable>::enc_ok(v),
    ensures
        <Message as Serializable>::dec(<Message as Serializable>::enc(v) + rest) == Some(
            (v, <Message as Serializable>::enc(v).len() as int),
        ),
{
    <Message as Serializable>::lemma_dec_enc(v, rest);
}

/// Determinism: the encoding is a function of the message alone, so two
/// encodings of one message are equal byte for byte.
pub proof fn lemma_encode_deterministic(v: MessageV, b1: Seq<u8>, b2: Seq<u8>)
    requires
        b1 == <Message as Serializable>::enc(v),
        b2 == <Message as Serializable>::enc(v),
    ensures
        b1 == b2,
{
}

/// Bounds of the body parsers: a successful parse consumes no more than the
/// input.
pub proof fn lemma_msg_body_bounds(b: Seq<u8>)
    ensures
        AuthenticationRequest::dec_body(b) matches Some((v, n)) ==> 0 <= n <= b.len(),
        AuthenticationResponse::dec_body(b) matches Some((v, n)) ==> 0 <= n <= b.len(),
        MulticastData::dec_body(b) matches Some((v, n)) ==> 0 <= n <= b.len(),
        UnicastData::dec_body(b) matches Some((v, n)) ==> 0 <= n <= b.len(),
        SubscriptionRequest::dec_body(b) matches Some((v, n)) ==> 0 <= n <= b.len(),
        NotificationRequest::dec_body(b) matches Some((v, n)) ==> 0 <= n <= b.len(),
        ForwardedMulticastData::dec_body(b) matches Some((v, n)) ==> 0 <= n <= b.len(),
        ForwardedUnicastData::dec_body(b) matches Some((v, n)) ==> 0 <= n <= b.len(),
        ForwardedSubscriptionRequest::dec_body(b) matches Some((v, n)) ==> 0 <= n <= b.len(),
{
    <String as Serializable>::lemma_dec_bounds(b);
    <Vec<u8> as Serializable>::lemma_dec_bounds(b);
    match <String as Serializable>::dec(b) {
        Some((_, n1)) => {
            let b1 = b.skip(n1);
            <String as Serializable>::lemma_dec_bounds(b1);
            <bool as Serializable>::lemma_dec_bounds(b1);
            <Vec<u8> as Serializable>::lemma_dec_bounds(b1);
            <Vec<DataPacket> as Serializable>::lemma_dec_bounds(b1);
            match <String as Serializable>::dec(b1) {
                Some((_, n2)) => {
                    let b2 = b1.skip(n2);
                    <String as Serializable>::lemma_dec_bounds(b2);
                    <bool as Serializable>::lemma_dec_bounds(b2);
                    <Vec<DataPacket> as Serializable>::lemma_dec_bounds(b2);
                    match <String as Serializable>::dec(b2) {
                        Some((_, n3)) => {
                            let b3 = b2.skip(n3);
                            <String as Serializable>::lemma_dec_bounds(b3);
                            <bool as Serializable>::lemma_dec_bounds(b3);
                            <Vec<DataPacket> as Serializable>::lemma_dec_bounds(b3);
                            match <String as Serializable>::dec(b3) {
                                Some((_, n4)) => {
                                    let b4 = b3.skip(n4);
                                    <String as Serializable>::lemma_dec_bounds(b4);
                                    <bool as Serializable>::lemma_dec_bounds(b4);
                                    <Vec<DataPacket> as Serializable>::lemma_dec_bounds(b4);
                                    match <String as Serializable>::dec(b4) {
                                        Some((_, n5)) => {
                                            let b5 = b4.skip(n5);
                                            <bool as Serializable>::lemma_dec_bounds(b5);
                                            <Vec<DataPacket> as Serializable>::lemma_dec_bounds(
                                                b5,
                                            );
                                        },
                                        None => {},
                                    }
                                },
                                None => {},
                            }
                        },
                        None => {},
                    }
                },
                None => {},
            }
        },
        None => {},
    }
}

} // verus!
