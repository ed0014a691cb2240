//! DISCONNECT and AUTH.

use vstd::prelude::*;
use crate::codec::{wire, Properties, PropertiesView, Reader, Writer};
use crate::error::Result;
use crate::packet::publish;
use crate::packet::publish::{decode_reason, encode_reason};
use crate::types::{ProtocolVersion, ReasonCode};

verus! {

broadcast use wire::group_tail;

#[derive(Debug)]
pub struct Disconnect {
    pub reason_code: ReasonCode,
    pub properties: Properties,
}

/// What a DISCONNECT packet says.
pub struct DisconnectView {
    pub reason_code: ReasonCode,
    pub properties: PropertiesView,
}

impl View for Disconnect {
    type V = DisconnectView;

    open spec fn view(&self) -> DisconnectView {
        DisconnectView { reason_code: self.reason_code, properties: self.properties@ }
    }
}

impl DisconnectView {
    /// Reads the body of a DISCONNECT packet of `len` bytes. An empty body is a
    /// normal disconnection; v3.x has no other.
    pub open spec fn parse(len: nat, version: ProtocolVersion, s: Seq<u8>) -> Option<
        (DisconnectView, Seq<u8>),
    > {
        match publish::parse_reason(version is V5, len, s) {
            None => None,
            Some(((reason_code, properties), rest)) => Some(
                (DisconnectView { reason_code, properties }, rest),
            ),
        }
    }

    pub open spec fn bytes(self, version: ProtocolVersion) -> Seq<u8> {
        publish::reason_bytes(version is V5, self.reason_code, self.properties)
    }

    pub open spec fn encodable(self, version: ProtocolVersion) -> bool {
        publish::reason_encodable(version is V5, self.reason_code, self.properties)
    }

    /// Whether reading back what is written gives this packet.
    pub open spec fn sendable(self, version: ProtocolVersion) -> bool {
        publish::reason_sendable(version is V5, self.reason_code, self.properties)
    }
}

/// A DISCONNECT packet that can be sent reads back as it was written.
pub proof fn disconnect_roundtrip(p: DisconnectView, version: ProtocolVersion)
    requires
        p.sendable(version),
    ensures
        DisconnectView::parse(p.bytes(version).len(), version, p.bytes(version)) == Some(
            (p, Seq::<u8>::empty()),
        ),
{
    publish::lemma_reason_roundtrip(version is V5, p.reason_code, p.properties);
}

impl Disconnect {
    pub fn new(reason_code: ReasonCode) -> (r: Self)
        ensures
            r@ == (DisconnectView { reason_code, properties: PropertiesView::empty() }),
    {
        Disconnect { reason_code, properties: Properties::new() }
    }

    /// Reads the body of a DISCONNECT packet of `remaining_len` bytes.
    pub fn decode(r: &mut Reader, remaining_len: usize, version: ProtocolVersion) -> (res: Result<
        Disconnect,
    >)
        ensures
            match res {
                Ok(p) => DisconnectView::parse(remaining_len as nat, version, old(r)@) == Some(
                    (p@, final(r)@),
                ),
                Err(e) => DisconnectView::parse(remaining_len as nat, version, old(r)@) is None
                    && e.says_malformed(publish::reason_fault(old(r)@)),
            },
            wire::is_tail(final(r)@, old(r)@),
    {
        let (reason_code, properties): (ReasonCode, Properties) = decode_reason(
            version.has_properties(),
            remaining_len,
            r,
        )?;
        Ok(Disconnect { reason_code, properties })
    }

    /// The body of the packet.
    pub fn encode_body(&self, version: ProtocolVersion) -> (res: Result<Vec<u8>>)
        ensures
            match res {
                Ok(b) => self@.encodable(version) && b@ == self@.bytes(version),
                Err(e) => !self@.encodable(version) && e.is_overflow(),
            },
    {
        let mut w: Writer = Writer::new();
        encode_reason(version.has_properties(), self.reason_code, &self.properties, &mut w)?;
        assert(w@ =~= self@.bytes(version));
        Ok(w.into_vec())
    }
}

#[derive(Debug)]
pub struct Auth {
    pub reason_code: ReasonCode,
    pub properties: Properties,
}

/// What an AUTH packet says.
pub struct AuthView {
    pub reason_code: ReasonCode,
    pub properties: PropertiesView,
}

impl View for Auth {
    type V = AuthView;

    open spec fn view(&self) -> AuthView {
        AuthView { reason_code: self.reason_code, properties: self.properties@ }
    }
}

impl AuthView {
    /// Reads the body of an AUTH packet of `len` bytes.
    pub open spec fn parse(len: nat, s: Seq<u8>) -> Option<(AuthView, Seq<u8>)> {
        match publish::parse_reason(true, len, s) {
            None => None,
            Some(((reason_code, properties), rest)) => Some(
                (AuthView { reason_code, properties }, rest),
            ),
        }
    }

    pub open spec fn bytes(self) -> Seq<u8> {
        publish::reason_bytes(true, self.reason_code, self.properties)
    }

    pub open spec fn encodable(self) -> bool {
        publish::reason_encodable(true, self.reason_code, self.properties)
    }

    /// Whether reading back what is written gives this packet.
    pub open spec fn sendable(self) -> bool {
        publish::reason_sendable(true, self.reason_code, self.properties)
    }
}

/// An AUTH packet that can be sent reads back as it was written.
pub proof fn auth_roundtrip(p: AuthView)
    requires
        p.sendable(),
    ensures
        AuthView::parse(p.bytes().len(), p.bytes()) == Some((p, Seq::<u8>::empty())),
{
    publish::lemma_reason_roundtrip(true, p.reason_code, p.properties);
}

impl Auth {
    /// Reads the body of an AUTH packet of `remaining_len` bytes.
    pub fn decode(r: &mut Reader, remaining_len: usize) -> (res: Result<Auth>)
        ensures
            match res {
                Ok(p) => AuthView::parse(remaining_len as nat, old(r)@) == Some((p@, final(r)@)),
                Err(e) => AuthView::parse(remaining_len as nat, old(r)@) is None
                    && e.says_malformed(publish::reason_fault(old(r)@)),
            },
            wire::is_tail(final(r)@, old(r)@),
    {
        let (reason_code, properties): (ReasonCode, Properties) = decode_reason(
            true,
            remaining_len,
            r,
        )?;
        Ok(Auth { reason_code, properties })
    }

    /// The body of the packet.
    pub fn encode_body(&self) -> (res: Result<Vec<u8>>)
        ensures
            match res {
                Ok(b) => self@.encodable() && b@ == self@.bytes(),
                Err(e) => !self@.encodable() && e.is_overflow(),
            },
    {
        let mut w: Writer = Writer::new();
        encode_reason(true, self.reason_code, &self.properties, &mut w)?;
        assert(w@ =~= self@.bytes());
        Ok(w.into_vec())
    }
}

} // verus!
