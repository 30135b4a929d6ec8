//! The 20-byte opaque identifiers of the tracker: info-hashes, peer ids
//! and user ids. Hex (40 lowercase characters) is the canonical textual
//! form; ordering is byte-wise lexicographic.

use vstd::prelude::*;
use crate::codec::{bin2hex, hex2bin, hex_of};
use crate::errs::CustomError;
use crate::idmap::clone_bytes;
use crate::order::{key_lt, lex_lt};

verus! {

/// The 20-byte identifier of a torrent's swarm.
pub struct InfoHash {
    pub bytes: Vec<u8>,
}

impl View for InfoHash {
    type V = Seq<u8>;

    open spec fn view(&self) -> Seq<u8> {
        self.bytes@
    }
}

impl InfoHash {
    pub open spec fn wf(self) -> bool {
        self.bytes@.len() == 20
    }

    pub fn new(bytes: Vec<u8>) -> (r: InfoHash)
        requires
            bytes@.len() == 20,
        ensures
            r.wf(),
            r@ == bytes@,
    {
        InfoHash { bytes }
    }

    /// Decodes the canonical hex form.
    pub fn from_hex(data: String) -> (r: Result<InfoHash, CustomError>)
        ensures
            match r {
                Ok(h) => h.wf() && h@ == crate::codec::hex_bytes(data@.subrange(0, 40))
                    && crate::codec::all_hex_chars(data@) && data@.len() % 2 == 0 && data@.len()
                    >= 40,
                Err(_) => !(crate::codec::all_hex_chars(data@) && data@.len() % 2 == 0
                    && data@.len() >= 40),
            },
    {
        match hex2bin(data) {
            Ok(bytes) => Ok(InfoHash { bytes }),
            Err(e) => Err(e),
        }
    }

    /// The canonical textual form: 40 lowercase hex characters.
    pub fn to_hex(&self) -> (r: String)
        ensures
            r@ == hex_of(self@),
    {
        bin2hex(&self.bytes)
    }

    pub fn duplicate(&self) -> (r: InfoHash)
        ensures
            r@ == self@,
            r.wf() == self.wf(),
    {
        InfoHash { bytes: clone_bytes(&self.bytes) }
    }

    /// Byte-wise order, the order of the stores.
    pub fn lt(&self, other: &InfoHash) -> (r: bool)
        ensures
            r == lex_lt(self@, other@),
    {
        key_lt(&self.bytes, &other.bytes)
    }
}

/// The 20-byte identifier a peer chooses for itself in a swarm.
pub struct PeerId {
    pub bytes: Vec<u8>,
}

impl View for PeerId {
    type V = Seq<u8>;

    open spec fn view(&self) -> Seq<u8> {
        self.bytes@
    }
}

impl PeerId {
    pub open spec fn wf(self) -> bool {
        self.bytes@.len() == 20
    }

    pub fn new(bytes: Vec<u8>) -> (r: PeerId)
        requires
            bytes@.len() == 20,
        ensures
            r.wf(),
            r@ == bytes@,
    {
        PeerId { bytes }
    }

    pub fn to_hex(&self) -> (r: String)
        ensures
            r@ == hex_of(self@),
    {
        bin2hex(&self.bytes)
    }

    pub fn duplicate(&self) -> (r: PeerId)
        ensures
            r@ == self@,
            r.wf() == self.wf(),
    {
        PeerId { bytes: clone_bytes(&self.bytes) }
    }

    pub fn lt(&self, other: &PeerId) -> (r: bool)
        ensures
            r == lex_lt(self@, other@),
    {
        key_lt(&self.bytes, &other.bytes)
    }
}

/// The 20-byte identifier of a user account; also the shape of the access
/// tokens that user-key announces carry.
pub struct UserId {
    pub bytes: Vec<u8>,
}

impl View for UserId {
    type V = Seq<u8>;

    open spec fn view(&self) -> Seq<u8> {
        self.bytes@
    }
}

impl UserId {
    pub open spec fn wf(self) -> bool {
        self.bytes@.len() == 20
    }

    pub fn new(bytes: Vec<u8>) -> (r: UserId)
        requires
            bytes@.len() == 20,
        ensures
            r.wf(),
            r@ == bytes@,
    {
        UserId { bytes }
    }

    pub fn from_hex(data: String) -> (r: Result<UserId, CustomError>)
        ensures
            match r {
                Ok(h) => h.wf() && h@ == crate::codec::hex_bytes(data@.subrange(0, 40))
                    && crate::codec::all_hex_chars(data@) && data@.len() % 2 == 0 && data@.len()
                    >= 40,
                Err(_) => !(crate::codec::all_hex_chars(data@) && data@.len() % 2 == 0
                    && data@.len() >= 40),
            },
    {
        match hex2bin(data) {
            Ok(bytes) => Ok(UserId { bytes }),
            Err(e) => Err(e),
        }
    }

    pub fn to_hex(&self) -> (r: String)
        ensures
            r@ == hex_of(self@),
    {
        bin2hex(&self.bytes)
    }

    pub fn duplicate(&self) -> (r: UserId)
        ensures
            r@ == self@,
            r.wf() == self.wf(),
    {
        UserId { bytes: clone_bytes(&self.bytes) }
    }

    pub fn lt(&self, other: &UserId) -> (r: bool)
        ensures
            r == lex_lt(self@, other@),
    {
        key_lt(&self.bytes, &other.bytes)
    }
}

} // verus!
