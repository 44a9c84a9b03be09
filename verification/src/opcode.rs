//! The message kinds of the peer protocol.
use vstd::prelude::*;

verus! {

pub const CHOKE: u8 = 0;

pub const UNCHOKE: u8 = 1;

pub const INTEREST: u8 = 2;

pub const UNINTEREST: u8 = 3;

pub const HAVE: u8 = 4;

pub const BITFIELD: u8 = 5;

pub const REQUEST: u8 = 6;

pub const PIECE: u8 = 7;

pub const CANCEL: u8 = 8;

pub const EXTENDED: u8 = 20;

/// The name of a message kind, if there is a kind with that number.
pub open spec fn opcode_name(id: u8) -> Option<Seq<char>> {
    if id == CHOKE {
        Some("CHOKE"@)
    } else if id == UNCHOKE {
        Some("UNCHOKE"@)
    } else if id == INTEREST {
        Some("INTEREST"@)
    } else if id == UNINTEREST {
        Some("UNINTEREST"@)
    } else if id == HAVE {
        Some("HAVE"@)
    } else if id == BITFIELD {
        Some("BITFIELD"@)
    } else if id == REQUEST {
        Some("REQUEST"@)
    } else if id == PIECE {
        Some("PIECE"@)
    } else if id == CANCEL {
        Some("CANCEL"@)
    } else if id == EXTENDED {
        Some("EXTENDED"@)
    } else {
        None
    }
}

/// Numbers that stand for a message kind.
pub trait OpcodeName {
    /// The number of the kind.
    spec fn opcode(&self) -> u8;

    /// The name of the kind.
    fn to_opcode_name(&self) -> (name: &'static str)
        requires
            opcode_name(self.opcode()) is Some,
        ensures
            opcode_name(self.opcode()) == Some(name@),
    ;
}

impl OpcodeName for u8 {
    open spec fn opcode(&self) -> u8 {
        *self
    }

    fn to_opcode_name(&self) -> &'static str {
        let id: u8 = *self;
        if id == CHOKE {
            "CHOKE"
        } else if id == UNCHOKE {
            "UNCHOKE"
        } else if id == INTEREST {
            "INTEREST"
        } else if id == UNINTEREST {
            "UNINTEREST"
        } else if id == HAVE {
            "HAVE"
        } else if id == BITFIELD {
            "BITFIELD"
        } else if id == REQUEST {
            "REQUEST"
        } else if id == PIECE {
            "PIECE"
        } else if id == CANCEL {
            "CANCEL"
        } else {
            "EXTENDED"
        }
    }
}

/// Whether `id` is the number of a message kind.
pub fn is_opcode(id: u8) -> (known: bool)
    ensures
        known == (opcode_name(id) is Some),
{
    id <= CANCEL || id == EXTENDED
}

/// The numbers of the message kinds, and nothing else has a name.
pub proof fn law_opcodes(id: u8)
    ensures
        (CHOKE, UNCHOKE, INTEREST, UNINTEREST, HAVE) == (0u8, 1u8, 2u8, 3u8, 4u8),
        (BITFIELD, REQUEST, PIECE, CANCEL, EXTENDED) == (5u8, 6u8, 7u8, 8u8, 20u8),
        opcode_name(id) is Some <==> id < 9 || id == 20,
{
}

/// The name of each message kind.
pub proof fn law_opcode_names()
    ensures
        opcode_name(0) == Some("CHOKE"@),
        opcode_name(1) == Some("UNCHOKE"@),
        opcode_name(2) == Some("INTEREST"@),
        opcode_name(3) == Some("UNINTEREST"@),
        opcode_name(4) == Some("HAVE"@),
        opcode_name(5) == Some("BITFIELD"@),
        opcode_name(6) == Some("REQUEST"@),
        opcode_name(7) == Some("PIECE"@),
        opcode_name(8) == Some("CANCEL"@),
        opcode_name(20) == Some("EXTENDED"@),
{
}

} // verus!
