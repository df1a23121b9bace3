//! The structural model: peripherals, registers, bit fields and interrupts.

use vstd::prelude::*;
use crate::text::str_eq;

verus! {

/// Where a field lies in its register: one bit, or an inclusive range of bits.
#[derive(Debug, Clone, Copy, PartialEq, Eq, Structural)]
pub enum Bits {
    Single(u8),
    Range(u8, u8),
}

impl Bits {
    /// Every bit lies in 0..=31 and a range does not run backwards.
    pub open spec fn wf(self) -> bool {
        match self {
            Bits::Single(b) => b <= 31,
            Bits::Range(s, e) => s <= e && e <= 31,
        }
    }

}

impl Default for Bits {
    /// The first bit, as a single bit.
    fn default() -> (r: Bits)
        ensures
            r == Bits::Single(0),
    {
        Bits::Single(0)
    }
}

/// Access mode of a bit field.
#[derive(Debug, Clone, Copy, PartialEq, Eq, Structural)]
pub enum Type {
    ReadOnly,
    ReadWrite,
    WriteOnly,
}

/// The access mode that a documentation string names, if any.
pub open spec fn type_named(s: Seq<char>) -> Option<Type> {
    if s == seq!['R', 'O'] || s == seq!['R', '/', 'O'] {
        Some(Type::ReadOnly)
    } else if s == seq!['R', 'W'] || s == seq!['R', '/', 'W'] {
        Some(Type::ReadWrite)
    } else if s == seq!['W', 'O'] || s == seq!['W', '/', 'O'] {
        Some(Type::WriteOnly)
    } else {
        None
    }
}

impl Default for Type {
    /// Fields are read-write unless documented otherwise.
    fn default() -> (r: Type)
        ensures
            r == Type::ReadWrite,
    {
        Type::ReadWrite
    }
}

impl std::str::FromStr for Type {
    type Err = String;

    fn from_str(s: &str) -> Result<Type, String> {
        Type::from_str(s)
    }
}

impl Type {
    /// Reads an access mode written `RO`, `R/O`, `RW`, `R/W`, `WO` or `W/O`.
    pub fn from_str(s: &str) -> (r: Result<Type, String>)
        ensures
            match r {
                Ok(t) => type_named(s@) == Some(t),
                Err(msg) => type_named(s@) is None && msg@ == "Invalid BitField type: "@ + s@,
            },
    {
        proof {
            reveal_strlit("RO");
            reveal_strlit("R/O");
            reveal_strlit("RW");
            reveal_strlit("R/W");
            reveal_strlit("WO");
            reveal_strlit("W/O");
            assert(seq!['R', 'O'] =~= "RO"@);
            assert(seq!['R', '/', 'O'] =~= "R/O"@);
            assert(seq!['R', 'W'] =~= "RW"@);
            assert(seq!['R', '/', 'W'] =~= "R/W"@);
            assert(seq!['W', 'O'] =~= "WO"@);
            assert(seq!['W', '/', 'O'] =~= "W/O"@);
        }
        if str_eq(s, "RO") || str_eq(s, "R/O") {
            Ok(Type::ReadOnly)
        } else if str_eq(s, "RW") || str_eq(s, "R/W") {
            Ok(Type::ReadWrite)
        } else if str_eq(s, "WO") || str_eq(s, "W/O") {
            Ok(Type::WriteOnly)
        } else {
            Err("Invalid BitField type: ".to_owned().concat(s))
        }
    }
}

/// A named run of bits within a register.
#[derive(Debug, Clone)]
pub struct BitField {
    /// Field name
    pub name: String,
    /// Bits
    pub bits: Bits,
    /// Access mode
    pub type_: Type,
    /// Reset value
    pub reset_value: u32,
    /// Description
    pub description: String,
}

pub struct BitFieldV {
    pub name: Seq<char>,
    pub bits: Bits,
    pub type_: Type,
    pub reset_value: u32,
    pub description: Seq<char>,
}

impl View for BitField {
    type V = BitFieldV;

    open spec fn view(&self) -> BitFieldV {
        BitFieldV {
            name: self.name@,
            bits: self.bits,
            type_: self.type_,
            reset_value: self.reset_value,
            description: self.description@,
        }
    }
}

/// A field as the scanner makes it: the given name and bits, the default
/// access mode, reset value zero and no description.
pub open spec fn plain_field(name: Seq<char>, bits: Bits) -> BitFieldV {
    BitFieldV { name, bits, type_: Type::ReadWrite, reset_value: 0, description: Seq::empty() }
}

impl BitField {
    /// A field with the given name and bits and every other attribute at its default.
    pub fn plain(name: String, bits: Bits) -> (r: BitField)
        ensures
            r@ == plain_field(name@, bits),
    {
        BitField { name, bits, type_: Type::ReadWrite, reset_value: 0, description: String::new() }
    }
}

/// A register at an offset from its peripheral's base address.
#[derive(Debug, Clone)]
pub struct Register {
    /// Register name
    pub name: String,
    /// Offset from the peripheral's base address
    pub address: u32,
    /// Width
    pub width: u8,
    /// Description
    pub description: String,
    /// Reset value
    pub reset_value: u64,
    /// Detailed description
    pub detailed_description: Option<String>,
    pub bit_fields: Vec<BitField>,
}

pub struct RegisterV {
    pub name: Seq<char>,
    pub address: u32,
    pub width: u8,
    pub description: Seq<char>,
    pub reset_value: u64,
    pub detailed_description: Option<Seq<char>>,
    pub bit_fields: Seq<BitFieldV>,
}

impl View for Register {
    type V = RegisterV;

    open spec fn view(&self) -> RegisterV {
        RegisterV {
            name: self.name@,
            address: self.address,
            width: self.width,
            description: self.description@,
            reset_value: self.reset_value,
            detailed_description: match self.detailed_description {
                Some(d) => Some(d@),
                None => None,
            },
            bit_fields: self.bit_fields@.map_values(|f: BitField| f@),
        }
    }
}

/// A register as the scanner opens it: named and described by `name`, at
/// `offset`, 32 bits wide, with no fields yet.
pub open spec fn register_stub(name: Seq<char>, offset: u32) -> RegisterV {
    RegisterV {
        name,
        address: offset,
        width: 32,
        description: name,
        reset_value: 0,
        detailed_description: None,
        bit_fields: Seq::empty(),
    }
}

/// `r` with `f` appended to its fields.
pub open spec fn with_field(r: RegisterV, f: BitFieldV) -> RegisterV {
    RegisterV { bit_fields: r.bit_fields.push(f), ..r }
}

impl Register {
    /// A register named and described by `name`, at `offset`, with no fields.
    pub fn stub(name: &str, offset: u32) -> (r: Register)
        ensures
            r@ == register_stub(name@, offset),
    {
        let r = Register {
            name: name.to_owned(),
            address: offset,
            width: 32,
            description: name.to_owned(),
            reset_value: 0,
            detailed_description: None,
            bit_fields: Vec::new(),
        };
        assert(r@.bit_fields =~= Seq::<BitFieldV>::empty());
        r
    }

    /// Appends a field.
    pub fn push_field(&mut self, f: BitField)
        ensures
            final(self)@ == with_field(old(self)@, f@),
    {
        self.bit_fields.push(f);
        assert(self@.bit_fields =~= old(self)@.bit_fields.push(f@));
    }
}

/// A memory-mapped unit: a base address and its registers.
#[derive(Debug, Clone)]
pub struct Peripheral {
    pub description: String,
    pub address: u32,
    pub registers: Vec<Register>,
}

pub struct PeripheralV {
    pub description: Seq<char>,
    pub address: u32,
    pub registers: Seq<RegisterV>,
}

impl View for Peripheral {
    type V = PeripheralV;

    open spec fn view(&self) -> PeripheralV {
        PeripheralV {
            description: self.description@,
            address: self.address,
            registers: self.registers@.map_values(|r: Register| r@),
        }
    }
}

/// An interrupt source: a name, a description and its number.
#[derive(Debug, Clone)]
pub struct Interrupt {
    pub name: String,
    pub description: Option<String>,
    pub value: u32,
}

} // verus!
