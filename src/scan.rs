//! The per-line register scanner: a state machine over what the header
//! patterns recognise on each line.

use vstd::prelude::*;
use crate::model::{Bits, BitField, BitFieldV, Register, RegisterV, plain_field, register_stub, with_field};
use crate::foreign::{captures, regex_first, strings_view};
use crate::text::{
    count_ones, ends_with_index, first_token, first_token_of, is_indexed_name, parse_bounded,
    parse_radix, popcount, strip_hex_prefix, trim_hex_prefix,
};

verus! {

/// A base-address definition: the peripheral's name and the hexadecimal address.
pub const REG_BASE: &'static str = r"\#define[\s*]+(?:DR_REG|REG|PERIPHS)_(.*)_BASE(?:A?DDR)?[\s*]+0x([0-9a-fA-F]+)";
/// A register at an offset from a peripheral's base: name, peripheral, offset.
pub const REG_DEF: &'static str = r"\#define[\s*]+(?:PERIPHS_)?([^\s*]+)_(?:REG|ADDRESS|U)[\s*]+\((?:DR_REG|REG|PERIPHS)_(.*)_BASE(?:A?DDR)? \+ (.*)\)";
/// A register given by its offset alone: name, offset.
pub const REG_DEF_OFFSET: &'static str = r"\#define[\s*]+(?:PERIPHS_)?([^\s*]+)_(?:ADDRESS|U)[\s*]+(?:0x)?([0-9a-fA-F]+)";
/// An indexed register macro: name, peripheral, offset.
pub const REG_DEF_INDEX: &'static str = r"\#define[\s*]+(?:PERIPHS_)?([^\s*]+)_(?:REG|ADDRESS|U)\(i\)[\s*]+\((?:DR_REG|REG|PERIPHS)_([0-9A-Za-z_]+)_BASE(?:A?DDR)?[\s*]*\(i\) \+ (.*?)\)";
/// A field mask or single-bit definition: name, value.
pub const REG_DEFINE_MASK: &'static str = r"\#define[\s*]+(?:PERIPHS_)?([^\s*]+)[\s*]+\(?(0x[0-9a-fA-F]+|[0-9]+|\(?BIT\(?[0-9]+\)?)\)?\)?";
/// A field shift: name, shift.
pub const REG_DEFINE_SHIFT: &'static str = r"\#define[\s*]+(?:PERIPHS_)?([^\s*]+)_(?:S|s)[\s*]+\(?(0x[0-9a-fA-F]+|[0-9]+)\)?";
/// A `_M` / `_V` companion of a mask, which carries nothing new.
pub const REG_DEFINE_SKIP: &'static str = r"\#define[\s*]+(?:PERIPHS_)?([^\s*]+)_(?:M|V)[\s*]+(\(|0x)";
/// A single-bit value: the bit.
pub const SINGLE_BIT: &'static str = r"BIT\(?([0-9]+)\)?";
/// An opening conditional directive.
pub const REG_IFDEF: &'static str = r"#ifn?def.*";
/// A closing conditional directive.
pub const REG_ENDIF: &'static str = r"#endif";

/// What the header patterns recognise on one line.
pub struct LineFacts {
    /// The line is a conditional directive.
    pub directive: bool,
    pub reg_def: Option<Vec<String>>,
    pub reg_def_index: Option<Vec<String>>,
    pub reg_def_offset: Option<Vec<String>>,
    pub define_mask: Option<Vec<String>>,
    /// A single bit in the value of `define_mask`.
    pub mask_single_bit: Option<Vec<String>>,
    pub define_shift: Option<Vec<String>>,
    pub skip: bool,
    /// The line is empty.
    pub empty: bool,
}

pub struct LineFactsV {
    pub directive: bool,
    pub reg_def: Option<Seq<Seq<char>>>,
    pub reg_def_index: Option<Seq<Seq<char>>>,
    pub reg_def_offset: Option<Seq<Seq<char>>>,
    pub define_mask: Option<Seq<Seq<char>>>,
    pub mask_single_bit: Option<Seq<Seq<char>>>,
    pub define_shift: Option<Seq<Seq<char>>>,
    pub skip: bool,
    pub empty: bool,
}

pub open spec fn groups_view(o: Option<Vec<String>>) -> Option<Seq<Seq<char>>> {
    match o {
        Some(v) => Some(strings_view(v@)),
        None => None,
    }
}

impl View for LineFacts {
    type V = LineFactsV;

    open spec fn view(&self) -> LineFactsV {
        LineFactsV {
            directive: self.directive,
            reg_def: groups_view(self.reg_def),
            reg_def_index: groups_view(self.reg_def_index),
            reg_def_offset: groups_view(self.reg_def_offset),
            define_mask: groups_view(self.define_mask),
            mask_single_bit: groups_view(self.mask_single_bit),
            define_shift: groups_view(self.define_shift),
            skip: self.skip,
            empty: self.empty,
        }
    }
}

/// The groups of a match that has at least `n` of them.
pub open spec fn has_groups(c: Option<Seq<Seq<char>>>, n: nat) -> bool {
    c is Some && c->0.len() >= n
}

/// What the patterns recognise on `line`.
pub open spec fn facts_of(line: Seq<char>) -> LineFactsV {
    let mask = regex_first(REG_DEFINE_MASK@, line);
    LineFactsV {
        directive: regex_first(REG_IFDEF@, line) is Some || regex_first(REG_ENDIF@, line) is Some,
        reg_def: regex_first(REG_DEF@, line),
        reg_def_index: regex_first(REG_DEF_INDEX@, line),
        reg_def_offset: regex_first(REG_DEF_OFFSET@, line),
        define_mask: mask,
        mask_single_bit: if has_groups(mask, 3) {
            regex_first(SINGLE_BIT@, strip_hex_prefix(mask->0[2]))
        } else {
            None
        },
        define_shift: regex_first(REG_DEFINE_SHIFT@, line),
        skip: regex_first(REG_DEFINE_SKIP@, line) is Some,
        empty: line.len() == 0,
    }
}

/// Applies every header pattern to `line`.
pub fn classify(line: &str) -> (r: LineFacts)
    ensures
        r@ == facts_of(line@),
{
    let mask = captures(REG_DEFINE_MASK, line);
    let single = match &mask {
        Some(c) => if c.len() >= 3 {
            captures(SINGLE_BIT, trim_hex_prefix(c[2].as_str()))
        } else {
            None
        },
        None => None,
    };
    LineFacts {
        directive: captures(REG_IFDEF, line).is_some() || captures(REG_ENDIF, line).is_some(),
        reg_def: captures(REG_DEF, line),
        reg_def_index: captures(REG_DEF_INDEX, line),
        reg_def_offset: captures(REG_DEF_OFFSET, line),
        define_mask: mask,
        mask_single_bit: single,
        define_shift: captures(REG_DEFINE_SHIFT, line),
        skip: captures(REG_DEFINE_SKIP, line).is_some(),
        empty: line.unicode_len() == 0,
    }
}

/// The scanner's state. All but the first carry the peripheral's name and the
/// register being accumulated.
pub enum State {
    FindReg,
    FindBitFieldMask(String, Register),
    FindBitFieldShift(String, Register, u32),
    FindBitFieldSkipShift(String, Register),
    AssumeFullRegister(String, Register),
    CheckEnd(String, Register),
    End(String, Register),
}

pub enum StateV {
    FindReg,
    FindBitFieldMask(Seq<char>, RegisterV),
    FindBitFieldShift(Seq<char>, RegisterV, u32),
    FindBitFieldSkipShift(Seq<char>, RegisterV),
    AssumeFullRegister(Seq<char>, RegisterV),
    CheckEnd(Seq<char>, RegisterV),
    End(Seq<char>, RegisterV),
}

impl View for State {
    type V = StateV;

    open spec fn view(&self) -> StateV {
        match self {
            State::FindReg => StateV::FindReg,
            State::FindBitFieldMask(p, r) => StateV::FindBitFieldMask(p@, r@),
            State::FindBitFieldShift(p, r, m) => StateV::FindBitFieldShift(p@, r@, *m),
            State::FindBitFieldSkipShift(p, r) => StateV::FindBitFieldSkipShift(p@, r@),
            State::AssumeFullRegister(p, r) => StateV::AssumeFullRegister(p@, r@),
            State::CheckEnd(p, r) => StateV::CheckEnd(p@, r@),
            State::End(p, r) => StateV::End(p@, r@),
        }
    }
}

/// What a step hands out besides the next state.
pub enum Emit {
    Nothing,
    /// A finished register for the named peripheral.
    Commit(String, Register),
    /// An indexed register definition, which is refused.
    Rejected(String),
    /// A field definition whose bits do not fit a 32-bit register, or whose
    /// shift cannot be read.
    RejectedField(String),
    /// A register whose offset cannot be read: the run must stop.
    Fatal(String),
}

pub enum EmitV {
    Nothing,
    Commit(Seq<char>, RegisterV),
    Rejected(Seq<char>),
    RejectedField(Seq<char>),
    Fatal(Seq<char>),
}

impl View for Emit {
    type V = EmitV;

    open spec fn view(&self) -> EmitV {
        match self {
            Emit::Nothing => EmitV::Nothing,
            Emit::Commit(p, r) => EmitV::Commit(p@, r@),
            Emit::Rejected(n) => EmitV::Rejected(n@),
            Emit::RejectedField(n) => EmitV::RejectedField(n@),
            Emit::Fatal(n) => EmitV::Fatal(n@),
        }
    }
}

/// The outcome of one step.
pub struct Step {
    pub next: State,
    /// The line is used up; otherwise it goes to `next` again.
    pub consumed: bool,
    pub emit: Emit,
    /// The step recognised a field or settled a register's layout.
    pub found: bool,
}

pub struct StepV {
    pub next: StateV,
    pub consumed: bool,
    pub emit: EmitV,
    pub found: bool,
}

impl View for Step {
    type V = StepV;

    open spec fn view(&self) -> StepV {
        StepV { next: self.next@, consumed: self.consumed, emit: self.emit@, found: self.found }
    }
}

pub open spec fn stepv(next: StateV, consumed: bool, emit: EmitV, found: bool) -> StepV {
    StepV { next, consumed, emit, found }
}

pub open spec fn full_register_name() -> Seq<char> {
    seq!['R', 'e', 'g', 'i', 's', 't', 'e', 'r']
}

/// The bits that a mask with `ones` set bits covers from bit `shift` on, when
/// they fit in a 32-bit register.
pub open spec fn shifted_bits(shift: nat, ones: nat) -> Option<Bits> {
    if ones == 0 || shift + ones > 32 {
        None
    } else if ones == 1 {
        Some(Bits::Single(shift as u8))
    } else {
        Some(Bits::Range(shift as u8, (shift + ones - 1) as u8))
    }
}

/// The register-definition forms tried while no register is open.
pub open spec fn find_reg_spec(f: LineFactsV) -> StepV {
    if has_groups(f.reg_def, 4) {
        let c = f.reg_def->0;
        let off = parse_bounded(strip_hex_prefix(c[3]), 16, 0xffff_ffff);
        if is_indexed_name(c[1]) {
            stepv(StateV::FindReg, true, EmitV::Rejected(c[1]), false)
        } else if off is None {
            stepv(StateV::FindReg, true, EmitV::Fatal(c[1]), false)
        } else {
            stepv(StateV::FindBitFieldMask(c[2], register_stub(c[1], off->0 as u32)), true, EmitV::Nothing, false)
        }
    } else if has_groups(f.reg_def_index, 2) {
        stepv(StateV::FindReg, true, EmitV::Rejected(f.reg_def_index->0[1]), false)
    } else if has_groups(f.reg_def_offset, 3) {
        let c = f.reg_def_offset->0;
        let off = parse_bounded(c[2], 16, 0xffff_ffff);
        if off is None {
            stepv(StateV::FindReg, true, EmitV::Fatal(c[1]), false)
        } else {
            stepv(
                StateV::FindBitFieldMask(first_token(c[1]), register_stub(c[1], off->0 as u32)),
                true,
                EmitV::Nothing,
                false,
            )
        }
    } else {
        stepv(StateV::FindReg, true, EmitV::Nothing, false)
    }
}

/// Looking for the first (or next) field of register `r` of peripheral `p`.
pub open spec fn find_mask_spec(p: Seq<char>, r: RegisterV, f: LineFactsV) -> StepV {
    if f.skip {
        stepv(StateV::FindBitFieldMask(p, r), true, EmitV::Nothing, false)
    } else if f.reg_def_offset is Some {
        stepv(StateV::AssumeFullRegister(p, r), false, EmitV::Nothing, false)
    } else if has_groups(f.define_mask, 3) {
        let c = f.define_mask->0;
        if has_groups(f.mask_single_bit, 2) {
            let b = parse_bounded(f.mask_single_bit->0[1], 10, 31);
            if b is Some {
                let fld = plain_field(c[1], Bits::Single(b->0 as u8));
                stepv(StateV::FindBitFieldSkipShift(p, with_field(r, fld)), true, EmitV::Nothing, true)
            } else {
                stepv(StateV::FindReg, true, EmitV::RejectedField(c[1]), true)
            }
        } else {
            let m = parse_bounded(strip_hex_prefix(c[2]), 16, 0xffff_ffff);
            if m is Some {
                stepv(StateV::FindBitFieldShift(p, r, m->0 as u32), true, EmitV::Nothing, true)
            } else {
                stepv(StateV::FindBitFieldMask(p, r), true, EmitV::Nothing, true)
            }
        }
    } else if r.bit_fields.len() == 0 {
        stepv(StateV::AssumeFullRegister(p, r), false, EmitV::Nothing, false)
    } else {
        stepv(StateV::End(p, r), true, EmitV::Nothing, false)
    }
}

/// Looking for the shift that goes with mask `m`.
pub open spec fn find_shift_spec(p: Seq<char>, r: RegisterV, m: u32, f: LineFactsV) -> StepV {
    if f.skip {
        stepv(StateV::FindBitFieldShift(p, r, m), true, EmitV::Nothing, false)
    } else if has_groups(f.define_shift, 3) {
        let c = f.define_shift->0;
        let sh = parse_bounded(c[2], 10, 255);
        let bits = if sh is Some { shifted_bits(sh->0, popcount(m as nat)) } else { None };
        if bits is Some {
            let fld = plain_field(c[1], bits->0);
            stepv(StateV::CheckEnd(p, with_field(r, fld)), true, EmitV::Nothing, false)
        } else {
            stepv(StateV::FindBitFieldShift(p, r, m), true, EmitV::RejectedField(c[1]), false)
        }
    } else if r.bit_fields.len() == 0 {
        stepv(StateV::AssumeFullRegister(p, r), false, EmitV::Nothing, false)
    } else {
        stepv(StateV::End(p, r), true, EmitV::Nothing, false)
    }
}

/// One transition of the scanner on a line.
pub open spec fn step_spec(s: StateV, f: LineFactsV) -> StepV {
    match s {
        StateV::FindReg => find_reg_spec(f),
        StateV::FindBitFieldMask(p, r) => find_mask_spec(p, r, f),
        StateV::FindBitFieldShift(p, r, m) => find_shift_spec(p, r, m, f),
        StateV::FindBitFieldSkipShift(p, r) => stepv(
            StateV::CheckEnd(p, r),
            f.define_shift is Some,
            EmitV::Nothing,
            false,
        ),
        StateV::CheckEnd(p, r) => if f.empty {
            stepv(StateV::End(p, r), true, EmitV::Nothing, false)
        } else if f.define_mask is Some {
            stepv(StateV::FindBitFieldMask(p, r), false, EmitV::Nothing, false)
        } else {
            stepv(StateV::CheckEnd(p, r), true, EmitV::Nothing, false)
        },
        StateV::AssumeFullRegister(p, r) => stepv(
            StateV::FindReg,
            false,
            EmitV::Commit(p, with_field(r, plain_field(full_register_name(), Bits::Range(0, 31)))),
            true,
        ),
        StateV::End(p, r) => stepv(StateV::FindReg, false, EmitV::Commit(p, r), false),
    }
}

/// A measure that every step which keeps the line lowers.
pub open spec fn rank(s: StateV) -> nat {
    match s {
        StateV::FindReg => 0,
        StateV::AssumeFullRegister(..) => 1,
        StateV::End(..) => 1,
        StateV::FindBitFieldMask(..) => 2,
        StateV::FindBitFieldShift(..) => 2,
        StateV::CheckEnd(..) => 3,
        StateV::FindBitFieldSkipShift(..) => 4,
    }
}

fn group(c: &Vec<String>, i: usize) -> (r: &str)
    requires
        i < c@.len(),
    ensures
        r@ == c@[i as int]@,
{
    c[i].as_str()
}

fn step_find_reg(f: &LineFacts) -> (r: Step)
    ensures
        r@ == find_reg_spec(f@),
{
    if let Some(c) = &f.reg_def {
        if c.len() >= 4 {
            let name = group(c, 1);
            if ends_with_index(name) {
                return Step { next: State::FindReg, consumed: true, emit: Emit::Rejected(name.to_owned()), found: false };
            }
            match parse_radix(trim_hex_prefix(group(c, 3)), 16, 0xffff_ffff) {
                Some(a) => {
                    return Step {
                        next: State::FindBitFieldMask(group(c, 2).to_owned(), Register::stub(name, a)),
                        consumed: true,
                        emit: Emit::Nothing,
                        found: false,
                    };
                },
                None => {
                    return Step { next: State::FindReg, consumed: true, emit: Emit::Fatal(name.to_owned()), found: false };
                },
            }
        }
    }
    if let Some(c) = &f.reg_def_index {
        if c.len() >= 2 {
            return Step { next: State::FindReg, consumed: true, emit: Emit::Rejected(group(c, 1).to_owned()), found: false };
        }
    }
    if let Some(c) = &f.reg_def_offset {
        if c.len() >= 3 {
            let name = group(c, 1);
            match parse_radix(group(c, 2), 16, 0xffff_ffff) {
                Some(a) => {
                    return Step {
                        next: State::FindBitFieldMask(first_token_of(name).to_owned(), Register::stub(name, a)),
                        consumed: true,
                        emit: Emit::Nothing,
                        found: false,
                    };
                },
                None => {
                    return Step { next: State::FindReg, consumed: true, emit: Emit::Fatal(name.to_owned()), found: false };
                },
            }
        }
    }
    Step { next: State::FindReg, consumed: true, emit: Emit::Nothing, found: false }
}

fn step_find_mask(p: String, mut r: Register, f: &LineFacts) -> (out: Step)
    ensures
        out@ == find_mask_spec(p@, r@, f@),
{
    if f.skip {
        return Step { next: State::FindBitFieldMask(p, r), consumed: true, emit: Emit::Nothing, found: false };
    }
    if f.reg_def_offset.is_some() {
        return Step { next: State::AssumeFullRegister(p, r), consumed: false, emit: Emit::Nothing, found: false };
    }
    if let Some(c) = &f.define_mask {
        if c.len() >= 3 {
            if let Some(b) = &f.mask_single_bit {
                if b.len() >= 2 {
                    match parse_radix(group(b, 1), 10, 31) {
                        Some(bit) => {
                            r.push_field(BitField::plain(group(c, 1).to_owned(), Bits::Single(bit as u8)));
                            return Step {
                                next: State::FindBitFieldSkipShift(p, r),
                                consumed: true,
                                emit: Emit::Nothing,
                                found: true,
                            };
                        },
                        None => {
                            return Step {
                                next: State::FindReg,
                                consumed: true,
                                emit: Emit::RejectedField(group(c, 1).to_owned()),
                                found: true,
                            };
                        },
                    }
                }
            }
            match parse_radix(trim_hex_prefix(group(c, 2)), 16, 0xffff_ffff) {
                Some(m) => {
                    return Step { next: State::FindBitFieldShift(p, r, m), consumed: true, emit: Emit::Nothing, found: true };
                },
                None => {
                    return Step { next: State::FindBitFieldMask(p, r), consumed: true, emit: Emit::Nothing, found: true };
                },
            }
        }
    }
    if r.bit_fields.len() == 0 {
        Step { next: State::AssumeFullRegister(p, r), consumed: false, emit: Emit::Nothing, found: false }
    } else {
        Step { next: State::End(p, r), consumed: true, emit: Emit::Nothing, found: false }
    }
}

fn step_find_shift(p: String, mut r: Register, m: u32, f: &LineFacts) -> (out: Step)
    ensures
        out@ == find_shift_spec(p@, r@, m, f@),
{
    if f.skip {
        return Step { next: State::FindBitFieldShift(p, r, m), consumed: true, emit: Emit::Nothing, found: false };
    }
    if let Some(c) = &f.define_shift {
        if c.len() >= 3 {
            let ones = count_ones(m);
            let bits = match parse_radix(group(c, 2), 10, 255) {
                Some(sh) => if ones == 0 || ones > 32 || sh > 32 - ones {
                    None
                } else if ones == 1 {
                    Some(Bits::Single(sh as u8))
                } else {
                    Some(Bits::Range(sh as u8, (sh + ones - 1) as u8))
                },
                None => None,
            };
            match bits {
                Some(b) => {
                    r.push_field(BitField::plain(group(c, 1).to_owned(), b));
                    return Step { next: State::CheckEnd(p, r), consumed: true, emit: Emit::Nothing, found: false };
                },
                None => {
                    return Step {
                        next: State::FindBitFieldShift(p, r, m),
                        consumed: true,
                        emit: Emit::RejectedField(group(c, 1).to_owned()),
                        found: false,
                    };
                },
            }
        }
    }
    if r.bit_fields.len() == 0 {
        Step { next: State::AssumeFullRegister(p, r), consumed: false, emit: Emit::Nothing, found: false }
    } else {
        Step { next: State::End(p, r), consumed: true, emit: Emit::Nothing, found: false }
    }
}

/// One transition of the scanner: the next state, whether the line is used up,
/// and what is handed out.
pub fn step(s: State, f: &LineFacts) -> (r: Step)
    ensures
        r@ == step_spec(s@, f@),
        !r.consumed ==> rank(r.next@) < rank(s@),
{
    match s {
        State::FindReg => step_find_reg(f),
        State::FindBitFieldMask(p, r) => step_find_mask(p, r, f),
        State::FindBitFieldShift(p, r, m) => step_find_shift(p, r, m, f),
        State::FindBitFieldSkipShift(p, r) => Step {
            next: State::CheckEnd(p, r),
            consumed: f.define_shift.is_some(),
            emit: Emit::Nothing,
            found: false,
        },
        State::CheckEnd(p, r) => if f.empty {
            Step { next: State::End(p, r), consumed: true, emit: Emit::Nothing, found: false }
        } else if f.define_mask.is_some() {
            Step { next: State::FindBitFieldMask(p, r), consumed: false, emit: Emit::Nothing, found: false }
        } else {
            Step { next: State::CheckEnd(p, r), consumed: true, emit: Emit::Nothing, found: false }
        },
        State::AssumeFullRegister(p, mut r) => {
            let name = "Register".to_owned();
            proof {
                reveal_strlit("Register");
                assert(name@ =~= full_register_name());
            }
            r.push_field(BitField::plain(name, Bits::Range(0, 31)));
            Step { next: State::FindReg, consumed: false, emit: Emit::Commit(p, r), found: true }
        },
        State::End(p, r) => Step { next: State::FindReg, consumed: false, emit: Emit::Commit(p, r), found: false },
    }
}

} // verus!
