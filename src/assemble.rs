//! Turns the final registry into ordered, normalised peripheral descriptors.

use vstd::prelude::*;
use crate::model::{BitField, BitFieldV, Bits, Peripheral, PeripheralV, Register, RegisterV};
use crate::registry::{Entries, Registry, sorted};
use crate::text::{blank, is_blank};

verus! {

/// A field as offset and width.
pub struct FieldDescriptor {
    pub name: String,
    pub description: Option<String>,
    pub offset: u32,
    pub width: u32,
}

pub struct FieldDescriptorV {
    pub name: Seq<char>,
    pub description: Option<Seq<char>>,
    pub offset: u32,
    pub width: u32,
}

impl View for FieldDescriptor {
    type V = FieldDescriptorV;

    open spec fn view(&self) -> FieldDescriptorV {
        FieldDescriptorV {
            name: self.name@,
            description: match self.description {
                Some(d) => Some(d@),
                None => None,
            },
            offset: self.offset,
            width: self.width,
        }
    }
}

/// A register with its size fixed at 32 bits.
pub struct RegisterDescriptor {
    pub name: String,
    pub description: String,
    pub address_offset: u32,
    pub size: u32,
    pub reset_value: u32,
    pub fields: Vec<FieldDescriptor>,
}

pub struct RegisterDescriptorV {
    pub name: Seq<char>,
    pub description: Seq<char>,
    pub address_offset: u32,
    pub size: u32,
    pub reset_value: u32,
    pub fields: Seq<FieldDescriptorV>,
}

impl View for RegisterDescriptor {
    type V = RegisterDescriptorV;

    open spec fn view(&self) -> RegisterDescriptorV {
        RegisterDescriptorV {
            name: self.name@,
            description: self.description@,
            address_offset: self.address_offset,
            size: self.size,
            reset_value: self.reset_value,
            fields: self.fields@.map_values(|f: FieldDescriptor| f@),
        }
    }
}

/// A peripheral with its address block, which starts at offset 0.
pub struct PeripheralDescriptor {
    pub name: String,
    pub base_address: u32,
    pub block_offset: u32,
    pub block_size: u32,
    pub registers: Vec<RegisterDescriptor>,
}

pub struct PeripheralDescriptorV {
    pub name: Seq<char>,
    pub base_address: u32,
    pub block_offset: u32,
    pub block_size: u32,
    pub registers: Seq<RegisterDescriptorV>,
}

impl View for PeripheralDescriptor {
    type V = PeripheralDescriptorV;

    open spec fn view(&self) -> PeripheralDescriptorV {
        PeripheralDescriptorV {
            name: self.name@,
            base_address: self.base_address,
            block_offset: self.block_offset,
            block_size: self.block_size,
            registers: self.registers@.map_values(|r: RegisterDescriptor| r@),
        }
    }
}

/// Every field's bits are well formed.
pub open spec fn fields_wf(p: PeripheralV) -> bool {
    forall|i: int, j: int|
        0 <= i < p.registers.len() && 0 <= j < p.registers[i].bit_fields.len()
            ==> (#[trigger] p.registers[i].bit_fields[j]).bits.wf()
}

/// The registry can be assembled: every field is well formed and every block
/// size fits 32 bits.
pub open spec fn assemblable(v: Entries) -> bool {
    forall|i: int| 0 <= i < v.len() ==> fields_wf(#[trigger] v[i].1) && v[i].1.registers.len() * 32 <= 0xffff_ffff
}

/// A single bit `b` is the range at `b` of width 1; an inclusive range `[s, e]`
/// starts at `s` and is `e - s + 1` wide.
pub open spec fn field_spec(f: BitFieldV) -> FieldDescriptorV {
    let (offset, width) = match f.bits {
        Bits::Single(b) => (b as u32, 1u32),
        Bits::Range(s, e) => (s as u32, (e - s + 1) as u32),
    };
    FieldDescriptorV {
        name: f.name,
        description: if is_blank(f.description) { None } else { Some(f.description) },
        offset,
        width,
    }
}

pub open spec fn register_spec(r: RegisterV) -> RegisterDescriptorV {
    RegisterDescriptorV {
        name: r.name,
        description: r.description,
        address_offset: r.address,
        size: 32,
        reset_value: r.reset_value as u32,
        fields: r.bit_fields.map_values(|f: BitFieldV| field_spec(f)),
    }
}

/// The block size is the flat sum of the register widths, 32 each.
pub open spec fn peripheral_spec(name: Seq<char>, p: PeripheralV) -> PeripheralDescriptorV {
    PeripheralDescriptorV {
        name,
        base_address: p.address,
        block_offset: 0,
        block_size: (p.registers.len() * 32) as u32,
        registers: p.registers.map_values(|r: RegisterV| register_spec(r)),
    }
}

/// The descriptors of all peripherals, in name order.
pub open spec fn assemble_spec(v: Entries) -> Seq<PeripheralDescriptorV> {
    v.map_values(|e: (Seq<char>, PeripheralV)| peripheral_spec(e.0, e.1))
}

fn assemble_field(f: BitField) -> (r: FieldDescriptor)
    requires
        f.bits.wf(),
    ensures
        r@ == field_spec(f@),
{
    let (offset, width) = match f.bits {
        Bits::Single(b) => (b as u32, 1u32),
        Bits::Range(s, e) => (s as u32, (e - s + 1) as u32),
    };
    let description = if blank(f.description.as_str()) { None } else { Some(f.description) };
    FieldDescriptor { name: f.name, description, offset, width }
}

fn assemble_register(r: Register) -> (out: RegisterDescriptor)
    requires
        forall|j: int| 0 <= j < r@.bit_fields.len() ==> (#[trigger] r@.bit_fields[j]).bits.wf(),
    ensures
        out@ == register_spec(r@),
{
    let ghost fs = r@.bit_fields;
    let Register { name, address, width: _, description, reset_value, detailed_description: _, bit_fields } = r;
    let mut fields: Vec<FieldDescriptor> = Vec::new();
    let mut rest = bit_fields;
    let n = rest.len();
    let ghost orig = rest@;
    let mut i: usize = 0;
    while i < n
        invariant
            i <= n,
            n == orig.len(),
            fs == orig.map_values(|f: BitField| f@),
            forall|j: int| 0 <= j < fs.len() ==> (#[trigger] fs[j]).bits.wf(),
            rest@ == orig.subrange(i as int, n as int),
            fields@.map_values(|f: FieldDescriptor| f@) == fs.take(i as int).map_values(|f: BitFieldV| field_spec(f)),
        decreases n - i,
    {
        let f = rest.remove(0);
        assert(fs[i as int] == f@);
        let ghost prev = fields@.map_values(|f: FieldDescriptor| f@);
        let d = assemble_field(f);
        let ghost dv = d@;
        fields.push(d);
        assert(fields@.map_values(|f: FieldDescriptor| f@) =~= prev.push(dv));
        assert(fs.take(i + 1).map_values(|f: BitFieldV| field_spec(f)) =~= fs.take(i as int).map_values(|f: BitFieldV| field_spec(f)).push(field_spec(fs[i as int])));
        i = i + 1;
    }
    assert(fs.take(n as int) =~= fs);
    RegisterDescriptor { name, description, address_offset: address, size: 32, reset_value: #[verifier::truncate] (reset_value as u32), fields }
}

fn assemble_peripheral(name: String, p: Peripheral) -> (out: PeripheralDescriptor)
    requires
        fields_wf(p@),
        p@.registers.len() * 32 <= 0xffff_ffff,
    ensures
        out@ == peripheral_spec(name@, p@),
{
    let ghost rs = p@.registers;
    let Peripheral { description: _, address, registers } = p;
    let mut out: Vec<RegisterDescriptor> = Vec::new();
    let mut rest = registers;
    let n = rest.len();
    let ghost orig = rest@;
    let mut i: usize = 0;
    while i < n
        invariant
            i <= n,
            n == orig.len(),
            rs == orig.map_values(|r: Register| r@),
            forall|a: int, b: int|
                0 <= a < rs.len() && 0 <= b < rs[a].bit_fields.len() ==> (#[trigger] rs[a].bit_fields[b]).bits.wf(),
            rest@ == orig.subrange(i as int, n as int),
            out@.map_values(|r: RegisterDescriptor| r@) == rs.take(i as int).map_values(|r: RegisterV| register_spec(r)),
        decreases n - i,
    {
        let r = rest.remove(0);
        assert(rs[i as int] == r@);
        let ghost prev = out@.map_values(|r: RegisterDescriptor| r@);
        let d = assemble_register(r);
        let ghost dv = d@;
        out.push(d);
        assert(out@.map_values(|r: RegisterDescriptor| r@) =~= prev.push(dv));
        assert(rs.take(i + 1).map_values(|r: RegisterV| register_spec(r)) =~= rs.take(i as int).map_values(|r: RegisterV| register_spec(r)).push(register_spec(rs[i as int])));
        i = i + 1;
    }
    assert(rs.take(n as int) =~= rs);
    let size = (n as u32) * 32;
    PeripheralDescriptor { name, base_address: address, block_offset: 0, block_size: size, registers: out }
}

/// Assembles every peripheral of the registry, in name order.
pub fn assemble(registry: Registry) -> (r: Vec<PeripheralDescriptor>)
    requires
        registry.wf(),
        assemblable(registry@),
    ensures
        r@.map_values(|d: PeripheralDescriptor| d@) == assemble_spec(registry@),
        forall|i: int, j: int| 0 <= i < j < r@.len() ==> crate::text::lex_lt(#[trigger] r@[i]@.name, #[trigger] r@[j]@.name),
{
    let ghost v = registry@;
    let Registry { entries } = registry;
    let mut rest = entries;
    let n = rest.len();
    let ghost orig = rest@;
    let mut out: Vec<PeripheralDescriptor> = Vec::new();
    let mut i: usize = 0;
    while i < n
        invariant
            i <= n,
            n == orig.len(),
            v == orig.map_values(|e: (String, Peripheral)| (e.0@, e.1@)),
            assemblable(v),
            rest@ == orig.subrange(i as int, n as int),
            out@.map_values(|d: PeripheralDescriptor| d@) == assemble_spec(v.take(i as int)),
        decreases n - i,
    {
        let (name, p) = rest.remove(0);
        assert(v[i as int] == (name@, p@));
        assert(fields_wf(v[i as int].1));
        let ghost prev = out@.map_values(|d: PeripheralDescriptor| d@);
        let d = assemble_peripheral(name, p);
        let ghost dv = d@;
        out.push(d);
        assert(out@.map_values(|d: PeripheralDescriptor| d@) =~= prev.push(dv));
        assert(assemble_spec(v.take(i + 1)) =~= assemble_spec(v.take(i as int)).push(peripheral_spec(v[i as int].0, v[i as int].1)));
        i = i + 1;
    }
    assert(v.take(n as int) =~= v);
    proof {
        assert forall|a: int, b: int| 0 <= a < b < out@.len() implies crate::text::lex_lt(#[trigger] out@[a]@.name, #[trigger] out@[b]@.name) by {
            assert(out@[a]@ == out@.map_values(|d: PeripheralDescriptor| d@)[a]);
            assert(out@[b]@ == out@.map_values(|d: PeripheralDescriptor| d@)[b]);
            assert(sorted(v));
            assert(lex_lt_pair(v, a, b));
        }
    }
    out
}

spec fn lex_lt_pair(v: Entries, a: int, b: int) -> bool {
    crate::text::lex_lt(v[a].0, v[b].0)
}

/// Assembly depends on the registry's contents alone: two registries that hold
/// the same entries in the same order give the same descriptors.
pub proof fn assemble_deterministic(a: Entries, b: Entries)
    requires
        a == b,
    ensures
        assemble_spec(a) == assemble_spec(b),
{
}

} // verus!
