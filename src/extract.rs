//! Whole-file extraction: normalisation, base addresses, the scanner run over
//! every line, and interrupt sources.

use vstd::prelude::*;
use crate::model::{BitFieldV, Bits, Interrupt, PeripheralV, Register, RegisterV, plain_field, register_stub, with_field};
use crate::assemble::fields_wf;
use crate::foreign::{captures_all, lines_of, occurs, regex_all, replace_all, replaced, split_lines, strings_view};
use crate::registry::{Entries, Registry, fresh_peripheral, lookup, with_register};
use crate::scan::{
    full_register_name, has_groups, shifted_bits, stepv, EmitV, Emit, LineFacts, LineFactsV, REG_BASE, State, StateV, classify, facts_of, rank, step, step_spec,
};
use crate::text::{parse_bounded, parse_radix, popcount};

verus! {

/// Interrupt source constants: name, number, description.
pub const INTERRUPTS: &'static str = r"\#define[\s]ETS_([0-9A-Za-z_/]+)_SOURCE[\s]+([0-9]+)/\*\*<\s([0-9A-Za-z_/\s,]+)\*/";

/// What the scanner hands out over one file.
pub struct Scan {
    /// Finished registers with the name of their peripheral, in order.
    pub commits: Vec<(String, Register)>,
    /// Refused (indexed) register definitions.
    pub rejected: Vec<String>,
    /// Refused field definitions.
    pub rejected_fields: Vec<String>,
    /// The first register whose offset could not be read, if any.
    pub fatal: Option<String>,
    /// Some field or register layout was recognised.
    pub found: bool,
}

pub struct ScanV {
    pub commits: Seq<(Seq<char>, RegisterV)>,
    pub rejected: Seq<Seq<char>>,
    pub rejected_fields: Seq<Seq<char>>,
    pub fatal: Option<Seq<char>>,
    pub found: bool,
}

impl View for Scan {
    type V = ScanV;

    open spec fn view(&self) -> ScanV {
        ScanV {
            commits: self.commits@.map_values(|c: (String, Register)| (c.0@, c.1@)),
            rejected: strings_view(self.rejected@),
            rejected_fields: strings_view(self.rejected_fields@),
            fatal: match self.fatal {
                Some(n) => Some(n@),
                None => None,
            },
            found: self.found,
        }
    }
}

pub open spec fn empty_scan() -> ScanV {
    ScanV { commits: Seq::empty(), rejected: Seq::empty(), rejected_fields: Seq::empty(), fatal: None, found: false }
}

/// `a` with what one step handed out added.
pub open spec fn absorb(a: ScanV, e: EmitV, found: bool) -> ScanV {
    let a2 = ScanV { found: a.found || found, ..a };
    match e {
        EmitV::Nothing => a2,
        EmitV::Commit(p, r) => ScanV { commits: a2.commits.push((p, r)), ..a2 },
        EmitV::Rejected(n) => ScanV { rejected: a2.rejected.push(n), ..a2 },
        EmitV::RejectedField(n) => ScanV { rejected_fields: a2.rejected_fields.push(n), ..a2 },
        EmitV::Fatal(n) => if a2.fatal is None {
            ScanV { fatal: Some(n), ..a2 }
        } else {
            a2
        },
    }
}

/// Steps on one line until a step uses it up.
pub open spec fn line_spec(s: StateV, f: LineFactsV, a: ScanV) -> (StateV, ScanV)
    decreases rank(s),
{
    let st = step_spec(s, f);
    let a2 = absorb(a, st.emit, st.found);
    if !st.consumed && rank(st.next) < rank(s) {
        line_spec(st.next, f, a2)
    } else {
        (st.next, a2)
    }
}

/// The scanner run over lines from the start state; directive lines are passed over.
pub open spec fn scan_spec(fs: Seq<LineFactsV>) -> (StateV, ScanV)
    decreases fs.len(),
{
    if fs.len() == 0 {
        (StateV::FindReg, empty_scan())
    } else {
        let prev = scan_spec(fs.drop_last());
        if fs.last().directive {
            prev
        } else {
            line_spec(prev.0, fs.last(), prev.1)
        }
    }
}

impl Scan {
    pub fn new() -> (r: Scan)
        ensures
            r@ == empty_scan(),
    {
        let r = Scan { commits: Vec::new(), rejected: Vec::new(), rejected_fields: Vec::new(), fatal: None, found: false };
        assert(r@.commits =~= Seq::<(Seq<char>, RegisterV)>::empty());
        assert(r@.rejected =~= Seq::<Seq<char>>::empty());
        assert(r@.rejected_fields =~= Seq::<Seq<char>>::empty());
        r
    }

    fn absorb(&mut self, e: Emit, found: bool)
        ensures
            final(self)@ == absorb(old(self)@, e@, found),
    {
        self.found = self.found || found;
        match e {
            Emit::Nothing => {},
            Emit::Commit(p, r) => {
                let ghost o = self.commits@;
                let ghost pv = p@;
                let ghost rv = r@;
                self.commits.push((p, r));
                assert(self@.commits =~= old(self)@.commits.push((pv, rv)));
            },
            Emit::Rejected(n) => {
                let ghost nv = n@;
                self.rejected.push(n);
                assert(self@.rejected =~= old(self)@.rejected.push(nv));
            },
            Emit::RejectedField(n) => {
                let ghost nv = n@;
                self.rejected_fields.push(n);
                assert(self@.rejected_fields =~= old(self)@.rejected_fields.push(nv));
            },
            Emit::Fatal(n) => {
                if self.fatal.is_none() {
                    self.fatal = Some(n);
                }
            },
        }
    }
}

/// Runs the scanner on one line from state `s`, re-offering the line until a
/// step uses it up.
pub fn scan_line(s0: State, f: &LineFacts, acc: &mut Scan) -> (r: State)
    ensures
        (r@, final(acc)@) == line_spec(s0@, f@, old(acc)@),
{
    let mut s = s0;
    let ghost start = line_spec(s0@, f@, acc@);
    loop
        invariant
            line_spec(s@, f@, acc@) == start,
            start == line_spec(s0@, f@, old(acc)@),
        decreases rank(s@),
    {
        let ghost sv = s@;
        let ghost av = acc@;
        let st = step(s, f);
        acc.absorb(st.emit, st.found);
        if st.consumed {
            assert(line_spec(sv, f@, av) == (st.next@, acc@));
            return st.next;
        }
        s = st.next;
    }
}

pub open spec fn facts_view(v: Seq<LineFacts>) -> Seq<LineFactsV> {
    v.map_values(|f: LineFacts| f@)
}

/// Runs the scanner over the lines of a file.
pub fn scan_lines(lines: &Vec<LineFacts>) -> (r: Scan)
    ensures
        r@ == scan_spec(facts_view(lines@)).1,
{
    let mut acc = Scan::new();
    let mut s = State::FindReg;
    let mut i: usize = 0;
    while i < lines.len()
        invariant
            i <= lines@.len(),
            (s@, acc@) == scan_spec(facts_view(lines@).take(i as int)),
        decreases lines@.len() - i,
    {
        let ghost fs = facts_view(lines@);
        assert(fs.take(i + 1).drop_last() =~= fs.take(i as int));
        let f = &lines[i];
        if !f.directive {
            s = scan_line(s, f, &mut acc);
        }
        i = i + 1;
    }
    assert(facts_view(lines@).take(lines@.len() as int) =~= facts_view(lines@));
    acc
}

/// The registry as a map from name to peripheral.
pub open spec fn reg_map(v: Entries) -> Map<Seq<char>, PeripheralV> {
    Map::new(|k: Seq<char>| lookup(v, k) is Some, |k: Seq<char>| lookup(v, k)->0)
}

/// Registers added to their peripherals in order; those of an unknown
/// peripheral are left out and the peripheral's name is listed.
pub open spec fn commit_spec(m: Map<Seq<char>, PeripheralV>, cs: Seq<(Seq<char>, RegisterV)>) -> (Map<Seq<char>, PeripheralV>, Seq<Seq<char>>)
    decreases cs.len(),
{
    if cs.len() == 0 {
        (m, Seq::empty())
    } else {
        let prev = commit_spec(m, cs.drop_last());
        let (p, r) = cs.last();
        if prev.0.contains_key(p) {
            (prev.0.insert(p, with_register(prev.0[p], r)), prev.1)
        } else {
            (prev.0, prev.1.push(p))
        }
    }
}

/// What a run leaves beside the registry. Nothing here stops a run.
pub struct Report {
    /// Files from which nothing was recognised.
    pub empty_files: Vec<String>,
    /// Peripherals named by a register but never given a base address.
    pub unresolved_peripherals: Vec<String>,
    /// Indexed register definitions, which are refused.
    pub rejected_registers: Vec<String>,
    /// Field definitions whose bits do not fit a 32-bit register, or whose
    /// shift cannot be read.
    pub rejected_fields: Vec<String>,
}

pub struct ReportV {
    pub empty_files: Seq<Seq<char>>,
    pub unresolved_peripherals: Seq<Seq<char>>,
    pub rejected_registers: Seq<Seq<char>>,
    pub rejected_fields: Seq<Seq<char>>,
}

impl View for Report {
    type V = ReportV;

    open spec fn view(&self) -> ReportV {
        ReportV {
            empty_files: strings_view(self.empty_files@),
            unresolved_peripherals: strings_view(self.unresolved_peripherals@),
            rejected_registers: strings_view(self.rejected_registers@),
            rejected_fields: strings_view(self.rejected_fields@),
        }
    }
}

impl Report {
    pub fn new() -> (r: Report)
        ensures
            r@.empty_files.len() == 0,
            r@.unresolved_peripherals.len() == 0,
            r@.rejected_registers.len() == 0,
            r@.rejected_fields.len() == 0,
    {
        Report {
            empty_files: Vec::new(),
            unresolved_peripherals: Vec::new(),
            rejected_registers: Vec::new(),
            rejected_fields: Vec::new(),
        }
    }
}

fn push_name(v: &mut Vec<String>, s: String)
    ensures
        strings_view(final(v)@) == strings_view(old(v)@).push(s@),
{
    let ghost sv = s@;
    v.push(s);
    assert(strings_view(v@) =~= strings_view(old(v)@).push(sv));
}

/// Adds each finished register to its peripheral; the names of peripherals that
/// are not registered go to `unresolved`.
pub fn commit_all(registry: &mut Registry, commits: Vec<(String, Register)>, unresolved: &mut Vec<String>)
    requires
        old(registry).wf(),
    ensures
        final(registry).wf(),
        reg_map(final(registry)@) == commit_spec(
            reg_map(old(registry)@),
            commits@.map_values(|c: (String, Register)| (c.0@, c.1@)),
        ).0,
        strings_view(final(unresolved)@) == strings_view(old(unresolved)@) + commit_spec(
            reg_map(old(registry)@),
            commits@.map_values(|c: (String, Register)| (c.0@, c.1@)),
        ).1,
{
    let ghost cs = commits@.map_values(|c: (String, Register)| (c.0@, c.1@));
    let ghost m0 = reg_map(registry@);
    let ghost u0 = strings_view(unresolved@);
    let mut commits = commits;
    let n = commits.len();
    let mut i: usize = 0;
    let ghost orig = commits@;
    assert(commit_spec(m0, cs.take(0)).1 =~= Seq::<Seq<char>>::empty());
    assert(u0 + Seq::<Seq<char>>::empty() =~= u0);
    while i < n
        invariant
            i <= n,
            n == orig.len(),
            cs == orig.map_values(|c: (String, Register)| (c.0@, c.1@)),
            commits@ == orig.subrange(i as int, n as int),
            registry.wf(),
            reg_map(registry@) == commit_spec(m0, cs.take(i as int)).0,
            strings_view(unresolved@) == u0 + commit_spec(m0, cs.take(i as int)).1,
        decreases n - i,
    {
        let (p, r) = commits.remove(0);
        assert(cs.take(i + 1).drop_last() =~= cs.take(i as int));
        assert(cs.take(i + 1).last() == (p@, r@));
        let ghost before = registry@;
        let ghost pv = p@;
        let ghost rv = r@;
        let found = registry.push_register(p.as_str(), r);
        if found {
            assert(reg_map(registry@) =~= reg_map(before).insert(pv, with_register(reg_map(before)[pv], rv)));
        } else {
            assert(reg_map(registry@) =~= reg_map(before));
            push_name(unresolved, p);
            assert(u0 + commit_spec(m0, cs.take(i as int)).1.push(pv) =~= u0 + commit_spec(m0, cs.take(i + 1)).1);
        }
        i = i + 1;
    }
    assert(cs.take(n as int) =~= cs);
}

/// A fatal fault in the input: the run stops.
#[derive(Debug)]
pub enum HeaderError {
    /// A base-address definition whose hexadecimal literal does not fit 32 bits.
    BadBaseAddress(String),
    /// An interrupt source whose number does not fit 32 bits.
    BadInterruptNumber(String),
    /// A register, named here, whose offset is not a 32-bit hexadecimal number.
    BadOffset(String),
}

/// The base-address definitions among the matches of `REG_BASE`, or `None` when
/// one of their addresses cannot be read.
pub open spec fn base_defs(ms: Seq<Seq<Seq<char>>>) -> Option<Seq<(Seq<char>, u32)>>
    decreases ms.len(),
{
    if ms.len() == 0 {
        Some(Seq::empty())
    } else {
        match base_defs(ms.drop_last()) {
            None => None,
            Some(prev) => {
                let c = ms.last();
                if c.len() < 3 {
                    Some(prev)
                } else {
                    match parse_bounded(c[2], 16, 0xffff_ffff) {
                        Some(a) => Some(prev.push((c[1], a as u32))),
                        None => None,
                    }
                }
            },
        }
    }
}

/// Base addresses seeded in order; a name that is registered keeps its entry.
pub open spec fn seed_spec(m: Map<Seq<char>, PeripheralV>, defs: Seq<(Seq<char>, u32)>) -> Map<Seq<char>, PeripheralV>
    decreases defs.len(),
{
    if defs.len() == 0 {
        m
    } else {
        let prev = seed_spec(m, defs.drop_last());
        let (n, a) = defs.last();
        if prev.contains_key(n) {
            prev
        } else {
            prev.insert(n, fresh_peripheral(n, a))
        }
    }
}

pub open spec fn base_matches(text: Seq<char>) -> Seq<Seq<Seq<char>>> {
    regex_all(REG_BASE@, text)
}

pub open spec fn matches_view(ms: Seq<Vec<String>>) -> Seq<Seq<Seq<char>>> {
    ms.map_values(|v: Vec<String>| strings_view(v@))
}

pub open spec fn defs_view(d: Seq<(String, u32)>) -> Seq<(Seq<char>, u32)> {
    d.map_values(|e: (String, u32)| (e.0@, e.1))
}

/// Reads the name and address of each base-address match (groups 1 and 2);
/// fails on the first address that does not fit 32 bits.
pub fn base_definitions(ms: &Vec<Vec<String>>) -> (r: Result<Vec<(String, u32)>, HeaderError>)
    ensures
        match r {
            Ok(d) => base_defs(matches_view(ms@)) == Some(defs_view(d@)),
            Err(e) => base_defs(matches_view(ms@)) is None && e is BadBaseAddress,
        },
{
    let ghost msv = matches_view(ms@);
    let mut defs: Vec<(String, u32)> = Vec::new();
    let mut i: usize = 0;
    assert(msv.take(0) =~= Seq::<Seq<Seq<char>>>::empty());
    assert(defs_view(defs@) =~= Seq::<(Seq<char>, u32)>::empty());
    while i < ms.len()
        invariant
            i <= ms@.len(),
            msv == matches_view(ms@),
            base_defs(msv.take(i as int)) == Some(defs_view(defs@)),
        decreases ms@.len() - i,
    {
        assert(msv.take(i + 1).drop_last() =~= msv.take(i as int));
        let c = &ms[i];
        if c.len() >= 3 {
            match parse_radix(c[2].as_str(), 16, 0xffff_ffff) {
                Some(a) => {
                    let ghost before = defs@;
                    let name = c[1].clone();
                    defs.push((name, a));
                    assert(defs_view(defs@) =~= defs_view(before).push((c@[1]@, a)));
                },
                None => {
                    proof { lemma_base_defs_none(msv, i as int + 1); }
                    return Err(HeaderError::BadBaseAddress(c[2].clone()));
                },
            }
        }
        i = i + 1;
    }
    assert(msv.take(msv.len() as int) =~= msv);
    Ok(defs)
}

/// Seeds each definition in order; the first definition of a name wins.
pub fn seed_all(registry: &mut Registry, defs: &Vec<(String, u32)>)
    requires
        old(registry).wf(),
    ensures
        final(registry).wf(),
        reg_map(final(registry)@) == seed_spec(reg_map(old(registry)@), defs_view(defs@)),
{
    let ghost dv = defs_view(defs@);
    let ghost m0 = reg_map(registry@);
    let mut j: usize = 0;
    while j < defs.len()
        invariant
            j <= defs@.len(),
            dv == defs_view(defs@),
            m0 == reg_map(old(registry)@),
            registry.wf(),
            reg_map(registry@) == seed_spec(m0, dv.take(j as int)),
        decreases defs@.len() - j,
    {
        assert(dv.take(j + 1).drop_last() =~= dv.take(j as int));
        let ghost before = registry@;
        registry.seed(defs[j].0.as_str(), defs[j].1);
        proof {
            let n = dv[j as int].0;
            if reg_map(before).contains_key(n) {
                assert(reg_map(registry@) =~= reg_map(before));
            } else {
                assert(reg_map(registry@) =~= reg_map(before).insert(n, fresh_peripheral(n, dv[j as int].1)));
            }
        }
        j = j + 1;
    }
    assert(dv.take(dv.len() as int) =~= dv);
}

/// Seeds the registry with every base-address definition in `text`; the first
/// definition of a name wins. Fails, changing nothing, when an address cannot
/// be read.
pub fn add_base_addr(text: &str, registry: &mut Registry) -> (r: Result<(), HeaderError>)
    requires
        old(registry).wf(),
    ensures
        final(registry).wf(),
        r is Err <==> base_defs(base_matches(text@)) is None,
        r is Err ==> final(registry)@ == old(registry)@,
        r is Ok ==> reg_map(final(registry)@) == seed_spec(reg_map(old(registry)@), base_defs(base_matches(text@))->0),
{
    let ms = captures_all(REG_BASE, text);
    match base_definitions(&ms) {
        Err(e) => Err(e),
        Ok(defs) => {
            seed_all(registry, &defs);
            Ok(())
        },
    }
}

proof fn lemma_base_defs_none(ms: Seq<Seq<Seq<char>>>, i: int)
    requires
        0 <= i <= ms.len(),
        base_defs(ms.take(i)) is None,
    ensures
        base_defs(ms) is None,
    decreases ms.len() - i,
{
    if i < ms.len() {
        assert(ms.take(i + 1).drop_last() =~= ms.take(i));
        lemma_base_defs_none(ms, i + 1);
    } else {
        assert(ms.take(i) =~= ms);
    }
}

/// The ordered literal substitutions that align the spellings of a few macros.
pub open spec fn replacement_table() -> Seq<(Seq<char>, Seq<char>)> {
    seq![
        ("PERIPHS_IO_MUX "@, "PERIPHS_IO_MUX_BASE "@),
        ("SLC_CONF0"@, "SLC_CONF0_REG"@),
        ("SLC_INT_RAW"@, "SLC_INT_RAW_REG"@),
        ("SLC_INT_STATUS"@, "SLC_INT_STATUS_REG"@),
        ("SLC_INT_ENA"@, "SLC_INT_ENA_REG"@),
        ("SLC_INT_CLR"@, "SLC_INT_CLR_REG"@),
        ("SLC_RX_STATUS"@, "SLC_RX_STATUS_REG"@),
        ("SLC_RX_FIFO_PUSH"@, "SLC_RX_FIFO_PUSH_REG"@),
        ("SLC_TX_STATUS"@, "SLC_TX_STATUS_REG"@),
        ("SLC_TX_FIFO_POP"@, "SLC_TX_FIFO_POP_REG"@),
        ("SLC_RX_LINK"@, "SLC_RX_LINK_REG"@),
        ("RTC_STORE0"@, "RTC_STORE0_REG"@),
        ("RTC_STATE1"@, "RTC_STATE1_REG"@),
        ("RTC_STATE2"@, "RTC_STATE2_REG"@),
    ]
}

/// The substitutions of `t` applied in order to `s`.
pub open spec fn normalize_with(s: Seq<char>, t: Seq<(Seq<char>, Seq<char>)>) -> Seq<char>
    decreases t.len(),
{
    if t.len() == 0 {
        s
    } else {
        let prev = normalize_with(s, t.drop_last());
        replaced(prev, t.last().0, t.last().1)
    }
}

/// No pattern of the table occurs in `s`.
pub open spec fn is_normal(s: Seq<char>) -> bool {
    forall|i: int| 0 <= i < replacement_table().len() ==> !occurs(s, #[trigger] replacement_table()[i].0)
}

fn replacement_pairs() -> (r: Vec<(&'static str, &'static str)>)
    ensures
        r@.map_values(|p: (&'static str, &'static str)| (p.0@, p.1@)) == replacement_table(),
        forall|i: int| 0 <= i < r@.len() ==> (#[trigger] r@[i]).0@.len() > 0,
{
    let mut r: Vec<(&'static str, &'static str)> = Vec::new();
    r.push(("PERIPHS_IO_MUX ", "PERIPHS_IO_MUX_BASE "));
    r.push(("SLC_CONF0", "SLC_CONF0_REG"));
    r.push(("SLC_INT_RAW", "SLC_INT_RAW_REG"));
    r.push(("SLC_INT_STATUS", "SLC_INT_STATUS_REG"));
    r.push(("SLC_INT_ENA", "SLC_INT_ENA_REG"));
    r.push(("SLC_INT_CLR", "SLC_INT_CLR_REG"));
    r.push(("SLC_RX_STATUS", "SLC_RX_STATUS_REG"));
    r.push(("SLC_RX_FIFO_PUSH", "SLC_RX_FIFO_PUSH_REG"));
    r.push(("SLC_TX_STATUS", "SLC_TX_STATUS_REG"));
    r.push(("SLC_TX_FIFO_POP", "SLC_TX_FIFO_POP_REG"));
    r.push(("SLC_RX_LINK", "SLC_RX_LINK_REG"));
    r.push(("RTC_STORE0", "RTC_STORE0_REG"));
    r.push(("RTC_STATE1", "RTC_STATE1_REG"));
    r.push(("RTC_STATE2", "RTC_STATE2_REG"));
    proof {
        reveal_strlit("PERIPHS_IO_MUX ");
        reveal_strlit("SLC_CONF0");
        reveal_strlit("SLC_INT_RAW");
        reveal_strlit("SLC_INT_STATUS");
        reveal_strlit("SLC_INT_ENA");
        reveal_strlit("SLC_INT_CLR");
        reveal_strlit("SLC_RX_STATUS");
        reveal_strlit("SLC_RX_FIFO_PUSH");
        reveal_strlit("SLC_TX_STATUS");
        reveal_strlit("SLC_TX_FIFO_POP");
        reveal_strlit("SLC_RX_LINK");
        reveal_strlit("RTC_STORE0");
        reveal_strlit("RTC_STATE1");
        reveal_strlit("RTC_STATE2");
        assert(r@.map_values(|p: (&'static str, &'static str)| (p.0@, p.1@)) =~= replacement_table());
    }
    r
}

/// Applies the substitution table to a file's text. Text in which no pattern
/// occurs is returned unchanged, so normalising it again gives the same text.
pub fn normalize(text: &str) -> (r: String)
    ensures
        r@ == normalize_with(text@, replacement_table()),
        is_normal(text@) ==> r@ == text@,
{
    let pairs = replacement_pairs();
    let ghost t = replacement_table();
    let mut cur = text.to_owned();
    let mut i: usize = 0;
    while i < pairs.len()
        invariant
            i <= pairs@.len(),
            t == replacement_table(),
            pairs@.map_values(|p: (&'static str, &'static str)| (p.0@, p.1@)) == t,
            forall|k: int| 0 <= k < pairs@.len() ==> (#[trigger] pairs@[k]).0@.len() > 0,
            cur@ == normalize_with(text@, t.take(i as int)),
            is_normal(text@) ==> cur@ == text@,
        decreases pairs@.len() - i,
    {
        assert(t.take(i + 1).drop_last() =~= t.take(i as int));
        assert(t[i as int] == (pairs@[i as int].0@, pairs@[i as int].1@));
        proof {
            if is_normal(text@) {
                assert(!occurs(text@, replacement_table()[i as int].0));
            }
        }
        let next = replace_all(cur.as_str(), pairs[i].0, pairs[i].1);
        cur = next;
        i = i + 1;
    }
    assert(t.take(t.len() as int) =~= t);
    cur
}

pub struct InterruptV {
    pub name: Seq<char>,
    pub description: Option<Seq<char>>,
    pub value: u32,
}

impl View for Interrupt {
    type V = InterruptV;

    open spec fn view(&self) -> InterruptV {
        InterruptV {
            name: self.name@,
            description: match self.description {
                Some(d) => Some(d@),
                None => None,
            },
            value: self.value,
        }
    }
}

/// The interrupt sources among the matches of `INTERRUPTS`, or `None` when a
/// number does not fit 32 bits.
pub open spec fn interrupts_spec(ms: Seq<Seq<Seq<char>>>) -> Option<Seq<InterruptV>>
    decreases ms.len(),
{
    if ms.len() == 0 {
        Some(Seq::empty())
    } else {
        match interrupts_spec(ms.drop_last()) {
            None => None,
            Some(prev) => {
                let c = ms.last();
                if c.len() < 4 {
                    Some(prev)
                } else {
                    match parse_bounded(c[2], 10, 0xffff_ffff) {
                        Some(v) => Some(prev.push(InterruptV { name: c[1], description: Some(c[3]), value: v as u32 })),
                        None => None,
                    }
                }
            },
        }
    }
}

proof fn lemma_interrupts_none(ms: Seq<Seq<Seq<char>>>, i: int)
    requires
        0 <= i <= ms.len(),
        interrupts_spec(ms.take(i)) is None,
    ensures
        interrupts_spec(ms) is None,
    decreases ms.len() - i,
{
    if i < ms.len() {
        assert(ms.take(i + 1).drop_last() =~= ms.take(i));
        lemma_interrupts_none(ms, i + 1);
    } else {
        assert(ms.take(i) =~= ms);
    }
}

/// Reads name (group 1), number (group 2) and description (group 3) of each
/// interrupt match; fails on the first number that does not fit 32 bits.
pub fn interrupts_from(ms: &Vec<Vec<String>>) -> (r: Result<Vec<Interrupt>, HeaderError>)
    ensures
        match r {
            Ok(v) => interrupts_spec(matches_view(ms@)) == Some(v@.map_values(|x: Interrupt| x@)),
            Err(e) => interrupts_spec(matches_view(ms@)) is None && e is BadInterruptNumber,
        },
{
    let ghost msv = matches_view(ms@);
    let mut out: Vec<Interrupt> = Vec::new();
    let mut i: usize = 0;
    assert(msv.take(0) =~= Seq::<Seq<Seq<char>>>::empty());
    assert(out@.map_values(|x: Interrupt| x@) =~= Seq::<InterruptV>::empty());
    while i < ms.len()
        invariant
            i <= ms@.len(),
            msv == matches_view(ms@),
            interrupts_spec(msv.take(i as int)) == Some(out@.map_values(|x: Interrupt| x@)),
        decreases ms@.len() - i,
    {
        assert(msv.take(i + 1).drop_last() =~= msv.take(i as int));
        let c = &ms[i];
        if c.len() >= 4 {
            match parse_radix(c[2].as_str(), 10, 0xffff_ffff) {
                Some(v) => {
                    let ghost before = out@;
                    let it = Interrupt { name: c[1].clone(), description: Some(c[3].clone()), value: v };
                    let ghost iv = it@;
                    out.push(it);
                    assert(out@.map_values(|x: Interrupt| x@) =~= before.map_values(|x: Interrupt| x@).push(iv));
                },
                None => {
                    proof { lemma_interrupts_none(msv, i as int + 1); }
                    return Err(HeaderError::BadInterruptNumber(c[2].clone()));
                },
            }
        }
        i = i + 1;
    }
    assert(msv.take(msv.len() as int) =~= msv);
    Ok(out)
}

/// Every interrupt source constant in `text`: name, description and number.
pub fn extract_interrupts(text: &str) -> (r: Result<Vec<Interrupt>, HeaderError>)
    ensures
        match r {
            Ok(v) => interrupts_spec(regex_all(INTERRUPTS@, text@)) == Some(v@.map_values(|x: Interrupt| x@)),
            Err(_) => interrupts_spec(regex_all(INTERRUPTS@, text@)) is None,
        },
{
    let ms = captures_all(INTERRUPTS, text);
    interrupts_from(&ms)
}

/// What the patterns recognise on each line of `t`.
pub open spec fn file_facts(t: Seq<char>) -> Seq<LineFactsV> {
    lines_of(t).map_values(|l: Seq<char>| facts_of(l))
}

/// Classifies every line of `t`.
pub fn classify_lines(t: &str) -> (r: Vec<LineFacts>)
    ensures
        facts_view(r@) == file_facts(t@),
{
    let lines = split_lines(t);
    let ghost lv = strings_view(lines@);
    let mut out: Vec<LineFacts> = Vec::new();
    let mut i: usize = 0;
    while i < lines.len()
        invariant
            i <= lines@.len(),
            lv == strings_view(lines@),
            lv == lines_of(t@),
            facts_view(out@) == lv.take(i as int).map_values(|l: Seq<char>| facts_of(l)),
        decreases lines@.len() - i,
    {
        let ghost prev = facts_view(out@);
        let f = classify(lines[i].as_str());
        let ghost fv = f@;
        out.push(f);
        assert(facts_view(out@) =~= prev.push(fv));
        assert(lv.take(i + 1).map_values(|l: Seq<char>| facts_of(l)) =~= lv.take(i as int).map_values(|l: Seq<char>| facts_of(l)).push(facts_of(lv[i as int])));
        i = i + 1;
    }
    assert(lv.take(lv.len() as int) =~= lv);
    out
}

fn append_names(v: &mut Vec<String>, more: Vec<String>)
    ensures
        strings_view(final(v)@) == strings_view(old(v)@) + strings_view(more@),
{
    let mut more = more;
    let n = more.len();
    let ghost orig = more@;
    let mut i: usize = 0;
    while i < n
        invariant
            i <= n,
            n == orig.len(),
            more@ == orig.subrange(i as int, n as int),
            strings_view(v@) == strings_view(old(v)@) + strings_view(orig).take(i as int),
        decreases n - i,
    {
        let x = more.remove(0);
        assert(orig[i as int] == x);
        push_name(v, x);
        assert(strings_view(orig).take(i + 1) =~= strings_view(orig).take(i as int).push(strings_view(orig)[i as int]));
        assert(strings_view(old(v)@) + strings_view(orig).take(i + 1) =~= (strings_view(old(v)@) + strings_view(orig).take(i as int)).push(strings_view(orig)[i as int]));
        i = i + 1;
    }
    assert(strings_view(orig).take(n as int) =~= strings_view(orig));
}

/// Processes one header: normalises it, seeds the base addresses it defines,
/// scans its lines for registers and adds them to their peripherals. What is
/// refused or unresolved goes to `report`, and the file's name too when
/// nothing was recognised in it. Fails, changing nothing, when a base address
/// or a register offset cannot be read.
pub fn process_file(name: &str, text: &str, registry: &mut Registry, report: &mut Report) -> (r: Result<(), HeaderError>)
    requires
        old(registry).wf(),
    ensures
        final(registry).wf(),
        ({
            let t = normalize_with(text@, replacement_table());
            let defs = base_defs(base_matches(t));
            let sc = scan_spec(file_facts(t)).1;
            let done = commit_spec(seed_spec(reg_map(old(registry)@), defs->0), sc.commits);
            &&& (r is Err <==> defs is None || sc.fatal is Some)
            &&& (defs is None ==> r matches Err(HeaderError::BadBaseAddress(_)))
            &&& (defs is Some && sc.fatal is Some ==> (r matches Err(HeaderError::BadOffset(n)) && n@ == sc.fatal->0))
            &&& (r is Err ==> final(registry)@ == old(registry)@ && final(report)@ == old(report)@)
            &&& (r is Ok ==> {
                &&& reg_map(final(registry)@) == done.0
                &&& final(report)@.unresolved_peripherals == old(report)@.unresolved_peripherals + done.1
                &&& final(report)@.rejected_registers == old(report)@.rejected_registers + sc.rejected
                &&& final(report)@.rejected_fields == old(report)@.rejected_fields + sc.rejected_fields
                &&& final(report)@.empty_files == (if sc.found {
                    old(report)@.empty_files
                } else {
                    old(report)@.empty_files.push(name@)
                })
            })
        }),
{
    let t = normalize(text);
    let ms = captures_all(REG_BASE, t.as_str());
    let defs = match base_definitions(&ms) {
        Err(e) => return Err(e),
        Ok(d) => d,
    };
    let facts = classify_lines(t.as_str());
    let sc = scan_lines(&facts);
    let Scan { commits, rejected, rejected_fields, fatal, found } = sc;
    if let Some(n) = fatal {
        return Err(HeaderError::BadOffset(n));
    }
    seed_all(registry, &defs);
    commit_all(registry, commits, &mut report.unresolved_peripherals);
    append_names(&mut report.rejected_registers, rejected);
    append_names(&mut report.rejected_fields, rejected_fields);
    if !found {
        push_name(&mut report.empty_files, name.to_owned());
    }
    Ok(())
}

proof fn lemma_seed_keeps(m: Map<Seq<char>, PeripheralV>, defs: Seq<(Seq<char>, u32)>, n: Seq<char>)
    requires
        m.contains_key(n),
    ensures
        seed_spec(m, defs).contains_key(n),
        seed_spec(m, defs)[n] == m[n],
    decreases defs.len(),
{
    if defs.len() > 0 {
        lemma_seed_keeps(m, defs.drop_last(), n);
    }
}

/// The first definition of a base address wins: once a name is seeded at `a`,
/// later definitions of it, in the same file or in later ones, leave it at `a`.
pub proof fn base_address_first_wins(
    m: Map<Seq<char>, PeripheralV>,
    name: Seq<char>,
    a: u32,
    later: Seq<(Seq<char>, u32)>,
)
    requires
        !m.contains_key(name),
    ensures
        seed_spec(seed_spec(m, seq![(name, a)]), later)[name] == fresh_peripheral(name, a),
{
    let once = seed_spec(m, seq![(name, a)]);
    let one = seq![(name, a)];
    assert(one.drop_last() =~= Seq::<(Seq<char>, u32)>::empty());
    assert(one.len() == 1 && one.last() == (name, a));
    assert(seed_spec(m, one.drop_last()) == m);
    assert(once == m.insert(name, fresh_peripheral(name, a)));
    lemma_seed_keeps(once, later, name);
}

proof fn lemma_commit_domain(m: Map<Seq<char>, PeripheralV>, cs: Seq<(Seq<char>, RegisterV)>)
    ensures
        commit_spec(m, cs).0.dom() == m.dom(),
        forall|k: Seq<char>| #[trigger] m.contains_key(k) ==> commit_spec(m, cs).0[k].address == m[k].address,
    decreases cs.len(),
{
    if cs.len() > 0 {
        lemma_commit_domain(m, cs.drop_last());
        let prev = commit_spec(m, cs.drop_last()).0;
        let p = cs.last().0;
        if prev.contains_key(p) {
            assert(prev.insert(p, with_register(prev[p], cs.last().1)).dom() =~= prev.dom());
        }
    }
}

/// A register of a peripheral that has no base address is dropped and the
/// peripheral's name listed; every registered peripheral is kept as it was,
/// and no peripheral's base address ever changes on account of a register.
pub proof fn unknown_peripheral_is_listed(
    m: Map<Seq<char>, PeripheralV>,
    cs: Seq<(Seq<char>, RegisterV)>,
    p: Seq<char>,
    r: RegisterV,
)
    requires
        !m.contains_key(p),
    ensures
        commit_spec(m, cs.push((p, r))).0 == commit_spec(m, cs).0,
        commit_spec(m, cs.push((p, r))).1 == commit_spec(m, cs).1.push(p),
        commit_spec(m, cs.push((p, r))).0.dom() == m.dom(),
        forall|k: Seq<char>| #[trigger] m.contains_key(k) ==> commit_spec(m, cs.push((p, r))).0[k].address == m[k].address,
{
    assert(cs.push((p, r)).drop_last() =~= cs);
    lemma_commit_domain(m, cs);
    lemma_commit_domain(m, cs.push((p, r)));
}

/// An indexed register definition met while no register is open is refused
/// under its name and opens no register.
pub proof fn indexed_register_rejected(f: LineFactsV)
    requires
        !has_groups(f.reg_def, 4),
        has_groups(f.reg_def_index, 2),
    ensures
        step_spec(StateV::FindReg, f) == stepv(StateV::FindReg, true, EmitV::Rejected(f.reg_def_index->0[1]), false),
{
}

/// Every field of `r` lies within bits 0 to 31, a range not running backwards.
pub open spec fn register_fields_wf(r: RegisterV) -> bool {
    forall|j: int| 0 <= j < r.bit_fields.len() ==> (#[trigger] r.bit_fields[j]).bits.wf()
}

pub open spec fn state_wf(s: StateV) -> bool {
    match s {
        StateV::FindReg => true,
        StateV::FindBitFieldMask(_, r) => register_fields_wf(r),
        StateV::FindBitFieldShift(_, r, _) => register_fields_wf(r),
        StateV::FindBitFieldSkipShift(_, r) => register_fields_wf(r),
        StateV::AssumeFullRegister(_, r) => register_fields_wf(r),
        StateV::CheckEnd(_, r) => register_fields_wf(r),
        StateV::End(_, r) => register_fields_wf(r),
    }
}

pub open spec fn scan_wf(a: ScanV) -> bool {
    forall|i: int| 0 <= i < a.commits.len() ==> register_fields_wf(#[trigger] a.commits[i].1)
}

proof fn lemma_with_field_wf(r: RegisterV, f: BitFieldV)
    requires
        register_fields_wf(r),
        f.bits.wf(),
    ensures
        register_fields_wf(with_field(r, f)),
{
    assert forall|j: int| 0 <= j < with_field(r, f).bit_fields.len() implies (#[trigger] with_field(r, f).bit_fields[j]).bits.wf() by {
        if j < r.bit_fields.len() {
            assert(with_field(r, f).bit_fields[j] == r.bit_fields[j]);
        }
    }
}

proof fn lemma_step_wf(s: StateV, f: LineFactsV)
    requires
        state_wf(s),
    ensures
        state_wf(step_spec(s, f).next),
        step_spec(s, f).emit is Commit ==> register_fields_wf(step_spec(s, f).emit->Commit_1),
{
    match s {
        StateV::FindReg => {
            assert(register_fields_wf(register_stub(Seq::empty(), 0)));
        },
        StateV::FindBitFieldMask(p, r) => {
            if !f.skip && f.reg_def_offset is None && has_groups(f.define_mask, 3) && has_groups(f.mask_single_bit, 2) {
                let b = parse_bounded(f.mask_single_bit->0[1], 10, 31);
                if b is Some {
                    lemma_with_field_wf(r, plain_field(f.define_mask->0[1], Bits::Single(b->0 as u8)));
                }
            }
        },
        StateV::FindBitFieldShift(p, r, m) => {
            if !f.skip && has_groups(f.define_shift, 3) {
                let c = f.define_shift->0;
                let sh = parse_bounded(c[2], 10, 255);
                if sh is Some {
                    let bits = shifted_bits(sh->0, popcount(m as nat));
                    if bits is Some {
                        lemma_with_field_wf(r, plain_field(c[1], bits->0));
                    }
                }
            }
        },
        StateV::AssumeFullRegister(p, r) => {
            lemma_with_field_wf(r, plain_field(full_register_name(), Bits::Range(0, 31)));
        },
        _ => {},
    }
}

proof fn lemma_line_wf(s: StateV, f: LineFactsV, a: ScanV)
    requires
        state_wf(s),
        scan_wf(a),
    ensures
        state_wf(line_spec(s, f, a).0),
        scan_wf(line_spec(s, f, a).1),
    decreases rank(s),
{
    let st = step_spec(s, f);
    lemma_step_wf(s, f);
    let a2 = absorb(a, st.emit, st.found);
    assert(scan_wf(a2)) by {
        if st.emit is Commit {
            assert forall|i: int| 0 <= i < a2.commits.len() implies register_fields_wf(#[trigger] a2.commits[i].1) by {
                if i < a.commits.len() {
                    assert(a2.commits[i] == a.commits[i]);
                }
            }
        }
    }
    if !st.consumed && rank(st.next) < rank(s) {
        lemma_line_wf(st.next, f, a2);
    }
}

/// Every field the scanner puts in a finished register lies within bits 0 to
/// 31, and no range runs backwards, whatever the input lines.
pub proof fn scanned_fields_are_well_formed(fs: Seq<LineFactsV>)
    ensures
        state_wf(scan_spec(fs).0),
        forall|i: int| 0 <= i < scan_spec(fs).1.commits.len() ==> register_fields_wf(#[trigger] scan_spec(fs).1.commits[i].1),
    decreases fs.len(),
{
    if fs.len() > 0 {
        scanned_fields_are_well_formed(fs.drop_last());
        let prev = scan_spec(fs.drop_last());
        if !fs.last().directive {
            lemma_line_wf(prev.0, fs.last(), prev.1);
        }
    }
}

/// Every peripheral of `m` has only well-formed fields.
pub open spec fn map_fields_wf(m: Map<Seq<char>, PeripheralV>) -> bool {
    forall|k: Seq<char>| #[trigger] m.contains_key(k) ==> fields_wf(m[k])
}

/// Adding registers whose fields are well formed keeps every peripheral's
/// fields well formed.
pub proof fn committed_fields_stay_well_formed(m: Map<Seq<char>, PeripheralV>, cs: Seq<(Seq<char>, RegisterV)>)
    requires
        map_fields_wf(m),
        forall|i: int| 0 <= i < cs.len() ==> register_fields_wf(#[trigger] cs[i].1),
    ensures
        map_fields_wf(commit_spec(m, cs).0),
    decreases cs.len(),
{
    if cs.len() > 0 {
        let init = cs.drop_last();
        assert forall|i: int| 0 <= i < init.len() implies register_fields_wf(#[trigger] init[i].1) by {
            assert(init[i] == cs[i]);
        }
        committed_fields_stay_well_formed(m, init);
        let prev = commit_spec(m, init).0;
        let (p, r) = cs.last();
        assert(register_fields_wf(cs[cs.len() - 1].1));
        if prev.contains_key(p) {
            let q = with_register(prev[p], r);
            assert(fields_wf(prev[p]));
            assert forall|i: int, j: int| 0 <= i < q.registers.len() && 0 <= j < q.registers[i].bit_fields.len() implies (#[trigger] q.registers[i].bit_fields[j]).bits.wf() by {
                if i < prev[p].registers.len() {
                    assert(q.registers[i] == prev[p].registers[i]);
                }
            }
            let after = prev.insert(p, q);
            assert forall|k: Seq<char>| #[trigger] after.contains_key(k) implies fields_wf(after[k]) by {
                if k != p {
                    assert(prev.contains_key(k));
                }
            }
        }
    }
}

/// A register whose first following line defines no field (a blank line, a
/// comment, the next register) is committed at once with a single field named
/// `Register` spanning bits 0 to 31.
pub proof fn register_without_layout_spans_all_bits(p: Seq<char>, r: RegisterV, f: LineFactsV, a: ScanV)
    requires
        r.bit_fields.len() == 0,
        !f.skip,
        !has_groups(f.define_mask, 3),
    ensures
        line_spec(StateV::FindBitFieldMask(p, r), f, a).1.commits == a.commits.push(
            (p, with_field(r, plain_field(full_register_name(), Bits::Range(0, 31)))),
        ),
{
    let s0 = StateV::FindBitFieldMask(p, r);
    let st0 = step_spec(s0, f);
    assert(st0.next == StateV::AssumeFullRegister(p, r) && !st0.consumed);
    let a1 = absorb(a, st0.emit, st0.found);
    let s1 = st0.next;
    let st1 = step_spec(s1, f);
    let a2 = absorb(a1, st1.emit, st1.found);
    assert(a2.commits == a.commits.push((p, with_field(r, plain_field(full_register_name(), Bits::Range(0, 31))))));
    let st2 = step_spec(StateV::FindReg, f);
    let a3 = absorb(a2, st2.emit, st2.found);
    assert(st2.consumed);
    assert(a3.commits == a2.commits);
    assert(line_spec(StateV::FindReg, f, a2) == (st2.next, a3));
    assert(line_spec(s1, f, a1) == line_spec(StateV::FindReg, f, a2));
    assert(line_spec(s0, f, a) == line_spec(s1, f, a1));
}

} // verus!
