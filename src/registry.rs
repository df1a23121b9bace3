//! The peripheral registry: peripherals keyed by name, kept in name order.

use vstd::prelude::*;
use crate::model::{Peripheral, PeripheralV, Register, RegisterV};
use crate::text::{lex_lt, str_lt, str_eq, lemma_lex_irreflexive, lemma_lex_total, lemma_lex_transitive};

verus! {

pub type Entries = Seq<(Seq<char>, PeripheralV)>;

/// Names strictly increase along the entries, so each name occurs once.
pub open spec fn sorted(v: Entries) -> bool {
    forall|i: int, j: int| 0 <= i < j < v.len() ==> lex_lt(#[trigger] v[i].0, #[trigger] v[j].0)
}

/// The peripheral registered under `name`, if any.
pub open spec fn lookup(v: Entries, name: Seq<char>) -> Option<PeripheralV> {
    if exists|i: int| 0 <= i < v.len() && #[trigger] v[i].0 == name {
        let i = choose|i: int| 0 <= i < v.len() && #[trigger] v[i].0 == name;
        Some(v[i].1)
    } else {
        None
    }
}

/// The peripheral that a base-address definition creates.
pub open spec fn fresh_peripheral(name: Seq<char>, address: u32) -> PeripheralV {
    PeripheralV { description: name, address, registers: Seq::empty() }
}

/// `p` with `r` appended to its registers.
pub open spec fn with_register(p: PeripheralV, r: RegisterV) -> PeripheralV {
    PeripheralV { registers: p.registers.push(r), ..p }
}

/// `p` with its register list replaced by `regs`.
pub open spec fn with_registers(p: PeripheralV, regs: Seq<RegisterV>) -> PeripheralV {
    PeripheralV { registers: regs, ..p }
}

pub proof fn lemma_lookup_at(v: Entries, j: int)
    requires
        sorted(v),
        0 <= j < v.len(),
    ensures
        lookup(v, v[j].0) == Some(v[j].1),
{
    let name = v[j].0;
    assert(v[j].0 == name);
    let i = choose|i: int| 0 <= i < v.len() && #[trigger] v[i].0 == name;
    lemma_lex_irreflexive(name);
    if i < j {
        assert(lex_lt(v[i].0, v[j].0));
    } else if j < i {
        assert(lex_lt(v[j].0, v[i].0));
    }
}

/// Peripherals keyed by name, in name order.
pub struct Registry {
    pub entries: Vec<(String, Peripheral)>,
}

impl Registry {
    pub open spec fn view(&self) -> Entries {
        self.entries@.map_values(|e: (String, Peripheral)| (e.0@, e.1@))
    }

    pub open spec fn wf(&self) -> bool {
        sorted(self@)
    }

    /// An empty registry.
    pub fn new() -> (r: Registry)
        ensures
            r.wf(),
            r@.len() == 0,
    {
        let r = Registry { entries: Vec::new() };
        assert(r@ =~= Seq::<(Seq<char>, PeripheralV)>::empty());
        r
    }

    /// Number of peripherals.
    pub fn len(&self) -> (r: usize)
        ensures
            r == self@.len(),
    {
        self.entries.len()
    }

    /// Where `name` stands, or where it would be inserted.
    fn position(&self, name: &str) -> (r: Result<usize, usize>)
        requires
            self.wf(),
        ensures
            match r {
                Ok(i) => i < self@.len() && self@[i as int].0 == name@,
                Err(i) => i <= self@.len()
                    && (forall|j: int| 0 <= j < i ==> lex_lt(#[trigger] self@[j].0, name@))
                    && (forall|j: int| i <= j < self@.len() ==> lex_lt(name@, #[trigger] self@[j].0)),
            },
    {
        let n = self.entries.len();
        let mut i: usize = 0;
        while i < n && str_lt(self.entries[i].0.as_str(), name)
            invariant
                i <= n,
                n == self@.len(),
                forall|j: int| 0 <= j < i ==> lex_lt(#[trigger] self@[j].0, name@),
            decreases n - i,
        {
            i = i + 1;
        }
        if i < n && str_eq(self.entries[i].0.as_str(), name) {
            return Ok(i);
        }
        proof {
            if i < n {
                let a = self@[i as int].0;
                lemma_lex_total(a, name@);
                assert forall|j: int| i <= j < self@.len() implies lex_lt(name@, #[trigger] self@[j].0) by {
                    if j > i {
                        assert(lex_lt(self@[i as int].0, self@[j].0));
                        lemma_lex_transitive(name@, a, self@[j].0);
                    }
                }
            }
        }
        Err(i)
    }

    /// The peripheral registered under `name`.
    pub fn get(&self, name: &str) -> (r: Option<&Peripheral>)
        requires
            self.wf(),
        ensures
            match r {
                Some(p) => lookup(self@, name@) == Some(p@),
                None => lookup(self@, name@) is None,
            },
    {
        match self.position(name) {
            Ok(i) => {
                proof { lemma_lookup_at(self@, i as int); }
                Some(&self.entries[i].1)
            },
            Err(i) => {
                proof {
                    lemma_lex_irreflexive(name@);
                    assert forall|j: int| 0 <= j < self@.len() implies #[trigger] self@[j].0 != name@ by {
                        if j < i {
                            assert(lex_lt(self@[j].0, name@));
                        } else {
                            assert(lex_lt(name@, self@[j].0));
                        }
                    }
                }
                None
            },
        }
    }

    proof fn lemma_absent(&self, name: Seq<char>, i: int)
        requires
            0 <= i <= self@.len(),
            forall|j: int| 0 <= j < i ==> lex_lt(#[trigger] self@[j].0, name),
            forall|j: int| i <= j < self@.len() ==> lex_lt(name, #[trigger] self@[j].0),
        ensures
            lookup(self@, name) is None,
    {
        lemma_lex_irreflexive(name);
        assert forall|j: int| 0 <= j < self@.len() implies #[trigger] self@[j].0 != name by {
            if j < i {
                assert(lex_lt(self@[j].0, name));
            } else {
                assert(lex_lt(name, self@[j].0));
            }
        }
    }

    /// Adds `p` under `name`, which is absent, at position `i`.
    fn insert_at(&mut self, i: usize, name: String, p: Peripheral)
        requires
            old(self).wf(),
            i <= old(self)@.len(),
            forall|j: int| 0 <= j < i ==> lex_lt(#[trigger] old(self)@[j].0, name@),
            forall|j: int| i <= j < old(self)@.len() ==> lex_lt(name@, #[trigger] old(self)@[j].0),
        ensures
            final(self).wf(),
            lookup(final(self)@, name@) == Some(p@),
            forall|k: Seq<char>| k != name@ ==> lookup(#[trigger] final(self)@, k) == lookup(old(self)@, k),
    {
        let ghost o = self@;
        let ghost e = (name@, p@);
        self.entries.insert(i, (name, p));
        assert(self@ =~= o.insert(i as int, e));
        assert forall|a: int, b: int| 0 <= a < b < self@.len() implies lex_lt(#[trigger] self@[a].0, #[trigger] self@[b].0) by {
            if a < i && b > i {
                lemma_lex_transitive(self@[a].0, e.0, self@[b].0);
            }
        }
        proof {
            lemma_lookup_at(self@, i as int);
            assert forall|k: Seq<char>| k != name@ implies lookup(#[trigger] self@, k) == lookup(o, k) by {
                if exists|j: int| 0 <= j < o.len() && #[trigger] o[j].0 == k {
                    let j = choose|j: int| 0 <= j < o.len() && #[trigger] o[j].0 == k;
                    lemma_lookup_at(o, j);
                    if j < i {
                        assert(self@[j] == o[j]);
                        lemma_lookup_at(self@, j);
                    } else {
                        assert(self@[j + 1] == o[j]);
                        lemma_lookup_at(self@, j + 1);
                    }
                } else {
                    assert forall|j: int| 0 <= j < self@.len() implies #[trigger] self@[j].0 != k by {
                        if j < i {
                            assert(self@[j] == o[j]);
                        } else if j > i {
                            assert(self@[j] == o[j - 1]);
                        }
                    }
                }
            }
        }
    }

    /// Registers `name` at `address` unless it is registered already: the first
    /// definition of a base address wins.
    pub fn seed(&mut self, name: &str, address: u32)
        requires
            old(self).wf(),
        ensures
            final(self).wf(),
            lookup(old(self)@, name@) is Some ==> final(self)@ == old(self)@,
            lookup(old(self)@, name@) is None ==> lookup(final(self)@, name@) == Some(fresh_peripheral(name@, address)),
            forall|k: Seq<char>| k != name@ ==> lookup(#[trigger] final(self)@, k) == lookup(old(self)@, k),
    {
        match self.position(name) {
            Ok(i) => {
                proof { lemma_lookup_at(self@, i as int); }
            },
            Err(i) => {
                proof { self.lemma_absent(name@, i as int); }
                let p = Peripheral { description: name.to_owned(), address, registers: Vec::new() };
                assert(p@.registers =~= Seq::<RegisterV>::empty());
                self.insert_at(i, name.to_owned(), p);
            },
        }
    }

    /// Registers `p` under `name`, replacing any peripheral registered there.
    pub fn insert(&mut self, name: String, p: Peripheral)
        requires
            old(self).wf(),
        ensures
            final(self).wf(),
            lookup(final(self)@, name@) == Some(p@),
            forall|k: Seq<char>| k != name@ ==> lookup(#[trigger] final(self)@, k) == lookup(old(self)@, k),
    {
        match self.position(name.as_str()) {
            Ok(i) => {
                let ghost o = self@;
                let ghost e = (name@, p@);
                self.entries.set(i, (name, p));
                assert(self@ =~= o.update(i as int, e));
                proof { self.lemma_replaced(o, i as int); }
            },
            Err(i) => {
                self.insert_at(i, name, p);
            },
        }
    }

    proof fn lemma_replaced(&self, o: Entries, i: int)
        requires
            sorted(o),
            0 <= i < o.len(),
            self@.len() == o.len(),
            self@[i].0 == o[i].0,
            forall|j: int| 0 <= j < o.len() && j != i ==> self@[j] == o[j],
        ensures
            self.wf(),
            lookup(self@, o[i].0) == Some(self@[i].1),
            forall|k: Seq<char>| k != o[i].0 ==> lookup(#[trigger] self@, k) == lookup(o, k),
    {
        assert forall|a: int, b: int| 0 <= a < b < self@.len() implies lex_lt(#[trigger] self@[a].0, #[trigger] self@[b].0) by {
            assert(self@[a].0 == o[a].0);
            assert(self@[b].0 == o[b].0);
        }
        lemma_lookup_at(self@, i);
        assert forall|k: Seq<char>| k != o[i].0 implies lookup(#[trigger] self@, k) == lookup(o, k) by {
            if exists|j: int| 0 <= j < o.len() && #[trigger] o[j].0 == k {
                let j = choose|j: int| 0 <= j < o.len() && #[trigger] o[j].0 == k;
                lemma_lookup_at(o, j);
                lemma_lookup_at(self@, j);
            } else {
                assert forall|j: int| 0 <= j < self@.len() implies #[trigger] self@[j].0 != k by {
                    if j != i {
                        assert(self@[j] == o[j]);
                    }
                }
            }
        }
    }

    /// Appends `r` to the registers of the peripheral named `name`; `false`, and
    /// nothing changed, when there is none.
    pub fn push_register(&mut self, name: &str, r: Register) -> (found: bool)
        requires
            old(self).wf(),
        ensures
            final(self).wf(),
            found == lookup(old(self)@, name@) is Some,
            found ==> lookup(final(self)@, name@) == Some(with_register(lookup(old(self)@, name@)->0, r@)),
            !found ==> final(self)@ == old(self)@,
            forall|k: Seq<char>| k != name@ ==> lookup(#[trigger] final(self)@, k) == lookup(old(self)@, k),
    {
        match self.position(name) {
            Ok(i) => {
                let ghost o = self@;
                proof { lemma_lookup_at(o, i as int); }
                let (n, mut p) = self.entries.remove(i);
                let ghost before = p@;
                p.registers.push(r);
                assert(p@.registers =~= before.registers.push(r@));
                self.entries.insert(i, (n, p));
                assert(self@ =~= o.update(i as int, (o[i as int].0, with_register(o[i as int].1, r@))));
                proof { self.lemma_replaced(o, i as int); }
                true
            },
            Err(i) => {
                proof { self.lemma_absent(name@, i as int); }
                false
            },
        }
    }

    /// Replaces the whole register list of the peripheral named `name`; `false`,
    /// and nothing changed, when there is none.
    pub fn set_registers(&mut self, name: &str, regs: Vec<Register>) -> (found: bool)
        requires
            old(self).wf(),
        ensures
            final(self).wf(),
            found == lookup(old(self)@, name@) is Some,
            found ==> lookup(final(self)@, name@) == Some(
                with_registers(lookup(old(self)@, name@)->0, regs@.map_values(|x: Register| x@)),
            ),
            !found ==> final(self)@ == old(self)@,
            forall|k: Seq<char>| k != name@ ==> lookup(#[trigger] final(self)@, k) == lookup(old(self)@, k),
    {
        match self.position(name) {
            Ok(i) => {
                let ghost o = self@;
                proof { lemma_lookup_at(o, i as int); }
                let (n, mut p) = self.entries.remove(i);
                p.registers = regs;
                self.entries.insert(i, (n, p));
                assert(self@ =~= o.update(
                    i as int,
                    (o[i as int].0, with_registers(o[i as int].1, regs@.map_values(|x: Register| x@))),
                ));
                proof { self.lemma_replaced(o, i as int); }
                true
            },
            Err(i) => {
                proof { self.lemma_absent(name@, i as int); }
                false
            },
        }
    }
}

} // verus!
