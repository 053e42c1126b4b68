//! The alias table: a bidirectional name-to-address registry, kept as one
//! association list whose invariant (each name bound once, each address
//! claimed once) makes the pairing unique in both directions, together with
//! the backward free-slot allocation algorithm.

use vstd::prelude::*;

use crate::tape::Tape;

verus! {

/// First binding of `name`, if any.
pub open spec fn alias_lookup(m: Seq<(Seq<u8>, int)>, name: Seq<u8>) -> Option<int>
    decreases m,
{
    if m.len() == 0 {
        None
    } else if m[0].0 == name {
        Some(m[0].1)
    } else {
        alias_lookup(m.drop_first(), name)
    }
}

/// Whether some binding claims `addr`.
pub open spec fn alias_claimed(m: Seq<(Seq<u8>, int)>, addr: int) -> bool {
    exists|i: int| 0 <= i < m.len() && m[i].1 == addr
}

/// Uniqueness in both directions: no name bound twice, no address claimed
/// twice.
pub open spec fn alias_wf(m: Seq<(Seq<u8>, int)>) -> bool {
    forall|i: int, j: int|
        0 <= i < m.len() && 0 <= j < m.len() && i != j ==> m[i].0 != m[j].0 && m[i].1 != m[j].1
}

/// Every claimed address lies inside a tape of length `len`.
pub open spec fn alias_in_range(m: Seq<(Seq<u8>, int)>, len: int) -> bool {
    forall|i: int| 0 <= i < m.len() ==> 0 <= #[trigger] m[i].1 < len
}

/// The highest eligible address strictly below `below`: its cell is zero and
/// no binding claims it.
pub open spec fn spec_free_slot(cells: Seq<u8>, m: Seq<(Seq<u8>, int)>, below: nat) -> Option<
    int,
>
    decreases below,
{
    if below == 0 {
        None
    } else if cells[below - 1] == 0 && !alias_claimed(m, below - 1) {
        Some(below - 1)
    } else {
        spec_free_slot(cells, m, (below - 1) as nat)
    }
}

pub proof fn lemma_free_slot_in_range(cells: Seq<u8>, m: Seq<(Seq<u8>, int)>, below: nat)
    ensures
        match spec_free_slot(cells, m, below) {
            Some(a) => 0 <= a < below && cells[a] == 0 && !alias_claimed(m, a),
            None => true,
        },
    decreases below,
{
    if below > 0 {
        lemma_free_slot_in_range(cells, m, (below - 1) as nat);
    }
}

/// The names in a vector of byte strings, as a sequence of sequences.
pub open spec fn names_of(v: Vec<Vec<u8>>) -> Seq<Seq<u8>> {
    Seq::new(v@.len(), |i: int| v@[i]@)
}

/// Whether `n` occurs among `names`.
pub open spec fn name_listed(names: Seq<Seq<u8>>, n: Seq<u8>) -> bool {
    exists|j: int| 0 <= j < names.len() && names[j] == n
}

/// Whether `name` occurs in `names`.
pub fn contains_name(names: &Vec<Vec<u8>>, name: &Vec<u8>) -> (r: bool)
    ensures
        r == name_listed(names_of(*names), name@),
{
    let n = names.len();
    let mut i: usize = 0;
    while i < n
        invariant
            i <= n,
            names@.len() == n,
            forall|j: int| 0 <= j < i ==> names_of(*names)[j] != name@,
        decreases n - i,
    {
        if bytes_eq(&names[i], name) {
            proof {
                assert(names_of(*names)[i as int] == name@);
            }
            return true;
        }
        proof {
            assert(names_of(*names)[i as int] == names@[i as int]@);
        }
        i += 1;
    }
    false
}

/// Byte-vector equality.
pub fn bytes_eq(a: &Vec<u8>, b: &Vec<u8>) -> (r: bool)
    ensures
        r <==> a@ == b@,
{
    if a.len() != b.len() {
        proof {
            assert(a@.len() != b@.len());
        }
        return false;
    }
    let n = a.len();
    let mut i: usize = 0;
    while i < n
        invariant
            i <= n,
            a@.len() == n,
            b@.len() == n,
            forall|j: int| 0 <= j < i ==> a@[j] == b@[j],
        decreases n - i,
    {
        if a[i] != b[i] {
            return false;
        }
        i += 1;
    }
    proof {
        assert(a@ =~= b@);
    }
    true
}

/// The name-to-address registry for one run.
pub struct AliasTable {
    entries: Vec<(Vec<u8>, usize)>,
}

impl View for AliasTable {
    type V = Seq<(Seq<u8>, int)>;

    closed spec fn view(&self) -> Seq<(Seq<u8>, int)> {
        Seq::new(self.entries@.len(), |i: int| (self.entries@[i].0@, self.entries@[i].1 as int))
    }
}

impl AliasTable {
    /// An empty table.
    pub fn new() -> (r: Self)
        ensures
            r@ == Seq::<(Seq<u8>, int)>::empty(),
    {
        let r = AliasTable { entries: Vec::new() };
        proof {
            assert(r@ =~= Seq::<(Seq<u8>, int)>::empty());
        }
        r
    }

    /// The bound address of `name`, if any.
    pub fn resolve(&self, name: &Vec<u8>) -> (r: Option<usize>)
        ensures
            match r {
                Some(a) => alias_lookup(self@, name@) == Some(a as int),
                None => alias_lookup(self@, name@) == None::<int>,
            },
    {
        let n = self.entries.len();
        let mut i: usize = 0;
        proof {
            assert(self@.skip(0) =~= self@);
        }
        while i < n
            invariant
                i <= n,
                self.entries@.len() == n,
                alias_lookup(self@, name@) == alias_lookup(self@.skip(i as int), name@),
            decreases n - i,
        {
            proof {
                assert(self@.skip(i as int)[0] == self@[i as int]);
                assert(self@.skip(i as int).drop_first() =~= self@.skip(i as int + 1));
            }
            if bytes_eq(&self.entries[i].0, name) {
                return Some(self.entries[i].1);
            }
            i += 1;
        }
        proof {
            assert(self@.skip(n as int).len() == 0);
        }
        None
    }

    /// Whether some binding claims `address`.
    pub fn contains_address(&self, address: usize) -> (r: bool)
        ensures
            r <==> alias_claimed(self@, address as int),
    {
        let n = self.entries.len();
        let mut i: usize = 0;
        while i < n
            invariant
                i <= n,
                self.entries@.len() == n,
                forall|j: int| 0 <= j < i ==> self@[j].1 != address as int,
            decreases n - i,
        {
            if self.entries[i].1 == address {
                proof {
                    assert(self@[i as int].1 == address as int);
                }
                return true;
            }
            i += 1;
        }
        false
    }

    /// Scans tape addresses from the highest index downward and binds `name`
    /// to the first address whose cell is zero and which no other name has
    /// claimed. Returns `None`, leaving the table unchanged, when no address
    /// is eligible.
    pub fn assign_address(&mut self, tape: &Tape, name: &Vec<u8>) -> (r: Option<usize>)
        ensures
            match r {
                Some(a) => {
                    &&& spec_free_slot(
                        tape.spec_cells(),
                        old(self)@,
                        tape.spec_cells().len() as nat,
                    ) == Some(a as int)
                    &&& final(self)@ == old(self)@.push((name@, a as int))
                },
                None => {
                    &&& spec_free_slot(
                        tape.spec_cells(),
                        old(self)@,
                        tape.spec_cells().len() as nat,
                    ) == None::<int>
                    &&& final(self)@ == old(self)@
                },
            },
    {
        let mut below: usize = tape.size();
        while below > 0
            invariant
                below <= tape.spec_cells().len(),
                spec_free_slot(tape.spec_cells(), self@, tape.spec_cells().len() as nat)
                    == spec_free_slot(tape.spec_cells(), self@, below as nat),
                self == old(self),
            decreases below,
        {
            let a = below - 1;
            if tape.get_value_at_index(a) == 0 && !self.contains_address(a) {
                let ghost prev = self@;
                self.entries.push((clone_bytes(name), a));
                proof {
                    assert(self@ =~= prev.push((name@, a as int)));
                }
                return Some(a);
            }
            below = a;
        }
        None
    }

    /// Adding a pair whose name is unbound and whose address is unclaimed
    /// keeps the pairing unique in both directions.
    pub proof fn lemma_push_preserves_wf(m: Seq<(Seq<u8>, int)>, name: Seq<u8>, addr: int)
        requires
            alias_wf(m),
            alias_lookup(m, name) == None::<int>,
            !alias_claimed(m, addr),
        ensures
            alias_wf(m.push((name, addr))),
    {
        lemma_lookup_none_no_name(m, name);
        let m2 = m.push((name, addr));
        assert forall|i: int, j: int|
            0 <= i < m2.len() && 0 <= j < m2.len() && i != j implies m2[i].0 != m2[j].0
            && m2[i].1 != m2[j].1 by {
            if i < m.len() && j < m.len() {
                assert(m2[i] == m[i] && m2[j] == m[j]);
            } else if i < m.len() {
                assert(m2[j] == (name, addr) && m2[i] == m[i]);
            } else {
                assert(m2[i] == (name, addr) && m2[j] == m[j]);
            }
        }
    }
}

/// A fresh copy of a byte vector.
pub fn clone_bytes(v: &Vec<u8>) -> (r: Vec<u8>)
    ensures
        r@ == v@,
{
    let n = v.len();
    let mut out: Vec<u8> = Vec::new();
    let mut i: usize = 0;
    while i < n
        invariant
            i <= n,
            v@.len() == n,
            out@ == v@.subrange(0, i as int),
        decreases n - i,
    {
        out.push(v[i]);
        i += 1;
        proof {
            assert(out@ =~= v@.subrange(0, i as int));
        }
    }
    proof {
        assert(out@ =~= v@);
    }
    out
}

/// A name that `alias_lookup` fails to find appears in no binding.
pub proof fn lemma_lookup_none_no_name(m: Seq<(Seq<u8>, int)>, name: Seq<u8>)
    requires
        alias_lookup(m, name) == None::<int>,
    ensures
        forall|i: int| 0 <= i < m.len() ==> #[trigger] m[i].0 != name,
    decreases m,
{
    if m.len() > 0 {
        lemma_lookup_none_no_name(m.drop_first(), name);
        assert forall|i: int| 0 <= i < m.len() implies #[trigger] m[i].0 != name by {
            if i > 0 {
                assert(m.drop_first()[i - 1] == m[i]);
            }
        }
    }
}

/// A found binding is a real entry of the table.
pub proof fn lemma_lookup_some_claimed(m: Seq<(Seq<u8>, int)>, name: Seq<u8>)
    ensures
        match alias_lookup(m, name) {
            Some(a) => exists|i: int|
                0 <= i < m.len() && m[i] == (name, a),
            None => true,
        },
    decreases m,
{
    if m.len() > 0 && m[0].0 != name {
        lemma_lookup_some_claimed(m.drop_first(), name);
        if let Some(a) = alias_lookup(m.drop_first(), name) {
            let i = choose|i: int| 0 <= i < m.drop_first().len() && m.drop_first()[i] == (name, a);
            assert(m[i + 1] == (name, a));
        }
    }
}

} // verus!
