use vstd::prelude::*;

use crate::address::Address;
use crate::errors::Error;

verus! {

/// The bitmap is one `u128`, so 127 is the highest bit index that can ever
/// be assigned. Index 0 is skipped by the pre-increment allocation scheme,
/// which leaves 127 usable component slots over the lifetime of a world.
pub const MAX_BIT: u128 = 127;

/// The mathematical model of a [`Register`].
#[verifier::ext_equal]
pub struct RegView {
    /// The bit index most recently assigned; 0 when nothing was ever assigned.
    pub counter: u128,
    /// The currently registered component addresses, in registration order.
    pub addresses: Seq<Address>,
    /// The audit trail: every assignment ever made, as (bit index, address).
    pub map: Seq<(u128, Address)>,
}

/// The component register: assigns each newly seen component address a
/// unique bit index in a fixed-width bitmap, tracks the registered
/// addresses, and supports de-registration.
///
/// Bit indices are strictly increasing and never reused, even after an
/// address is unregistered: the allocator is monotonic, not a free-list.
#[derive(Debug)]
pub struct Register {
    /// Incremented before each new assignment, so the first assigned bit
    /// index is 1 and bit 0 of the bitmap is never assigned.
    pub counter: u128,
    /// Registered addresses, append-only on registration, with individual
    /// removal on de-registration.
    pub addresses: Vec<Address>,
    /// Maps each assigned bit index to the address it was assigned to;
    /// never pruned on de-registration.
    pub map: Vec<(u128, Address)>,
}

impl View for Register {
    type V = RegView;

    open spec fn view(&self) -> RegView {
        RegView { counter: self.counter, addresses: self.addresses@, map: self.map@ }
    }
}

/// The register that exists before anything was ever registered.
pub open spec fn reg_empty() -> RegView {
    RegView { counter: 0, addresses: Seq::empty(), map: Seq::empty() }
}

/// Well-formedness of a register model: the counter never leaves the
/// bitmap, the audit trail holds exactly the assignments 1 through
/// `counter` in order, and no address is registered twice.
pub open spec fn reg_valid(r: RegView) -> bool {
    &&& r.counter <= MAX_BIT
    &&& r.map.len() == r.counter
    &&& forall|i: int| 0 <= i < r.map.len() ==> (#[trigger] r.map[i]).0 == i + 1
    &&& r.addresses.no_duplicates()
}

/// What one registration attempt returns: no bit when the address is
/// already registered, the capacity failure when the bitmap is exhausted,
/// and otherwise the single bit at the next index.
pub open spec fn register_outcome(r: RegView, a: Address) -> Result<Option<u128>, Error> {
    if r.addresses.contains(a) {
        Ok(None)
    } else if r.counter >= MAX_BIT {
        Err(Error::RegisterFull)
    } else {
        Ok(Some(1u128 << ((r.counter + 1) as u128)))
    }
}

/// The register state after one registration attempt. Only a successful
/// new assignment mutates anything.
pub open spec fn register_next(r: RegView, a: Address) -> RegView {
    if r.addresses.contains(a) || r.counter >= MAX_BIT {
        r
    } else {
        RegView {
            counter: (r.counter + 1) as u128,
            addresses: r.addresses.push(a),
            map: r.map.push(((r.counter + 1) as u128, a)),
        }
    }
}

/// The register state after unregistering `a`: the first occurrence of `a`
/// leaves the address list, while the counter and the audit trail stay.
pub open spec fn unregister_next(r: RegView, a: Address) -> RegView {
    RegView { counter: r.counter, addresses: r.addresses.remove_value(a), map: r.map }
}

/// One registration attempt preserves well-formedness.
pub proof fn lemma_register_next_valid(r: RegView, a: Address)
    requires
        reg_valid(r),
    ensures
        reg_valid(register_next(r, a)),
{
    if !r.addresses.contains(a) && r.counter < MAX_BIT {
        let n = register_next(r, a);
        assert forall|i: int, j: int|
            0 <= i < j < n.addresses.len() implies n.addresses[i] != n.addresses[j] by {
            if j < r.addresses.len() {
            } else {
                assert(n.addresses[i] == r.addresses[i]);
                assert(n.addresses[j] == a);
                assert(!r.addresses.contains(a));
            }
        }
    }
}

/// De-registration preserves well-formedness.
pub proof fn lemma_unregister_next_valid(r: RegView, a: Address)
    requires
        reg_valid(r),
    ensures
        reg_valid(unregister_next(r, a)),
{
    r.addresses.index_of_first_ensures(a);
    match r.addresses.index_of_first(a) {
        Some(i) => {
            let t = r.addresses.remove(i);
            r.addresses.remove_ensures(i);
            assert forall|p: int, q: int| 0 <= p < q < t.len() implies t[p] != t[q] by {
                if q < i {
                } else if p < i {
                    assert(t[q] == r.addresses[q + 1]);
                } else {
                    assert(t[p] == r.addresses[p + 1]);
                    assert(t[q] == r.addresses[q + 1]);
                }
            }
        },
        None => {},
    }
}

/// Linear membership test; registration order is irrelevant to it.
fn contains_address(v: &Vec<Address>, a: Address) -> (b: bool)
    ensures
        b == v@.contains(a),
{
    let mut i: usize = 0;
    while i < v.len()
        invariant
            i <= v.len(),
            forall|k: int| 0 <= k < i ==> v@[k] != a,
        decreases v.len() - i,
    {
        if v[i] == a {
            assert(v@.contains(a)) by {
                assert(v@[i as int] == a);
            }
            return true;
        }
        i += 1;
    }
    false
}

/// An element-for-element copy of a vector of plain values.
fn vec_copy<T: Copy>(v: &Vec<T>) -> (r: Vec<T>)
    ensures
        r@ == v@,
{
    let mut r: Vec<T> = Vec::new();
    let mut i: usize = 0;
    while i < v.len()
        invariant
            i <= v.len(),
            r@ == v@.take(i as int),
        decreases v.len() - i,
    {
        r.push(v[i]);
        i += 1;
        assert(r@ =~= v@.take(i as int));
    }
    assert(r@ =~= v@);
    r
}

impl Register {
    /// A register in which nothing was ever registered.
    pub fn new() -> (r: Register)
        ensures
            r@ == reg_empty(),
            reg_valid(r@),
    {
        let r = Register { counter: 0, addresses: Vec::new(), map: Vec::new() };
        assert(r@ =~= reg_empty());
        r
    }

    /// An exact copy of this register.
    pub fn duplicate(&self) -> (r: Register)
        ensures
            r@ == self@,
    {
        let r = Register {
            counter: self.counter,
            addresses: vec_copy(&self.addresses),
            map: vec_copy(&self.map),
        };
        assert(r@ =~= self@);
        r
    }

    /// Decide well-formedness, for callers that obtained a register from
    /// outside and must not feed an ill-formed one to the operations.
    pub fn is_well_formed(&self) -> (b: bool)
        ensures
            b == reg_valid(self@),
    {
        if self.counter > MAX_BIT {
            return false;
        }
        if self.map.len() as u128 != self.counter {
            return false;
        }
        let mut i: usize = 0;
        while i < self.map.len()
            invariant
                i <= self.map.len(),
                forall|k: int| 0 <= k < i ==> (#[trigger] self.map@[k]).0 == k + 1,
            decreases self.map.len() - i,
        {
            if self.map[i].0 != (i as u128) + 1 {
                assert(self@.map == self.map@);
                assert(self@.map[i as int].0 != i + 1);
                return false;
            }
            i += 1;
        }
        assert(self@.map == self.map@);
        let mut p: usize = 0;
        while p < self.addresses.len()
            invariant
                p <= self.addresses.len(),
                forall|x: int, y: int|
                    0 <= x < y < self.addresses@.len() && x < p ==> self.addresses@[x]
                        != self.addresses@[y],
            decreases self.addresses.len() - p,
        {
            let mut q: usize = p + 1;
            while q < self.addresses.len()
                invariant
                    p < q,
                    q <= self.addresses.len(),
                    p < self.addresses.len(),
                    forall|y: int| p < y < q ==> self.addresses@[p as int] != self.addresses@[y],
                decreases self.addresses.len() - q,
            {
                if self.addresses[p] == self.addresses[q] {
                    assert(self@.addresses == self.addresses@);
                    assert(self@.addresses[p as int] == self@.addresses[q as int]);
                    assert(!self@.addresses.no_duplicates());
                    return false;
                }
                q += 1;
            }
            p += 1;
        }
        assert(self@.addresses == self.addresses@);
        assert(self@.addresses.no_duplicates());
        true
    }

    /// Register a component address.
    ///
    /// If the address is already registered this is a normal non-result:
    /// no bit is returned and nothing changes, so retries are safe. A new
    /// address is assigned the next bit index, pre-incremented, and the
    /// returned value is the single bit at that index. When the next index
    /// would leave the bitmap, the capacity failure is returned and
    /// nothing changes.
    pub fn register(&mut self, address: Address) -> (r: Result<Option<u128>, Error>)
        requires
            reg_valid(old(self)@),
        ensures
            reg_valid(final(self)@),
            final(self)@ == register_next(old(self)@, address),
            r == register_outcome(old(self)@, address),
    {
        proof {
            lemma_register_next_valid(old(self)@, address);
        }
        if contains_address(&self.addresses, address) {
            return Ok(None);
        }
        if self.counter >= MAX_BIT {
            return Err(Error::RegisterFull);
        }
        self.counter = self.counter + 1;
        self.addresses.push(address);
        self.map.push((self.counter, address));
        assert(self@ =~= register_next(old(self)@, address));
        Ok(Some(1u128 << self.counter))
    }

    /// Unregister a component address.
    ///
    /// The first occurrence of the address leaves the address list; the
    /// counter and the audit trail are untouched, so the freed bit index
    /// is never handed out again. Unregistering an absent address is a
    /// silent no-op, so repeated calls are safe.
    pub fn unregister(&mut self, address: Address)
        requires
            reg_valid(old(self)@),
        ensures
            reg_valid(final(self)@),
            final(self)@ == unregister_next(old(self)@, address),
    {
        proof {
            lemma_unregister_next_valid(old(self)@, address);
            old(self).addresses@.index_of_first_ensures(address);
        }
        let ghost first = old(self).addresses@.index_of_first(address);
        let mut i: usize = 0;
        while i < self.addresses.len()
            invariant
                i <= self.addresses.len(),
                forall|k: int| 0 <= k < i ==> self.addresses@[k] != address,
                *self == *old(self),
                reg_valid(old(self)@),
            decreases self.addresses.len() - i,
        {
            if self.addresses[i] == address {
                proof {
                    lemma_unregister_next_valid(old(self)@, address);
                    old(self).addresses@.index_of_first_ensures(address);
                    assert(self.addresses@[i as int] == address);
                    assert(self.addresses@.contains(address)) by {
                        assert(self.addresses@[i as int] == address);
                    }
                    match old(self).addresses@.index_of_first(address) {
                        Some(f) => {
                            assert(f == i as int);
                        },
                        None => {
                            assert(false);
                        },
                    }
                }
                self.addresses.remove(i);
                assert(self@ =~= unregister_next(old(self)@, address));
                return;
            }
            i += 1;
        }
        proof {
            lemma_unregister_next_valid(old(self)@, address);
            old(self).addresses@.index_of_first_ensures(address);
            assert(!self.addresses@.contains(address)) by {
                if self.addresses@.contains(address) {
                    let k = choose|k: int|
                        0 <= k < self.addresses@.len() && self.addresses@[k] == address;
                    assert(self.addresses@[k] != address);
                }
            }
            match old(self).addresses@.index_of_first(address) {
                Some(f) => {
                    assert(old(self).addresses@[f] == address);
                    assert(false);
                },
                None => {},
            }
            assert(self@ =~= unregister_next(old(self)@, address));
        }
    }
}

} // verus!
