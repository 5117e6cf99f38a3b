use vstd::prelude::*;
use vstd::pervasive::VecAdditionalExecFns;

use crate::address::Address;
use crate::bits::{lemma_or_assoc, lemma_or_nonzero, lemma_or_zero, lemma_shl_nonzero};
use crate::errors::Error;
use crate::register::{
    reg_valid, register_next, register_outcome, unregister_next, RegView, Register,
};

verus! {

/// One entity record: a composite bitmask together with the component
/// addresses that were actually incorporated when it was spawned.
#[derive(Debug)]
pub struct Entity {
    /// The entity id, assigned from the world's counter and never reused.
    pub id: u128,
    /// The bitwise OR of the bits of the components incorporated at spawn.
    pub bitmask: u128,
    /// The incorporated component addresses, in spawn order.
    pub components: Vec<Address>,
}

/// The mathematical model of an [`Entity`].
#[verifier::ext_equal]
pub struct EntityView {
    pub id: u128,
    pub bitmask: u128,
    pub components: Seq<Address>,
}

impl View for Entity {
    type V = EntityView;

    open spec fn view(&self) -> EntityView {
        EntityView { id: self.id, bitmask: self.bitmask, components: self.components@ }
    }
}

/// One system registration: a handler address filed under the exact query
/// bitmask it declared interest in.
#[derive(Clone, Copy, Debug)]
pub struct SystemEntry {
    pub query: u128,
    pub handler: Address,
}

/// The singleton world: the entity table and the system registry of one
/// deployment.
#[derive(Debug)]
pub struct World {
    /// Immutable human label, chosen at creation.
    pub name: String,
    /// Monotonically increasing entity id counter; starts at 0, never reused.
    pub counter: u128,
    /// The entity table. Entity ids are assigned consecutively from 1.
    pub entities: Vec<Entity>,
    /// The system registry: at most one handler per query bitmask.
    pub systems: Vec<SystemEntry>,
}

/// The mathematical model of a [`World`].
#[verifier::ext_equal]
pub struct WorldView {
    pub name: Seq<char>,
    pub counter: u128,
    pub entities: Seq<EntityView>,
    pub systems: Seq<SystemEntry>,
}

impl View for World {
    type V = WorldView;

    open spec fn view(&self) -> WorldView {
        WorldView {
            name: self.name@,
            counter: self.counter,
            entities: self.entities@.map_values(|e: Entity| e@),
            systems: self.systems@,
        }
    }
}

/// Well-formedness of a world model: the entity table holds exactly the
/// ids 1 through `counter` in order, and no query bitmask is registered
/// twice.
pub open spec fn world_valid(w: WorldView) -> bool {
    &&& w.entities.len() == w.counter
    &&& forall|i: int| 0 <= i < w.entities.len() ==> (#[trigger] w.entities[i]).id == i + 1
    &&& forall|i: int, j: int|
        0 <= i < j < w.systems.len() ==> w.systems[i].query != w.systems[j].query
}

/// The system registry after an upsert: the first entry under the same
/// query is replaced in place, and a new query is appended.
pub open spec fn systems_upsert(s: Seq<SystemEntry>, q: u128, h: Address) -> Seq<SystemEntry>
    decreases s.len(),
{
    if s.len() == 0 {
        seq![SystemEntry { query: q, handler: h }]
    } else if s[0].query == q {
        seq![SystemEntry { query: q, handler: h }] + s.drop_first()
    } else {
        seq![s[0]] + systems_upsert(s.drop_first(), q, h)
    }
}

/// The system registry after a removal: the first entry under the query
/// leaves, and an absent query changes nothing.
pub open spec fn systems_remove(s: Seq<SystemEntry>, q: u128) -> Seq<SystemEntry>
    decreases s.len(),
{
    if s.len() == 0 {
        s
    } else if s[0].query == q {
        s.drop_first()
    } else {
        seq![s[0]] + systems_remove(s.drop_first(), q)
    }
}

/// The handler registered under a query bitmask, if any.
pub open spec fn systems_lookup(s: Seq<SystemEntry>, q: u128) -> Option<Address>
    decreases s.len(),
{
    if s.len() == 0 {
        None
    } else if s[0].query == q {
        Some(s[0].handler)
    } else {
        systems_lookup(s.drop_first(), q)
    }
}

/// The outcome of running a spawn's component list through the register,
/// left to right.
#[verifier::ext_equal]
pub struct SpawnFold {
    /// False when some component hit the capacity failure.
    pub ok: bool,
    /// The register after every attempted registration.
    pub reg: RegView,
    /// The OR of the bits of the newly registered components.
    pub bitmap: u128,
    /// The components that were newly registered, in order.
    pub filtered: Seq<Address>,
}

/// Runs a component list through the register, left to right: an address
/// that already owns a bit is skipped, a new address is registered and
/// contributes its bit to the composite bitmask, and a capacity failure
/// marks the whole fold as failed.
pub open spec fn spawn_fold(r: RegView, comps: Seq<Address>) -> SpawnFold
    decreases comps.len(),
{
    if comps.len() == 0 {
        SpawnFold { ok: true, reg: r, bitmap: 0, filtered: Seq::empty() }
    } else {
        match register_outcome(r, comps[0]) {
            Ok(Some(b)) => {
                let rest = spawn_fold(register_next(r, comps[0]), comps.drop_first());
                SpawnFold {
                    ok: rest.ok,
                    reg: rest.reg,
                    bitmap: b | rest.bitmap,
                    filtered: seq![comps[0]] + rest.filtered,
                }
            },
            Ok(None) => spawn_fold(r, comps.drop_first()),
            Err(_) => SpawnFold { ok: false, reg: r, bitmap: 0, filtered: Seq::empty() },
        }
    }
}

/// The world after a spawn whose fold succeeded: when nothing was newly
/// registered the world is unchanged and no entity id is consumed;
/// otherwise the next id is allocated and the new record appended.
pub open spec fn world_after_spawn(w: WorldView, f: SpawnFold) -> WorldView {
    if f.filtered.len() == 0 {
        w
    } else {
        WorldView {
            name: w.name,
            counter: (w.counter + 1) as u128,
            entities: w.entities.push(
                EntityView {
                    id: (w.counter + 1) as u128,
                    bitmask: f.bitmap,
                    components: f.filtered,
                },
            ),
            systems: w.systems,
        }
    }
}

impl World {
    /// A fresh world under the given name: no entities, no systems, and
    /// an entity id counter at zero.
    pub fn new(name: String) -> (w: World)
        ensures
            w@ == (WorldView {
                name: name@,
                counter: 0,
                entities: Seq::empty(),
                systems: Seq::empty(),
            }),
            world_valid(w@),
    {
        let w = World { name, counter: 0, entities: Vec::new(), systems: Vec::new() };
        assert(w@ =~= WorldView {
            name: w.name@,
            counter: 0,
            entities: Seq::empty(),
            systems: Seq::empty(),
        });
        w
    }

    /// Decide well-formedness, for callers that obtained a world from
    /// outside and must not feed an ill-formed one to the operations.
    pub fn is_well_formed(&self) -> (b: bool)
        ensures
            b == world_valid(self@),
    {
        if self.counter != self.entities.len() as u128 {
            return false;
        }
        let mut i: usize = 0;
        while i < self.entities.len()
            invariant
                i <= self.entities.len(),
                forall|k: int| 0 <= k < i ==> (#[trigger] self.entities@[k]).id == k + 1,
            decreases self.entities.len() - i,
        {
            if self.entities[i].id != (i as u128) + 1 {
                assert(self@.entities == self.entities@.map_values(|e: Entity| e@));
                assert(self@.entities[i as int] == self.entities@[i as int]@);
                assert(self@.entities[i as int].id != i + 1);
                return false;
            }
            i += 1;
        }
        assert(self@.entities == self.entities@.map_values(|e: Entity| e@));
        assert forall|k: int| 0 <= k < self@.entities.len() implies (#[trigger] self@.entities[k]).id
            == k + 1 by {
            assert(self@.entities[k] == self.entities@[k]@);
        }
        let mut p: usize = 0;
        while p < self.systems.len()
            invariant
                p <= self.systems.len(),
                forall|x: int, y: int|
                    0 <= x < y < self.systems@.len() && x < p ==> self.systems@[x].query
                        != self.systems@[y].query,
            decreases self.systems.len() - p,
        {
            let mut q: usize = p + 1;
            while q < self.systems.len()
                invariant
                    p < q,
                    q <= self.systems.len(),
                    p < self.systems.len(),
                    forall|y: int|
                        p < y < q ==> self.systems@[p as int].query != self.systems@[y].query,
                decreases self.systems.len() - q,
            {
                if self.systems[p].query == self.systems[q].query {
                    assert(self@.systems == self.systems@);
                    assert(self@.systems[p as int].query == self@.systems[q as int].query);
                    return false;
                }
                q += 1;
            }
            p += 1;
        }
        assert(self@.systems == self.systems@);
        true
    }

    /// Spawn an entity from a list of component addresses.
    ///
    /// Each address is registered in order; the addresses that yield a bit
    /// are collected and their bits OR'ed into a composite bitmask. If at
    /// least one address yielded a bit, a new entity id is allocated and
    /// the record stored, and `true` is returned. If none did, the world
    /// is unchanged, no id is consumed, and `false` is returned. A
    /// capacity failure aborts with the world unchanged; the register is
    /// then left to the caller to restore.
    pub fn spawn(&mut self, reg: &mut Register, components: &Vec<Address>) -> (r: Result<
        bool,
        Error,
    >)
        requires
            world_valid(old(self)@),
            reg_valid(old(reg)@),
        ensures
            world_valid(final(self)@),
            reg_valid(final(reg)@),
            ({
                let f = spawn_fold(old(reg)@, components@);
                &&& (r is Ok <==> f.ok)
                &&& f.ok ==> {
                    &&& final(reg)@ == f.reg
                    &&& r == Ok::<bool, Error>(f.filtered.len() > 0)
                    &&& final(self)@ == world_after_spawn(old(self)@, f)
                }
                &&& !f.ok ==> {
                    &&& r == Err::<bool, Error>(Error::RegisterFull)
                    &&& final(self)@ == old(self)@
                }
            }),
    {
        let ghost r0 = reg@;
        let ghost whole = spawn_fold(r0, components@);
        let mut bitmap: u128 = 0;
        let mut filtered: Vec<Address> = Vec::new();
        let mut i: usize = 0;
        proof {
            assert(components@.skip(0) =~= components@);
            lemma_or_zero(whole.bitmap);
            assert(Seq::<Address>::empty() + whole.filtered =~= whole.filtered);
        }
        while i < components.len()
            invariant
                i <= components.len(),
                reg_valid(reg@),
                *self == *old(self),
                world_valid(old(self)@),
                r0 == old(reg)@,
                whole == spawn_fold(r0, components@),
                ({
                    let rem = spawn_fold(reg@, components@.skip(i as int));
                    &&& whole.ok == rem.ok
                    &&& whole.reg == rem.reg
                    &&& whole.bitmap == bitmap | rem.bitmap
                    &&& whole.filtered == filtered@ + rem.filtered
                }),
                bitmap == 0 <==> filtered@.len() == 0,
            decreases components.len() - i,
        {
            let ghost pre = reg@;
            let ghost suffix = components@.skip(i as int);
            proof {
                assert(suffix[0] == components@[i as int]);
                assert(suffix.drop_first() =~= components@.skip(i as int + 1));
            }
            let c = components[i];
            let step = reg.register(c);
            match step {
                Ok(Some(b)) => {
                    proof {
                        let rest = spawn_fold(reg@, components@.skip(i as int + 1));
                        assert(spawn_fold(pre, suffix) == SpawnFold {
                            ok: rest.ok,
                            reg: rest.reg,
                            bitmap: b | rest.bitmap,
                            filtered: seq![c] + rest.filtered,
                        });
                        lemma_or_assoc(bitmap, b, rest.bitmap);
                        assert(filtered@ + (seq![c] + rest.filtered) =~= filtered@.push(c)
                            + rest.filtered);
                        assert(b == 1u128 << ((pre.counter + 1) as u128));
                        lemma_shl_nonzero((pre.counter + 1) as u128);
                        lemma_or_nonzero(bitmap, b);
                    }
                    bitmap = bitmap | b;
                    filtered.push(c);
                },
                Ok(None) => {
                },
                Err(e) => {
                    proof {
                        assert(spawn_fold(pre, suffix).ok == false);
                        assert(!whole.ok);
                        assert(e == Error::RegisterFull);
                    }
                    return Err(e);
                },
            }
            i += 1;
        }
        proof {
            assert(components@.skip(i as int) =~= Seq::<Address>::empty());
            let rem = spawn_fold(reg@, components@.skip(i as int));
            assert(rem == SpawnFold { ok: true, reg: reg@, bitmap: 0, filtered: Seq::empty() });
            lemma_or_zero(bitmap);
            assert(filtered@ + Seq::<Address>::empty() =~= filtered@);
            assert(whole.ok);
            assert(whole.reg == reg@);
            assert(whole.bitmap == bitmap);
            assert(whole.filtered == filtered@);
        }
        if bitmap != 0 {
            let n = self.entities.len();
            proof {
                assert(self.counter == n);
                assert(self.counter < u128::MAX);
            }
            self.counter = self.counter + 1;
            let entity = Entity { id: self.counter, bitmask: bitmap, components: filtered };
            self.entities.push(entity);
            proof {
                assert(self.entities@.map_values(|e: Entity| e@) =~= old(
                    self,
                ).entities@.map_values(|e: Entity| e@).push(entity@));
                assert(self@ =~= world_after_spawn(old(self)@, whole));
            }
            Ok(true)
        } else {
            proof {
                assert(self@ =~= world_after_spawn(old(self)@, whole));
            }
            Ok(false)
        }
    }

    /// Despawn a component: the address is unregistered from the global
    /// register. No entity record is looked up or modified; stored
    /// bitmasks and component lists are immutable history.
    pub fn despawn(&self, reg: &mut Register, component: Address)
        requires
            reg_valid(old(reg)@),
        ensures
            reg_valid(final(reg)@),
            final(reg)@ == unregister_next(old(reg)@, component),
    {
        reg.unregister(component);
    }

    /// Register a handler under a query bitmask, replacing without warning
    /// whatever handler was registered under that exact bitmask before.
    pub fn add_system(&mut self, query: u128, system: Address)
        requires
            world_valid(old(self)@),
        ensures
            world_valid(final(self)@),
            final(self)@.systems == systems_upsert(old(self)@.systems, query, system),
            final(self)@.name == old(self)@.name,
            final(self)@.counter == old(self)@.counter,
            final(self)@.entities == old(self)@.entities,
    {
        let mut i: usize = 0;
        while i < self.systems.len()
            invariant
                i <= self.systems.len(),
                forall|k: int| 0 <= k < i ==> old(self).systems@[k].query != query,
                *self == *old(self),
                world_valid(old(self)@),
            decreases self.systems.len() - i,
        {
            if self.systems[i].query == query {
                let entry = SystemEntry { query, handler: system };
                self.systems.set(i, entry);
                proof {
                    let s = old(self).systems@;
                    let j = i as int;
                    lemma_systems_upsert_at(s, query, system, j);
                    assert(self.systems@ == s.update(j, entry));
                    assert forall|p: int, k: int|
                        0 <= p < k < self.systems@.len() implies self.systems@[p].query
                        != self.systems@[k].query by {
                        let w0 = old(self)@;
                        assert(w0.systems == s);
                        assert(w0.systems[p].query != w0.systems[k].query);
                        if p != j {
                            assert(self.systems@[p] == s[p]);
                        } else {
                            assert(self.systems@[p] == entry);
                        }
                        if k != j {
                            assert(self.systems@[k] == s[k]);
                        } else {
                            assert(self.systems@[k] == entry);
                        }
                        assert(s[j].query == query);
                    }
                }
                return;
            }
            i += 1;
        }
        let entry = SystemEntry { query, handler: system };
        self.systems.push(entry);
        proof {
            let s = old(self).systems@;
            lemma_systems_upsert_absent(s, query, system);
            assert(self.systems@ == s.push(entry));
            assert forall|p: int, k: int|
                0 <= p < k < self.systems@.len() implies self.systems@[p].query
                != self.systems@[k].query by {
                let w0 = old(self)@;
                assert(w0.systems == s);
                assert(self.systems@[p] == s[p]);
                if k < s.len() {
                    assert(w0.systems[p].query != w0.systems[k].query);
                    assert(self.systems@[k] == s[k]);
                } else {
                    assert(s[p].query != query);
                    assert(self.systems@[k] == entry);
                }
            }
        }
    }

    /// Remove the handler under a query bitmask; removing an absent query
    /// is a silent no-op, so repeated calls are safe.
    pub fn remove_system(&mut self, query: u128)
        requires
            world_valid(old(self)@),
        ensures
            world_valid(final(self)@),
            final(self)@.systems == systems_remove(old(self)@.systems, query),
            final(self)@.name == old(self)@.name,
            final(self)@.counter == old(self)@.counter,
            final(self)@.entities == old(self)@.entities,
    {
        let mut i: usize = 0;
        while i < self.systems.len()
            invariant
                i <= self.systems.len(),
                forall|k: int| 0 <= k < i ==> old(self).systems@[k].query != query,
                *self == *old(self),
                world_valid(old(self)@),
            decreases self.systems.len() - i,
        {
            if self.systems[i].query == query {
                self.systems.remove(i);
                proof {
                    let s = old(self).systems@;
                    let j = i as int;
                    lemma_systems_remove_at(s, query, j);
                    s.remove_ensures(j);
                    assert(self.systems@ == s.remove(j));
                    assert forall|p: int, k: int|
                        0 <= p < k < self.systems@.len() implies self.systems@[p].query
                        != self.systems@[k].query by {
                        let p2: int = if p < j { p } else { p + 1 };
                        let k2: int = if k < j { k } else { k + 1 };
                        let w0 = old(self)@;
                        assert(w0.systems == s);
                        assert(w0.systems[p2].query != w0.systems[k2].query);
                        if p < j {
                            assert(self.systems@[p] == s[p]);
                        } else {
                            assert(self.systems@[p] == s[p + 1]);
                        }
                        if k < j {
                            assert(self.systems@[k] == s[k]);
                        } else {
                            assert(self.systems@[k] == s[k + 1]);
                        }
                    }
                }
                return;
            }
            i += 1;
        }
        proof {
            lemma_systems_remove_absent(old(self).systems@, query);
        }
    }
}

/// An upsert that hits the first matching entry replaces it in place.
proof fn lemma_systems_upsert_at(s: Seq<SystemEntry>, q: u128, h: Address, j: int)
    requires
        0 <= j < s.len(),
        s[j].query == q,
        forall|k: int| 0 <= k < j ==> s[k].query != q,
    ensures
        systems_upsert(s, q, h) == s.update(j, SystemEntry { query: q, handler: h }),
    decreases j,
{
    if j == 0 {
        assert(seq![SystemEntry { query: q, handler: h }] + s.drop_first() =~= s.update(
            0,
            SystemEntry { query: q, handler: h },
        ));
    } else {
        lemma_systems_upsert_at(s.drop_first(), q, h, j - 1);
        assert(seq![s[0]] + s.drop_first().update(j - 1, SystemEntry { query: q, handler: h })
            =~= s.update(j, SystemEntry { query: q, handler: h }));
    }
}

/// An upsert under a query that is not registered appends.
proof fn lemma_systems_upsert_absent(s: Seq<SystemEntry>, q: u128, h: Address)
    requires
        forall|k: int| 0 <= k < s.len() ==> s[k].query != q,
    ensures
        systems_upsert(s, q, h) == s.push(SystemEntry { query: q, handler: h }),
    decreases s.len(),
{
    if s.len() == 0 {
        assert(seq![SystemEntry { query: q, handler: h }] =~= s.push(
            SystemEntry { query: q, handler: h },
        ));
    } else {
        lemma_systems_upsert_absent(s.drop_first(), q, h);
        assert(seq![s[0]] + s.drop_first().push(SystemEntry { query: q, handler: h }) =~= s.push(
            SystemEntry { query: q, handler: h },
        ));
    }
}

/// A removal that hits the first matching entry deletes exactly it.
proof fn lemma_systems_remove_at(s: Seq<SystemEntry>, q: u128, j: int)
    requires
        0 <= j < s.len(),
        s[j].query == q,
        forall|k: int| 0 <= k < j ==> s[k].query != q,
    ensures
        systems_remove(s, q) == s.remove(j),
    decreases j,
{
    if j == 0 {
        assert(s.drop_first() =~= s.remove(0));
    } else {
        lemma_systems_remove_at(s.drop_first(), q, j - 1);
        assert(seq![s[0]] + s.drop_first().remove(j - 1) =~= s.remove(j));
    }
}

/// A removal under a query that is not registered changes nothing.
proof fn lemma_systems_remove_absent(s: Seq<SystemEntry>, q: u128)
    requires
        forall|k: int| 0 <= k < s.len() ==> s[k].query != q,
    ensures
        systems_remove(s, q) == s,
    decreases s.len(),
{
    if s.len() > 0 {
        lemma_systems_remove_absent(s.drop_first(), q);
        assert(seq![s[0]] + s.drop_first() =~= s);
    }
}

} // verus!
