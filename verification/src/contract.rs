use vstd::prelude::*;

use crate::address::Address;
use crate::errors::Error;
use crate::register::{reg_empty, reg_valid, unregister_next, RegView, Register};
use crate::world::{
    spawn_fold, systems_remove, systems_upsert, world_after_spawn, world_valid, World, WorldView,
};

verus! {

/// The persisted state of one deployment: the genesis flag, the singleton
/// world, and the singleton component register.
///
/// Each operation is a total function from this state and its input to a
/// new state and an output, or a fatal failure that leaves the state
/// unchanged. The surrounding (unverified) entry-point layer loads this
/// state from its store before an operation and writes it back after, so
/// whole-call atomicity is the store's concern, not this type's.
#[derive(Debug)]
pub struct Contract {
    /// Set once by [`Contract::genesis`] and never cleared.
    pub genesis: bool,
    /// The world; meaningless (and unreadable) until genesis has run.
    pub world: World,
    /// The register. It exists once its counter is positive: it is
    /// created by the first registration, which sets the counter to one,
    /// and the counter never returns to zero.
    pub register: Register,
}

/// The mathematical model of a [`Contract`].
#[verifier::ext_equal]
pub struct ContractView {
    pub genesis: bool,
    pub world: WorldView,
    pub register: RegView,
}

impl View for Contract {
    type V = ContractView;

    open spec fn view(&self) -> ContractView {
        ContractView { genesis: self.genesis, world: self.world@, register: self.register@ }
    }
}

/// Well-formedness of the whole persisted state.
pub open spec fn contract_valid(c: ContractView) -> bool {
    &&& world_valid(c.world)
    &&& reg_valid(c.register)
}

impl Contract {
    /// The state of a fresh deployment: genesis has not run, the world is
    /// an unreadable placeholder, and nothing was ever registered.
    pub fn new() -> (c: Contract)
        ensures
            contract_valid(c@),
            !c.genesis,
            c@.world == (WorldView {
                name: Seq::<char>::empty(),
                counter: 0,
                entities: Seq::<crate::world::EntityView>::empty(),
                systems: Seq::<crate::world::SystemEntry>::empty(),
            }),
            c@.register == reg_empty(),
    {
        Contract { genesis: false, world: World::new(String::new()), register: Register::new() }
    }

    /// Decide well-formedness of the whole persisted state. The
    /// surrounding entry-point layer checks this after loading state from
    /// its store, before handing the state to any operation.
    pub fn is_well_formed(&self) -> (b: bool)
        ensures
            b == contract_valid(self@),
    {
        self.world.is_well_formed() && self.register.is_well_formed()
    }

    /// Whether genesis has run.
    pub fn check_genesis(&self) -> (b: bool)
        ensures
            b == self.genesis,
    {
        self.genesis
    }

    /// The genesis of the world, run once, in which the world gets its
    /// name. Every later call is a silent no-op.
    pub fn genesis(&mut self, name: String)
        requires
            contract_valid(old(self)@),
        ensures
            contract_valid(final(self)@),
            old(self).genesis ==> final(self)@ == old(self)@,
            !old(self).genesis ==> final(self)@ == (ContractView {
                genesis: true,
                world: WorldView {
                    name: name@,
                    counter: 0,
                    entities: Seq::empty(),
                    systems: Seq::empty(),
                },
                register: old(self)@.register,
            }),
    {
        if !self.genesis {
            self.genesis = true;
            self.world = World::new(name);
        }
    }

    /// Read the world; fails if genesis has not run.
    pub fn get_world(&self) -> (r: Result<&World, Error>)
        ensures
            r is Ok <==> self.genesis,
            r matches Ok(w) ==> w@ == self@.world,
            !self.genesis ==> r == Err::<&World, Error>(Error::NoWorld),
    {
        if self.genesis {
            Ok(&self.world)
        } else {
            Err(Error::NoWorld)
        }
    }

    /// Spawn an entity in the world from a list of component addresses.
    ///
    /// A no-op before genesis. Otherwise the list runs through the
    /// register and the world stores a new entity exactly when at least
    /// one address was newly registered. A capacity failure aborts the
    /// whole operation with no state change at all.
    pub fn spawn(&mut self, components: Vec<Address>) -> (r: Result<(), Error>)
        requires
            contract_valid(old(self)@),
        ensures
            contract_valid(final(self)@),
            !old(self).genesis ==> r == Ok::<(), Error>(()) && final(self)@ == old(self)@,
            old(self).genesis ==> ({
                let f = spawn_fold(old(self)@.register, components@);
                &&& (r is Ok <==> f.ok)
                &&& f.ok ==> r == Ok::<(), Error>(()) && final(self)@ == (ContractView {
                    genesis: true,
                    world: world_after_spawn(old(self)@.world, f),
                    register: f.reg,
                })
                &&& !f.ok ==> r == Err::<(), Error>(Error::RegisterFull) && final(self)@ == old(
                    self,
                )@
            }),
    {
        if !self.genesis {
            return Ok(());
        }
        let backup = self.register.duplicate();
        let step = self.world.spawn(&mut self.register, &components);
        match step {
            Ok(_created) => {
                proof {
                    assert(self@ =~= ContractView {
                        genesis: true,
                        world: world_after_spawn(
                            old(self)@.world,
                            spawn_fold(old(self)@.register, components@),
                        ),
                        register: spawn_fold(old(self)@.register, components@).reg,
                    });
                }
                Ok(())
            },
            Err(e) => {
                self.register = backup;
                proof {
                    assert(self@ =~= old(self)@);
                }
                Err(e)
            },
        }
    }

    /// Despawn a component: the address is removed from the global
    /// register, and nothing else changes. A no-op before genesis; a
    /// fatal failure when no register exists yet; stored entity records
    /// are never altered.
    pub fn despawn(&mut self, component: Address) -> (r: Result<(), Error>)
        requires
            contract_valid(old(self)@),
        ensures
            contract_valid(final(self)@),
            !old(self).genesis ==> r == Ok::<(), Error>(()) && final(self)@ == old(self)@,
            old(self).genesis && old(self).register.counter == 0 ==> r == Err::<(), Error>(
                Error::NoRegister,
            ) && final(self)@ == old(self)@,
            old(self).genesis && old(self).register.counter > 0 ==> r == Ok::<(), Error>(())
                && final(self)@ == (ContractView {
                genesis: old(self).genesis,
                world: old(self)@.world,
                register: unregister_next(old(self)@.register, component),
            }),
    {
        if !self.genesis {
            return Ok(());
        }
        if self.register.counter == 0 {
            return Err(Error::NoRegister);
        }
        self.world.despawn(&mut self.register, component);
        proof {
            assert(self@ =~= ContractView {
                genesis: old(self).genesis,
                world: old(self)@.world,
                register: unregister_next(old(self)@.register, component),
            });
        }
        Ok(())
    }

    /// Register a handler under a query bitmask, replacing any earlier
    /// handler under that exact bitmask. A no-op before genesis.
    pub fn add_system(&mut self, query: u128, system: Address)
        requires
            contract_valid(old(self)@),
        ensures
            contract_valid(final(self)@),
            !old(self).genesis ==> final(self)@ == old(self)@,
            old(self).genesis ==> {
                &&& final(self).genesis
                &&& final(self)@.world.systems == systems_upsert(
                    old(self)@.world.systems,
                    query,
                    system,
                )
                &&& final(self)@.world.name == old(self)@.world.name
                &&& final(self)@.world.counter == old(self)@.world.counter
                &&& final(self)@.world.entities == old(self)@.world.entities
                &&& final(self)@.register == old(self)@.register
            },
    {
        if self.genesis {
            self.world.add_system(query, system);
        }
    }

    /// Remove the handler under a query bitmask; removing an absent query
    /// is a silent no-op. A no-op before genesis.
    pub fn remove_system(&mut self, query: u128)
        requires
            contract_valid(old(self)@),
        ensures
            contract_valid(final(self)@),
            !old(self).genesis ==> final(self)@ == old(self)@,
            old(self).genesis ==> {
                &&& final(self).genesis
                &&& final(self)@.world.systems == systems_remove(old(self)@.world.systems, query)
                &&& final(self)@.world.name == old(self)@.world.name
                &&& final(self)@.world.counter == old(self)@.world.counter
                &&& final(self)@.world.entities == old(self)@.world.entities
                &&& final(self)@.register == old(self)@.register
            },
    {
        if self.genesis {
            self.world.remove_system(query);
        }
    }
}

} // verus!
