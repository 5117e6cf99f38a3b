use ecs_registry::address::Address;
use ecs_registry::contract::Contract;
use ecs_registry::errors::Error;
use ecs_registry::register::Register;

#[test]
fn hello() {
    let contract = Contract::new();
    assert!(contract.is_well_formed());
}

#[test]
fn register_idempotent() {
    let mut reg = Register::new();
    let a = Address::new(1);
    assert_eq!(reg.register(a), Ok(Some(2)));
    assert_eq!(reg.register(a), Ok(None));
    assert_eq!(reg.counter, 1);
    assert_eq!(reg.addresses, vec![a]);
    assert_eq!(reg.map, vec![(1, a)]);
    // a third retry is just as safe
    assert_eq!(reg.register(a), Ok(None));
    assert_eq!(reg.counter, 1);
}

#[test]
fn allocation_monotonic() {
    let mut reg = Register::new();
    let mut last_bit: u128 = 1; // bit 0, which must never be issued
    for id in 0..10u64 {
        let bit = reg.register(Address::new(id)).unwrap().unwrap();
        assert!(bit > last_bit);
        assert_ne!(bit, 1, "bit 0 must never be issued");
        last_bit = bit;
    }
    assert_eq!(reg.counter, 10);
}

#[test]
fn register_capacity_exhaustion() {
    let mut reg = Register::new();
    for id in 0..127u64 {
        assert!(matches!(reg.register(Address::new(id)), Ok(Some(_))));
    }
    assert_eq!(reg.counter, 127);
    assert_eq!(reg.register(Address::new(1000)), Err(Error::RegisterFull));
    assert_eq!(reg.counter, 127, "a failed registration changes nothing");
    assert_eq!(reg.addresses.len(), 127);
}

#[test]
fn unregister_absent_is_noop() {
    let mut reg = Register::new();
    let a = Address::new(1);
    reg.register(a).unwrap();
    reg.unregister(Address::new(2));
    assert_eq!(reg.addresses, vec![a]);
    reg.unregister(a);
    assert_eq!(reg.addresses, Vec::<Address>::new());
    reg.unregister(a); // idempotent after the first removal
    assert_eq!(reg.addresses, Vec::<Address>::new());
    assert_eq!(reg.counter, 1, "the counter never rolls back");
    assert_eq!(reg.map, vec![(1, a)], "the audit trail is never pruned");
}

#[test]
fn genesis_scenario() {
    let mut c = Contract::new();
    assert_eq!(c.get_world().unwrap_err(), Error::NoWorld);

    c.genesis("alpha".to_string());
    {
        let w = c.get_world().unwrap();
        assert_eq!(w.name, "alpha");
        assert_eq!(w.counter, 0);
        assert_eq!(w.entities.len(), 0);
        assert_eq!(w.systems.len(), 0);
    }

    // a second genesis is a silent no-op
    c.genesis("beta".to_string());
    assert_eq!(c.get_world().unwrap().name, "alpha");

    let x = Address::new(10);
    let y = Address::new(11);
    c.spawn(vec![x, y]).unwrap();
    {
        let w = c.get_world().unwrap();
        assert_eq!(w.counter, 1);
        assert_eq!(w.entities.len(), 1);
        assert_eq!(w.entities[0].id, 1);
        assert_eq!(w.entities[0].bitmask, 2 | 4);
        assert_eq!(w.entities[0].components, vec![x, y]);
    }

    // x already owns a bit: no entity is created
    c.spawn(vec![x]).unwrap();
    {
        let w = c.get_world().unwrap();
        assert_eq!(w.counter, 1);
        assert_eq!(w.entities.len(), 1);
    }

    c.despawn(x).unwrap();
    assert!(!c.register.addresses.contains(&x));
    assert_eq!(c.get_world().unwrap().entities[0].bitmask, 6);
}

#[test]
fn or_composition() {
    let mut c = Contract::new();
    c.genesis("w".to_string());
    let a = Address::new(1);
    let b = Address::new(2);
    // a gets bit index 1 (mask 2) through a first entity
    c.spawn(vec![a]).unwrap();
    assert_eq!(c.get_world().unwrap().entities[0].bitmask, 2);
    // a is already registered elsewhere, b is new: only b is incorporated
    c.spawn(vec![a, b]).unwrap();
    let w = c.get_world().unwrap();
    assert_eq!(w.entities.len(), 2);
    assert_eq!(w.entities[1].id, 2);
    assert_eq!(w.entities[1].bitmask, 4);
    assert_eq!(w.entities[1].components, vec![b]);
}

#[test]
fn spawn_two_fresh_components() {
    let mut c = Contract::new();
    c.genesis("w".to_string());
    let a = Address::new(5);
    let b = Address::new(6);
    c.spawn(vec![a, b]).unwrap();
    let w = c.get_world().unwrap();
    assert_eq!(w.entities[0].bitmask, 2 | 4);
    assert_eq!(w.entities[0].components, vec![a, b]);
}

#[test]
fn noop_spawn() {
    let mut c = Contract::new();
    c.genesis("w".to_string());
    let a = Address::new(1);
    let b = Address::new(2);
    c.spawn(vec![a, b]).unwrap();
    // every address already registered elsewhere: no id, no entity
    c.spawn(vec![a, b]).unwrap();
    c.spawn(vec![b]).unwrap();
    c.spawn(vec![]).unwrap();
    let w = c.get_world().unwrap();
    assert_eq!(w.counter, 1);
    assert_eq!(w.entities.len(), 1);
}

#[test]
fn spawn_duplicate_in_one_call() {
    let mut c = Contract::new();
    c.genesis("w".to_string());
    let a = Address::new(1);
    // the duplicate succeeds only for its first occurrence
    c.spawn(vec![a, a]).unwrap();
    let w = c.get_world().unwrap();
    assert_eq!(w.entities.len(), 1);
    assert_eq!(w.entities[0].bitmask, 2);
    assert_eq!(w.entities[0].components, vec![a]);
}

#[test]
fn despawn_independence() {
    let mut c = Contract::new();
    c.genesis("w".to_string());
    let a = Address::new(1);
    c.spawn(vec![a]).unwrap();
    assert_eq!(c.get_world().unwrap().entities[0].bitmask, 2);

    c.despawn(a).unwrap();
    assert!(!c.register.addresses.contains(&a));

    // re-registration succeeds and issues a fresh bit
    c.spawn(vec![a]).unwrap();
    let w = c.get_world().unwrap();
    assert_eq!(w.entities.len(), 2);
    assert_eq!(w.entities[1].bitmask, 4, "the freed bit is never reused");
    // the old record is untouched history
    assert_eq!(w.entities[0].bitmask, 2);
    assert_eq!(w.entities[0].components, vec![a]);
}

#[test]
fn despawn_failures_and_noops() {
    let mut c = Contract::new();
    // before genesis every operation is a silent no-op
    assert_eq!(c.despawn(Address::new(1)), Ok(()));
    c.genesis("w".to_string());
    // after genesis but before any registration, the register is missing
    assert_eq!(c.despawn(Address::new(1)), Err(Error::NoRegister));
    // an empty spawn does not create the register either
    c.spawn(vec![]).unwrap();
    assert_eq!(c.despawn(Address::new(1)), Err(Error::NoRegister));
    // the first real registration creates it
    c.spawn(vec![Address::new(1)]).unwrap();
    assert_eq!(c.despawn(Address::new(2)), Ok(()));
}

#[test]
fn system_overwrite() {
    let mut c = Contract::new();
    c.genesis("w".to_string());
    let h1 = Address::new(100);
    let h2 = Address::new(200);
    c.add_system(6, h1);
    c.add_system(6, h2);
    let w = c.get_world().unwrap();
    assert_eq!(w.systems.len(), 1, "only one handler per query bitmask");
    assert_eq!(w.systems[0].query, 6);
    assert_eq!(w.systems[0].handler, h2);
}

#[test]
fn remove_system_noop_and_removal() {
    let mut c = Contract::new();
    c.genesis("w".to_string());
    c.add_system(6, Address::new(100));
    c.add_system(9, Address::new(101));
    c.remove_system(7); // absent: silent no-op
    assert_eq!(c.get_world().unwrap().systems.len(), 2);
    c.remove_system(6);
    let w = c.get_world().unwrap();
    assert_eq!(w.systems.len(), 1);
    assert_eq!(w.systems[0].query, 9);
    c.remove_system(6); // idempotent
    assert_eq!(c.get_world().unwrap().systems.len(), 1);
}

#[test]
fn ops_before_genesis_are_noops() {
    let mut c = Contract::new();
    c.spawn(vec![Address::new(1)]).unwrap();
    c.add_system(1, Address::new(2));
    c.remove_system(1);
    assert_eq!(c.get_world().unwrap_err(), Error::NoWorld);
    assert_eq!(c.register.counter, 0);
    assert!(!c.check_genesis());
}

#[test]
fn spawn_capacity_exhaustion_leaves_state_unchanged() {
    let mut c = Contract::new();
    c.genesis("w".to_string());
    for id in 0..126u64 {
        c.spawn(vec![Address::new(id)]).unwrap();
    }
    assert_eq!(c.get_world().unwrap().entities.len(), 126);
    assert_eq!(c.register.counter, 126);

    // one slot is left: the first address fits, the second does not, and
    // the whole operation aborts with no partial mutation surviving
    let a = Address::new(100_000);
    let b = Address::new(100_001);
    assert_eq!(c.spawn(vec![a, b]), Err(Error::RegisterFull));
    assert_eq!(c.get_world().unwrap().entities.len(), 126);
    assert_eq!(c.register.counter, 126);
    assert!(!c.register.addresses.contains(&a));
    assert!(!c.register.addresses.contains(&b));

    // the last slot is still usable, and then the register is full
    c.spawn(vec![a]).unwrap();
    assert_eq!(c.register.counter, 127);
    assert_eq!(c.get_world().unwrap().entities[126].bitmask, 1u128 << 127);
    assert_eq!(c.spawn(vec![b]), Err(Error::RegisterFull));
    assert_eq!(c.get_world().unwrap().entities.len(), 127);
}

#[test]
fn well_formedness_checker() {
    let mut c = Contract::new();
    assert!(c.is_well_formed());
    c.genesis("w".to_string());
    c.spawn(vec![Address::new(1), Address::new(2)]).unwrap();
    c.add_system(6, Address::new(3));
    assert!(c.is_well_formed());

    // a duplicated registered address is ill-formed
    let mut broken = Contract::new();
    broken.register.addresses.push(Address::new(1));
    broken.register.addresses.push(Address::new(1));
    assert!(!broken.is_well_formed());

    // an entity table that skips ids is ill-formed
    let mut skewed = Contract::new();
    skewed.world.counter = 5;
    assert!(!skewed.is_well_formed());
}
