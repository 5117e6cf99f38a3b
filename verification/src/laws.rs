use vstd::prelude::*;

use crate::address::Address;
use crate::bits::{
    lemma_or_keeps_bit_zero_clear, lemma_or_zero, lemma_shl_injective, lemma_shl_skips_bit_zero,
};
use crate::errors::Error;
use crate::register::{
    lemma_register_next_valid, reg_valid, register_next, register_outcome, unregister_next,
    RegView, MAX_BIT,
};
use crate::world::{spawn_fold, systems_lookup, systems_upsert, SpawnFold, SystemEntry};

verus! {

/// Registering an address is idempotent: a fresh address yields a bit,
/// registering it again yields no bit, and the state after the second
/// call equals the state after the first. Retries are therefore safe.
pub proof fn law_register_idempotent(r: RegView, a: Address)
    requires
        reg_valid(r),
        !r.addresses.contains(a),
        r.counter < MAX_BIT,
    ensures
        register_outcome(r, a) == Ok::<Option<u128>, Error>(
            Some(1u128 << ((r.counter + 1) as u128)),
        ),
        register_outcome(register_next(r, a), a) == Ok::<Option<u128>, Error>(None),
        register_next(register_next(r, a), a) == register_next(r, a),
{
    assert(register_next(r, a).addresses.contains(a)) by {
        assert(r.addresses.push(a)[r.addresses.len() as int] == a);
    }
}

/// Allocation is monotonic: a successful registration issues exactly the
/// pre-incremented index, so the issued index is the new counter, it is
/// never index zero, and it is strictly above every index issued before.
pub proof fn law_allocation_monotonic(r: RegView, a: Address)
    requires
        reg_valid(r),
        !r.addresses.contains(a),
        r.counter < MAX_BIT,
    ensures
        register_outcome(r, a) == Ok::<Option<u128>, Error>(
            Some(1u128 << ((r.counter + 1) as u128)),
        ),
        register_next(r, a).counter == r.counter + 1,
        r.counter + 1 >= 1,
{
}

/// Two successive registrations of distinct fresh addresses issue
/// strictly increasing indices, and hence distinct bits.
pub proof fn law_allocation_monotonic_pair(r: RegView, a: Address, b: Address)
    requires
        reg_valid(r),
        a != b,
        !r.addresses.contains(a),
        !r.addresses.contains(b),
        r.counter + 2 <= MAX_BIT,
    ensures
        register_outcome(r, a) == Ok::<Option<u128>, Error>(
            Some(1u128 << ((r.counter + 1) as u128)),
        ),
        register_outcome(register_next(r, a), b) == Ok::<Option<u128>, Error>(
            Some(1u128 << ((r.counter + 2) as u128)),
        ),
        1 <= r.counter + 1 < r.counter + 2,
        (1u128 << ((r.counter + 1) as u128)) != (1u128 << ((r.counter + 2) as u128)),
{
    lemma_not_in_pushed(r.addresses, a, b);
    lemma_shl_injective((r.counter + 1) as u128, (r.counter + 2) as u128);
}

/// Bit zero of the bitmap is never part of any composed spawn mask: the
/// pre-increment scheme starts handing out indices at one.
pub proof fn law_spawn_mask_skips_bit_zero(r: RegView, comps: Seq<Address>)
    requires
        reg_valid(r),
    ensures
        spawn_fold(r, comps).bitmap & 1u128 == 0,
    decreases comps.len(),
{
    if comps.len() == 0 {
        assert(0u128 & 1u128 == 0) by (bit_vector);
    } else {
        match register_outcome(r, comps[0]) {
            Ok(Some(b)) => {
                let rest = spawn_fold(register_next(r, comps[0]), comps.drop_first());
                lemma_register_next_valid(r, comps[0]);
                law_spawn_mask_skips_bit_zero(register_next(r, comps[0]), comps.drop_first());
                lemma_shl_skips_bit_zero((r.counter + 1) as u128);
                lemma_or_keeps_bit_zero_clear(b, rest.bitmap);
            },
            Ok(None) => {
                law_spawn_mask_skips_bit_zero(r, comps.drop_first());
            },
            Err(_) => {
                assert(0u128 & 1u128 == 0) by (bit_vector);
            },
        }
    }
}

/// Across any whole component list, allocation stays monotonic: a
/// successful fold advances the counter by exactly one index per newly
/// registered component, and the counter never moves otherwise.
pub proof fn law_spawn_counter_advances(r: RegView, comps: Seq<Address>)
    requires
        reg_valid(r),
    ensures
        ({
            let f = spawn_fold(r, comps);
            f.ok ==> f.reg.counter == r.counter + f.filtered.len()
        }),
    decreases comps.len(),
{
    if comps.len() > 0 {
        match register_outcome(r, comps[0]) {
            Ok(Some(_)) => {
                lemma_register_next_valid(r, comps[0]);
                law_spawn_counter_advances(register_next(r, comps[0]), comps.drop_first());
            },
            Ok(None) => {
                law_spawn_counter_advances(r, comps.drop_first());
            },
            Err(_) => {},
        }
    }
}

/// OR-composition: spawning two fresh components stores the OR of their
/// two freshly issued bits and incorporates both components, in order.
pub proof fn law_spawn_or_composition(r: RegView, a: Address, b: Address)
    requires
        reg_valid(r),
        a != b,
        !r.addresses.contains(a),
        !r.addresses.contains(b),
        r.counter + 2 <= MAX_BIT,
    ensures
        ({
            let f = spawn_fold(r, seq![a, b]);
            &&& f.ok
            &&& f.bitmap == (1u128 << ((r.counter + 1) as u128)) | (1u128 << (
            (r.counter + 2) as u128))
            &&& f.filtered == seq![a, b]
            &&& f.reg == register_next(register_next(r, a), b)
        }),
{
    let comps = seq![a, b];
    lemma_not_in_pushed(r.addresses, a, b);
    let r1 = register_next(r, a);
    let r2 = register_next(r1, b);
    let b1 = 1u128 << ((r.counter + 1) as u128);
    let b2 = 1u128 << ((r.counter + 2) as u128);
    assert(comps[0] == a);
    assert(register_outcome(r, a) == Ok::<Option<u128>, Error>(Some(b1)));
    assert(r1.counter == r.counter + 1);
    assert(!r1.addresses.contains(b));
    assert(register_outcome(r1, b) == Ok::<Option<u128>, Error>(Some(b2)));
    assert(comps.drop_first() =~= seq![b]);
    let tail = seq![b];
    assert(tail[0] == b);
    assert(tail.drop_first() =~= Seq::<Address>::empty());
    let f0 = spawn_fold(r2, Seq::<Address>::empty());
    assert(f0 == (SpawnFold { ok: true, reg: r2, bitmap: 0, filtered: Seq::<Address>::empty() }));
    let f1 = spawn_fold(r1, tail);
    assert(f1.ok == f0.ok && f1.reg == f0.reg && f1.bitmap == (b2 | f0.bitmap) && f1.filtered
        == seq![b] + f0.filtered);
    lemma_or_zero(b2);
    assert(seq![b] + Seq::<Address>::empty() =~= seq![b]);
    let f = spawn_fold(r, comps);
    assert(f.ok == f1.ok && f.reg == f1.reg && f.bitmap == (b1 | f1.bitmap) && f.filtered == seq![a]
        + f1.filtered);
    assert(seq![a] + seq![b] =~= seq![a, b]);
}

/// Spawning with a component that is already registered elsewhere
/// incorporates only the fresh component: the stored mask is the fresh
/// component's bit alone and the stored list holds it alone.
pub proof fn law_spawn_filters_registered(r: RegView, a: Address, b: Address)
    requires
        reg_valid(r),
        r.addresses.contains(a),
        !r.addresses.contains(b),
        r.counter < MAX_BIT,
    ensures
        ({
            let f = spawn_fold(r, seq![a, b]);
            &&& f.ok
            &&& f.bitmap == (1u128 << ((r.counter + 1) as u128))
            &&& f.filtered == seq![b]
            &&& f.reg == register_next(r, b)
        }),
{
    let comps = seq![a, b];
    let b1 = 1u128 << ((r.counter + 1) as u128);
    let r1 = register_next(r, b);
    assert(comps[0] == a);
    assert(register_outcome(r, a) == Ok::<Option<u128>, Error>(None));
    assert(comps.drop_first() =~= seq![b]);
    let tail = seq![b];
    assert(tail[0] == b);
    assert(register_outcome(r, b) == Ok::<Option<u128>, Error>(Some(b1)));
    assert(tail.drop_first() =~= Seq::<Address>::empty());
    let f0 = spawn_fold(r1, Seq::<Address>::empty());
    assert(f0 == (SpawnFold { ok: true, reg: r1, bitmap: 0, filtered: Seq::<Address>::empty() }));
    let f1 = spawn_fold(r, tail);
    assert(f1.ok == f0.ok && f1.reg == f0.reg && f1.bitmap == (b1 | f0.bitmap) && f1.filtered
        == seq![b] + f0.filtered);
    lemma_or_zero(b1);
    assert(seq![b] + Seq::<Address>::empty() =~= seq![b]);
    let f = spawn_fold(r, comps);
    assert(f == f1);
}

/// A no-op spawn: when every requested component is already registered,
/// nothing is allocated, nothing is incorporated, and the register is
/// unchanged — so the world stores no entity and consumes no id.
pub proof fn law_spawn_noop(r: RegView, comps: Seq<Address>)
    requires
        forall|i: int| 0 <= i < comps.len() ==> r.addresses.contains(#[trigger] comps[i]),
    ensures
        spawn_fold(r, comps) == (SpawnFold {
            ok: true,
            reg: r,
            bitmap: 0,
            filtered: Seq::empty(),
        }),
    decreases comps.len(),
{
    if comps.len() > 0 {
        assert(r.addresses.contains(comps[0]));
        assert forall|i: int| 0 <= i < comps.drop_first().len() implies r.addresses.contains(
            #[trigger] comps.drop_first()[i],
        ) by {
            assert(comps.drop_first()[i] == comps[i + 1]);
        }
        law_spawn_noop(r, comps.drop_first());
    }
}

/// Despawn independence: unregistering removes the address from the
/// register's address list and touches nothing else, a subsequent
/// registration of the same address succeeds and issues a strictly newer
/// bit — distinct from every bit the audit trail ever recorded for it.
pub proof fn law_despawn_then_reregister(r: RegView, a: Address)
    requires
        reg_valid(r),
        r.addresses.contains(a),
        r.counter < MAX_BIT,
    ensures
        ({
            let r1 = unregister_next(r, a);
            &&& !r1.addresses.contains(a)
            &&& r1.counter == r.counter
            &&& r1.map == r.map
            &&& register_outcome(r1, a) == Ok::<Option<u128>, Error>(
                Some(1u128 << ((r.counter + 1) as u128)),
            )
            &&& forall|i: int|
                0 <= i < r.map.len() && (#[trigger] r.map[i]).1 == a ==> (1u128 << (
                (r.counter + 1) as u128)) != (1u128 << r.map[i].0)
        }),
{
    lemma_remove_value_eliminates(r.addresses, a);
    assert forall|i: int|
        0 <= i < r.map.len() && (#[trigger] r.map[i]).1 == a implies (1u128 << (
    (r.counter + 1) as u128)) != (1u128 << r.map[i].0) by {
        assert(r.map[i].0 == i + 1);
        lemma_shl_injective((r.counter + 1) as u128, r.map[i].0);
    }
}

/// Unregistering is idempotent: once an address has left the register,
/// unregistering it again changes nothing.
pub proof fn law_unregister_idempotent(r: RegView, a: Address)
    requires
        reg_valid(r),
    ensures
        unregister_next(unregister_next(r, a), a) == unregister_next(r, a),
{
    if r.addresses.contains(a) {
        lemma_remove_value_eliminates(r.addresses, a);
        lemma_remove_value_absent(r.addresses.remove_value(a), a);
    } else {
        lemma_remove_value_absent(r.addresses, a);
    }
}

/// System overwrite: adding a handler twice under one query bitmask is
/// the same as adding the second handler once, and the second handler is
/// what the registry then holds under that bitmask.
pub proof fn law_add_system_overwrites(s: Seq<SystemEntry>, q: u128, h1: Address, h2: Address)
    ensures
        systems_upsert(systems_upsert(s, q, h1), q, h2) == systems_upsert(s, q, h2),
        systems_lookup(systems_upsert(s, q, h2), q) == Some(h2),
    decreases s.len(),
{
    law_lookup_after_upsert(s, q, h2);
    let e1 = SystemEntry { query: q, handler: h1 };
    let e2 = SystemEntry { query: q, handler: h2 };
    if s.len() == 0 {
        assert((seq![e1])[0].query == q);
        assert(seq![e2] + seq![e1].drop_first() =~= seq![e2]);
    } else if s[0].query == q {
        assert(seq![e2] + (seq![e1] + s.drop_first()).drop_first() =~= seq![e2] + s.drop_first());
    } else {
        law_add_system_overwrites(s.drop_first(), q, h1, h2);
        assert((seq![s[0]] + systems_upsert(s.drop_first(), q, h1)).drop_first()
            =~= systems_upsert(s.drop_first(), q, h1));
        assert(seq![s[0]] + systems_upsert(systems_upsert(s.drop_first(), q, h1), q, h2)
            =~= systems_upsert(systems_upsert(s, q, h1), q, h2));
    }
}

/// After an upsert, the query resolves to the handler just registered.
pub proof fn law_lookup_after_upsert(s: Seq<SystemEntry>, q: u128, h: Address)
    ensures
        systems_lookup(systems_upsert(s, q, h), q) == Some(h),
    decreases s.len(),
{
    let e = SystemEntry { query: q, handler: h };
    if s.len() == 0 {
    } else if s[0].query == q {
    } else {
        law_lookup_after_upsert(s.drop_first(), q, h);
        assert((seq![s[0]] + systems_upsert(s.drop_first(), q, h)).drop_first()
            =~= systems_upsert(s.drop_first(), q, h));
    }
}

/// A pushed address other than the needle does not make the needle appear.
proof fn lemma_not_in_pushed(s: Seq<Address>, a: Address, b: Address)
    requires
        a != b,
        !s.contains(b),
    ensures
        !s.push(a).contains(b),
{
    if s.push(a).contains(b) {
        let k = choose|k: int| 0 <= k < s.push(a).len() && s.push(a)[k] == b;
        if k < s.len() {
            assert(s[k] == b);
            assert(s.contains(b));
        } else {
            assert(s.push(a)[k] == a);
        }
    }
}

/// Removing a value that is present removes it entirely when the
/// sequence holds no duplicates.
proof fn lemma_remove_value_eliminates(s: Seq<Address>, a: Address)
    requires
        s.no_duplicates(),
        s.contains(a),
    ensures
        !s.remove_value(a).contains(a),
{
    s.index_of_first_ensures(a);
    match s.index_of_first(a) {
        Some(i) => {
            let t = s.remove(i);
            s.remove_ensures(i);
            if t.contains(a) {
                let k = choose|k: int| 0 <= k < t.len() && t[k] == a;
                if k < i {
                    assert(t[k] == s[k]);
                } else {
                    assert(t[k] == s[k + 1]);
                }
            }
        },
        None => {
            assert(false);
        },
    }
}

/// Removing a value that is absent changes nothing.
proof fn lemma_remove_value_absent(s: Seq<Address>, a: Address)
    requires
        !s.contains(a),
    ensures
        s.remove_value(a) == s,
{
    s.index_of_first_ensures(a);
    match s.index_of_first(a) {
        Some(i) => {
            assert(s[i] == a);
            assert(s.contains(a));
        },
        None => {},
    }
}

} // verus!
