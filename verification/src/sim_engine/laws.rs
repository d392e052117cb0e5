//! Properties of the simulated engine that span several operations.

use vstd::prelude::*;
use crate::keys::{MechanismView, OptionalTokenSlotInput};
use crate::shared::{is_last_request, last_for_name, spec_size_of, str_set, FsSpec};
use crate::sim_engine::engine::{displacing_insert, id_uuid, without_name, PoolMap};
use crate::sim_engine::filesystem::SimFilesystem;
use crate::sim_engine::pool::{
    devnode_set, filesystems_created, key_bind_plan, limit_conflict_in, size_conflict_in, unbind_plan,
    BindPlan, SimPool, SlotPlan,
};
use crate::table::{has_name, names_unique, uuid_of_name};
use crate::types::{FilesystemUuid, PoolIdentifier, PoolUuid};
use crate::units::Sectors;

verus! {

/// In a map whose names are unique, the UUID found for a name is the one
/// that carries it.
proof fn lemma_uuid_of_name<T>(m: Map<u128, (Seq<char>, T)>, u: u128)
    requires
        names_unique(m),
        m.dom().contains(u),
    ensures
        has_name(m, m[u].0),
        uuid_of_name(m, m[u].0) == u,
{
    let n = m[u].0;
    assert(m.dom().contains(u) && m[u].0 == n);
    let c = uuid_of_name(m, n);
    assert(m.dom().contains(c) && m[c].0 == n);
}

/// After filesystems were created for a list of requests, without a size
/// conflict, every requested name exists, with the size of its last
/// request, so the same requests meet no conflict.
pub proof fn law_created_filesystems_match_requests(
    m0: Map<u128, (Seq<char>, SimFilesystem)>,
    m1: Map<u128, (Seq<char>, SimFilesystem)>,
    specs: Seq<FsSpec>,
    created: Seq<(String, FilesystemUuid, Sectors)>,
)
    requires
        filesystems_created(m0, m1, specs, created),
        !size_conflict_in(m0, specs),
        names_unique(m0),
        names_unique(m1),
    ensures
        forall|a: int| 0 <= a < specs.len() ==> has_name(m1, #[trigger] specs[a].name@),
        !size_conflict_in(m1, specs),
        !limit_conflict_in(m1, specs),
{
    assert forall|a: int| 0 <= a < specs.len() implies has_name(m1, #[trigger] specs[a].name@) by {
        if !has_name(m0, specs[a].name@) {
            let k = choose|k: int| 0 <= k < created.len() && created[k].0@ == specs[a].name@;
            let c = created[k];
            assert(m1.dom().contains(c.1.0) && m1[c.1.0].0 == specs[a].name@);
        } else {
            let u = choose|u: u128| #[trigger] m0.dom().contains(u) && m0[u].0 == specs[a].name@;
            assert(m1.dom().contains(u));
            assert(m1[u] == m0[u]);
        }
    }
    assert forall|a: int|
        0 <= a < specs.len() && last_for_name(specs, a) && has_name(m1, #[trigger] specs[a].name@) implies m1[uuid_of_name(
        m1,
        specs[a].name@,
    )].1.size == spec_size_of(specs[a]) by {
        let n = specs[a].name@;
        let w = uuid_of_name(m1, n);
        assert(m1.dom().contains(w) && m1[w].0 == n);
        if m0.dom().contains(w) {
            assert(m1[w] == m0[w]);
            assert(has_name(m0, n));
            lemma_uuid_of_name(m0, w);
            assert(uuid_of_name(m0, n) == w);
        } else {
            let k = choose|k: int| 0 <= k < created.len() && created[k].1.0 == w;
            let c = created[k];
            assert(is_last_request(specs, c.0@, c.2, m1[w].1.size_limit));
            let b = choose|b: int|
                0 <= b < specs.len() && #[trigger] specs[b].name@ == c.0@ && last_for_name(specs, b) && spec_size_of(specs[b])
                    == c.2 && crate::shared::spec_limit_of(specs[b]) == m1[w].1.size_limit;
            if a < b {
                assert(specs[b].name@ != specs[a].name@);
            } else if b < a {
                assert(specs[a].name@ != specs[b].name@);
            }
        }
    }
}

/// Repeating a request to create filesystems whose names all exist creates
/// nothing and changes nothing.
pub proof fn law_create_filesystems_repeat(
    m1: Map<u128, (Seq<char>, SimFilesystem)>,
    m2: Map<u128, (Seq<char>, SimFilesystem)>,
    specs: Seq<FsSpec>,
    created: Seq<(String, FilesystemUuid, Sectors)>,
)
    requires
        filesystems_created(m1, m2, specs, created),
        forall|a: int| 0 <= a < specs.len() ==> has_name(m1, #[trigger] specs[a].name@),
    ensures
        created.len() == 0,
        m2 == m1,
{
    if created.len() > 0 {
        let c = created[0];
        assert(is_last_request(specs, c.0@, c.2, m2[c.1.0].1.size_limit));
        let b = choose|b: int|
            0 <= b < specs.len() && #[trigger] specs[b].name@ == c.0@ && last_for_name(specs, b) && spec_size_of(specs[b]) == c.2
                && crate::shared::spec_limit_of(specs[b]) == m2[c.1.0].1.size_limit;
        assert(has_name(m1, specs[b].name@));
    }
    assert(m2 =~= m1);
}

/// After a filesystem is renamed to a name no other filesystem has, the
/// new name finds it, names stay unique, and the old name finds nothing.
pub proof fn law_rename_then_lookup(m: Map<u128, (Seq<char>, SimFilesystem)>, u: u128, n: Seq<char>)
    requires
        names_unique(m),
        m.dom().contains(u),
        !has_name(m, n),
    ensures
        ({
            let m2 = m.insert(u, (n, m[u].1));
            &&& has_name(m2, n)
            &&& uuid_of_name(m2, n) == u
            &&& names_unique(m2)
            &&& !has_name(m2, m[u].0)
        }),
{
    let m2 = m.insert(u, (n, m[u].1));
    assert forall|u1: u128, u2: u128|
        #[trigger] m2.dom().contains(u1) && #[trigger] m2.dom().contains(u2) && u1 != u2 implies m2[u1].0 != m2[u2].0 by {
        if u1 == u {
            assert(m.dom().contains(u2));
        } else if u2 == u {
            assert(m.dom().contains(u1));
        }
    }
    lemma_uuid_of_name(m2, u);
    if has_name(m2, m[u].0) {
        let w = choose|w: u128| #[trigger] m2.dom().contains(w) && m2[w].0 == m[u].0;
        if w != u {
            assert(m.dom().contains(w) && m[w].0 == m[u].0);
        }
    }
}

/// Stopping a running pool and starting it again by its UUID restores both
/// tables, when no stopped pool had its name or its UUID (such a stopped
/// pool is displaced by the stop).
pub proof fn law_stop_then_start(pools: PoolMap, stopped: PoolMap, u: u128)
    requires
        names_unique(pools),
        pools.dom().contains(u),
        !stopped.dom().contains(u),
        !has_name(stopped, pools[u].0),
    ensures
        ({
            let (n, p) = pools[u];
            let pools1 = pools.remove(u);
            let stopped1 = displacing_insert(stopped, u, n, p);
            &&& id_uuid(pools1, PoolIdentifier::Uuid(PoolUuid(u))) is None
            &&& id_uuid(stopped1, PoolIdentifier::Uuid(PoolUuid(u))) == Some(u)
            &&& stopped1[u] == (n, p)
            &&& displacing_insert(pools1, u, n, p) == pools
            &&& stopped1.remove(u) == stopped
        }),
{
    let (n, p) = pools[u];
    let pools1 = pools.remove(u);
    let stopped1 = displacing_insert(stopped, u, n, p);
    assert(without_name(stopped, n) == stopped);
    if has_name(pools1, n) {
        let w = choose|w: u128| #[trigger] pools1.dom().contains(w) && pools1[w].0 == n;
        assert(pools.dom().contains(w) && w != u);
    }
    assert(without_name(pools1, n) == pools1);
    assert(pools1.insert(u, (n, p)) =~= pools);
    assert(stopped1.remove(u) =~= stopped);
}

/// Once a pool is created on some devices, the same request finds it by
/// name with exactly those devices, so repeating the request changes
/// nothing.
pub proof fn law_create_pool_repeat(pools: PoolMap, u: u128, name: Seq<char>, pool: SimPool, paths: Seq<String>)
    requires
        names_unique(pools.insert(u, (name, pool))),
        devnode_set(pool.block_devs@) == str_set(paths),
    ensures
        ({
            let m = pools.insert(u, (name, pool));
            &&& has_name(m, name)
            &&& devnode_set(m[uuid_of_name(m, name)].1.block_devs@) == str_set(paths)
        }),
{
    let m = pools.insert(u, (name, pool));
    lemma_uuid_of_name(m, u);
}

/// Binding a free slot to a key description and then unbinding that slot
/// restores the bindings, when another binding keeps the device openable.
pub proof fn law_bind_then_unbind_key(m: Map<u32, MechanismView>, t: u32, kd: Seq<char>)
    requires
        m.dom().finite(),
        m.dom().len() >= 1,
        !m.dom().contains(t),
    ensures
        key_bind_plan(m, OptionalTokenSlotInput::Slot(t), kd) == BindPlan::Bind(t),
        unbind_plan(m.insert(t, MechanismView::KeyDesc(kd)), Some(t), true) == SlotPlan::Change(t),
        m.insert(t, MechanismView::KeyDesc(kd)).remove(t) == m,
{
    let m1 = m.insert(t, MechanismView::KeyDesc(kd));
    assert(m1.dom() =~= m.dom().insert(t));
    assert(m1.dom().len() == m.dom().len() + 1);
    assert(m1.remove(t) =~= m);
}

} // verus!
