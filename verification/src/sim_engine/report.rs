//! The JSON reports of the simulated engine, its pools, filesystems and
//! devices. Object members are listed in order of name.

use vstd::prelude::*;
use crate::clevis::{entries_v, lemma_array_view, lemma_object_view, memberv, values_v, Json, JsonV};
use crate::outside::{uuid_hyphenated, uuid_hyphenated_text};
use crate::sim_engine::blockdev::SimDev;
use crate::sim_engine::engine::{PoolMap, SimEngine};
use crate::table::Table;
use crate::sim_engine::filesystem::SimFilesystem;
use crate::sim_engine::pool::{ActionAvailability, SimPool};
use crate::types::DevUuid;
use crate::units::{bytes_text, sectors_text, Bytes, Sectors, GI};

verus! {

/// The name of an action availability.
pub open spec fn availability_text(a: ActionAvailability) -> Seq<char> {
    match a {
        ActionAvailability::Full => "fully_operational"@,
        ActionAvailability::NoRequests => "no_ipc_requests"@,
        ActionAvailability::NoPoolChanges => "no_pool_changes"@,
    }
}

/// The name of an action availability.
pub fn availability_str(a: ActionAvailability) -> (r: &'static str)
    ensures
        r@ == availability_text(a),
{
    match a {
        ActionAvailability::Full => "fully_operational",
        ActionAvailability::NoRequests => "no_ipc_requests",
        ActionAvailability::NoPoolChanges => "no_pool_changes",
    }
}

/// The report of a device's node and size.
pub open spec fn dev_report(d: SimDev) -> Seq<(Seq<char>, JsonV)> {
    seq![("path"@, JsonV::Str(d.devnode@)), ("size"@, JsonV::Str(sectors_text(Sectors((GI / 512) as u64))))]
}

/// The report of a filesystem: its origin, size, size limit and the space
/// it uses.
pub open spec fn fs_report(f: SimFilesystem) -> Seq<(Seq<char>, JsonV)> {
    seq![
        ("origin"@, JsonV::Str(match f.origin {
            Some(u) => uuid_hyphenated_text(u.0),
            None => "Not set"@,
        })),
        ("size"@, JsonV::Str(sectors_text(f.size))),
        ("size_limit"@, JsonV::Str(match f.size_limit {
            Some(l) => sectors_text(l),
            None => "Not set"@,
        })),
        ("used"@, JsonV::Str(bytes_text(Bytes(((f.size.0 / 2) * 512) as u128)))),
    ]
}

/// The size limit in a filesystem's report is the filesystem's own limit,
/// written as sectors, or "Not set" when it has none; it does not depend on
/// the filesystem's size, so two filesystems with the same limit report the
/// same limit.
pub proof fn law_fs_report_size_limit(f: SimFilesystem, g: SimFilesystem)
    ensures
        f.size_limit matches Some(l) ==> memberv(fs_report(f), "size_limit"@) == Some(JsonV::Str(sectors_text(l))),
        f.size_limit is None ==> memberv(fs_report(f), "size_limit"@) == Some(JsonV::Str("Not set"@)),
        f.size_limit == g.size_limit ==> memberv(fs_report(f), "size_limit"@) == memberv(fs_report(g), "size_limit"@),
{
    reveal_strlit("origin");
    reveal_strlit("size");
    reveal_strlit("size_limit");
    reveal_with_fuel(memberv, 4);
    let r = fs_report(f);
    assert(r.drop_first()[0] == r[1]);
    assert(r.drop_first().drop_first()[0] == r[2]);
    let q = fs_report(g);
    assert(q.drop_first()[0] == q[1]);
    assert(q.drop_first().drop_first()[0] == q[2]);
    assert("origin"@.len() == 6 && "size"@.len() == 4 && "size_limit"@.len() == 10);
    assert("origin"@ != "size_limit"@);
    assert("size"@ != "size_limit"@);
}

/// The report of a filesystem of a pool: its name, its own report and its
/// UUID.
pub open spec fn fs_entry(name: Seq<char>, u: u128, f: SimFilesystem) -> JsonV {
    JsonV::Object(seq![("name"@, JsonV::Str(name))] + fs_report(f) + seq![("uuid"@, JsonV::Str(uuid_hyphenated_text(u)))])
}

/// The report of a device of a pool: its own report and its UUID.
pub open spec fn dev_entry(e: (DevUuid, SimDev)) -> JsonV {
    JsonV::Object(dev_report(e.1) + seq![("uuid"@, JsonV::Str(uuid_hyphenated_text(e.0.0)))])
}

/// The reports of a list of devices, in order.
pub open spec fn dev_entries(v: Seq<(DevUuid, SimDev)>) -> Seq<JsonV> {
    Seq::new(v.len(), |i: int| dev_entry(v[i]))
}

/// The members of a pool's report other than its filesystems: its
/// available actions, its data and cache devices and its filesystem limit,
/// with the filesystems' reports given.
pub open spec fn pool_report(p: SimPool, fss: Seq<JsonV>) -> Seq<(Seq<char>, JsonV)> {
    seq![
        ("available_actions"@, JsonV::Str(availability_text(ActionAvailability::Full))),
        ("blockdevs"@, JsonV::Object(seq![
            ("cachedevs"@, JsonV::Array(dev_entries(p.cache_devs@))),
            ("datadevs"@, JsonV::Array(dev_entries(p.block_devs@))),
        ])),
        ("filesystems"@, JsonV::Array(fss)),
        ("fs_limit"@, JsonV::Number(p.fs_limit)),
    ]
}

/// The report of the pool's filesystem with UUID `u`.
pub open spec fn fs_entry_of(p: SimPool, u: u128) -> JsonV {
    fs_entry(p.fs_map()[u].0, u, p.fs_map()[u].1)
}

/// A report is that of some filesystem of the pool.
pub open spec fn fs_reported(p: SimPool, j: JsonV) -> bool {
    exists|u: u128| #[trigger] p.fs_map().dom().contains(u) && j == fs_entry_of(p, u)
}

/// The reports of a pool's filesystems: one per filesystem, in some order.
pub open spec fn reports_filesystems(p: SimPool, fss: Seq<JsonV>) -> bool {
    &&& fss.len() == p.fs_map().dom().len()
    &&& forall|i: int| 0 <= i < fss.len() ==> fs_reported(p, #[trigger] fss[i])
    &&& forall|u: u128| #[trigger] p.fs_map().dom().contains(u) ==> exists|i: int| 0 <= i < fss.len()
        && #[trigger] fss[i] == fs_entry_of(p, u)
}

fn object(members: Vec<(String, Json)>) -> (r: Json)
    ensures
        r@ == JsonV::Object(entries_v(members@)),
{
    proof {
        lemma_object_view(members);
    }
    Json::Object(members)
}

fn array(items: Vec<Json>) -> (r: Json)
    ensures
        r@ == JsonV::Array(values_v(items@)),
{
    proof {
        lemma_array_view(items);
    }
    Json::Array(items)
}

fn text(s: String) -> (r: Json)
    ensures
        r@ == JsonV::Str(s@),
{
    Json::Str(s)
}

fn key(k: &str) -> (r: String)
    ensures
        r@ == k@,
{
    k.to_owned()
}

impl SimDev {
    /// The device's report members: its node and size.
    pub fn report(&self) -> (r: Vec<(String, Json)>)
        ensures
            entries_v(r@) == dev_report(*self),
    {
        let members = vec![(key("path"), text(self.devnode.clone())), (key("size"), text(self.size().text()))];
        proof {
            reveal_strlit("path");
            reveal_strlit("size");
            assert(entries_v(members@) =~= dev_report(*self));
        }
        members
    }
}

impl SimFilesystem {
    /// The filesystem's report members: origin, size, size limit and used
    /// space.
    pub fn report(&self) -> (r: Vec<(String, Json)>)
        ensures
            entries_v(r@) == fs_report(*self),
    {
        proof {
            reveal_strlit("Not set");
            reveal_strlit("origin");
            reveal_strlit("size");
            reveal_strlit("size_limit");
            reveal_strlit("used");
        }
        let origin = match self.origin {
            Some(u) => uuid_hyphenated(u.0),
            None => key("Not set"),
        };
        let limit = match self.size_limit {
            Some(l) => l.text(),
            None => key("Not set"),
        };
        let used = self.used();
        let members = vec![
            (key("origin"), text(origin)),
            (key("size"), text(self.size.text())),
            (key("size_limit"), text(limit)),
            (key("used"), text(used.text())),
        ];
        proof {
            assert(used == Bytes(((self.size.0 / 2) * 512) as u128));
            assert(entries_v(members@) =~= fs_report(*self));
        }
        members
    }
}

/// The reports of a list of devices.
fn devs_report(v: &Vec<(DevUuid, SimDev)>) -> (r: Vec<Json>)
    ensures
        values_v(r@) == dev_entries(v@),
{
    let mut out: Vec<Json> = Vec::new();
    let mut i: usize = 0;
    while i < v.len()
        invariant
            i <= v@.len(),
            out@.len() == i,
            forall|k: int| 0 <= k < i ==> (#[trigger] out@[k])@ == dev_entry(v@[k]),
        decreases v@.len() - i,
    {
        let mut members = v[i].1.report();
        let ghost before = members@;
        members.push((key("uuid"), text(uuid_hyphenated(v[i].0.0))));
        let j = object(members);
        proof {
            reveal_strlit("uuid");
            assert(entries_v(members@) =~= entries_v(before) + seq![("uuid"@, JsonV::Str(uuid_hyphenated_text(v@[i as int].0.0)))]);
        }
        out.push(j);
        i = i + 1;
    }
    proof {
        assert(values_v(out@) =~= dev_entries(v@));
    }
    out
}

impl SimPool {
    /// The pool's report members: available actions, devices, filesystems
    /// and filesystem limit.
    pub fn report(&self) -> (r: Vec<(String, Json)>)
        requires
            self.wf(),
        ensures
            exists|fss: Seq<JsonV>| reports_filesystems(*self, fss) && entries_v(r@) == pool_report(*self, fss),
    {
        proof {
            reveal_strlit("available_actions");
            reveal_strlit("blockdevs");
            reveal_strlit("cachedevs");
            reveal_strlit("datadevs");
            reveal_strlit("filesystems");
            reveal_strlit("fs_limit");
            reveal_strlit("name");
            reveal_strlit("uuid");
        }
        let listed = self.filesystems();
        let mut fss: Vec<Json> = Vec::new();
        let mut i: usize = 0;
        while i < listed.len()
            invariant
                self.wf(),
                i <= listed@.len(),
                fss@.len() == i,
                forall|k: int| 0 <= k < i ==> (#[trigger] fss@[k])@ == fs_entry(listed@[k].0@, listed@[k].1.0, *listed@[k].2),
            decreases listed@.len() - i,
        {
            let (n, u, f) = &listed[i];
            let report = f.report();
            let mut members: Vec<(String, Json)> = Vec::new();
            members.push((key("name"), text(n.clone())));
            let ghost head = members@;
            let mut rest = report;
            let ghost mid = rest@;
            members.append(&mut rest);
            members.push((key("uuid"), text(uuid_hyphenated(u.0))));
            proof {
                assert(entries_v(members@) =~= seq![("name"@, JsonV::Str(n@))] + fs_report(**f) + seq![
                    ("uuid"@, JsonV::Str(uuid_hyphenated_text(u.0))),
                ]);
            }
            fss.push(object(members));
            i = i + 1;
        }
        let ghost fv = values_v(fss@);
        proof {
            self.filesystems.lemma_wf();
            lemma_listed_reports(*self, listed@, fss@);
        }
        let cache = array(devs_report(&self.cache_devs));
        let data = array(devs_report(&self.block_devs));
        let bd_members = vec![(key("cachedevs"), cache), (key("datadevs"), data)];
        proof {
            assert(entries_v(bd_members@) =~= seq![
                ("cachedevs"@, JsonV::Array(dev_entries(self.cache_devs@))),
                ("datadevs"@, JsonV::Array(dev_entries(self.block_devs@))),
            ]);
        }
        let blockdevs = object(bd_members);
        let fs_array = array(fss);
        let actions = text(key(availability_str(ActionAvailability::Full)));
        let members = vec![
            (key("available_actions"), actions),
            (key("blockdevs"), blockdevs),
            (key("filesystems"), fs_array),
            (key("fs_limit"), Json::Number(self.fs_limit)),
        ];
        proof {
            assert(entries_v(members@) =~= pool_report(*self, fv));
        }
        members
    }
}

proof fn lemma_listed_reports(p: SimPool, listed: Seq<(String, crate::types::FilesystemUuid, &SimFilesystem)>, fss: Seq<Json>)
    requires
        p.wf(),
        p.filesystems.map().dom().finite(),
        fss.len() == listed.len(),
        forall|u: u128| #[trigger] p.fs_map().dom().contains(u) <==> exists|i: int|
            0 <= i < listed.len() && (#[trigger] listed[i]).1.0 == u,
        forall|i: int| 0 <= i < listed.len() ==> {
            let (n, u, f) = #[trigger] listed[i];
            &&& p.fs_map().dom().contains(u.0)
            &&& n@ == p.fs_map()[u.0].0
            &&& *f == p.fs_map()[u.0].1
        },
        forall|i: int, j: int| 0 <= i < listed.len() && 0 <= j < listed.len() && i != j ==> listed[i].1 != listed[j].1,
        forall|k: int| 0 <= k < fss.len() ==> (#[trigger] fss[k])@ == fs_entry(listed[k].0@, listed[k].1.0, *listed[k].2),
    ensures
        reports_filesystems(p, values_v(fss)),
{
    let fv = values_v(fss);
    let us = listed.map_values(|x: (String, crate::types::FilesystemUuid, &SimFilesystem)| x.1.0);
    assert forall|i: int, j: int| 0 <= i < us.len() && 0 <= j < us.len() && i != j implies us[i] != us[j] by {
        assert(listed[i].1 != listed[j].1);
    }
    assert(us.to_set() =~= p.fs_map().dom()) by {
        assert forall|u: u128| #[trigger] us.to_set().contains(u) <==> p.fs_map().dom().contains(u) by {
            if p.fs_map().dom().contains(u) {
                let i = choose|i: int| 0 <= i < listed.len() && (#[trigger] listed[i]).1.0 == u;
                assert(us[i] == u);
            }
            if us.to_set().contains(u) {
                let i = choose|i: int| 0 <= i < us.len() && us[i] == u;
                assert(listed[i].1.0 == u);
            }
        }
    }
    us.unique_seq_to_set();
    assert forall|i: int| 0 <= i < fv.len() implies fs_reported(p, #[trigger] fv[i]) by {
        let u = listed[i].1.0;
        assert(p.fs_map().dom().contains(u));
        assert(fv[i] == fs_entry_of(p, u));
    }
    assert forall|u: u128| #[trigger] p.fs_map().dom().contains(u) implies exists|i: int| 0 <= i < fv.len()
        && #[trigger] fv[i] == fs_entry_of(p, u) by {
        let i = choose|i: int| 0 <= i < listed.len() && (#[trigger] listed[i]).1.0 == u;
        assert(fv[i] == fs_entry_of(p, u));
    }
}

/// `j` is the report of pool `p`, named `n`, with UUID `u`: the pool's
/// members, then its name and UUID.
pub open spec fn pool_entry(n: Seq<char>, u: u128, p: SimPool, j: JsonV) -> bool {
    exists|fss: Seq<JsonV>|
        reports_filesystems(p, fss) && j == JsonV::Object(
            pool_report(p, fss) + seq![("name"@, JsonV::Str(n)), ("pool_uuid"@, JsonV::Str(uuid_hyphenated_text(u)))],
        )
}

/// The reports of the pools of a map: one per pool, in some order.
pub open spec fn reports_pools(m: PoolMap, ps: Seq<JsonV>) -> bool {
    exists|us: Seq<u128>|
        us.len() == ps.len() && us.no_duplicates() && us.to_set() == m.dom() && forall|i: int|
            0 <= i < us.len() ==> pool_entry(m[us[i]].0, us[i], m[us[i]].1, #[trigger] ps[i])
}

/// The reports of the pools of a table.
fn pools_report(t: &Table<SimPool>) -> (r: Vec<Json>)
    requires
        t.wf(),
        forall|u: u128| #[trigger] t.map().dom().contains(u) ==> t.map()[u].1.wf(),
    ensures
        reports_pools(t.map(), values_v(r@)),
{
    proof {
        reveal_strlit("name");
        reveal_strlit("pool_uuid");
    }
    let uuids = t.uuids();
    let mut out: Vec<Json> = Vec::new();
    let mut i: usize = 0;
    while i < uuids.len()
        invariant
            t.wf(),
            forall|u: u128| #[trigger] t.map().dom().contains(u) ==> t.map()[u].1.wf(),
            forall|u: u128| #[trigger] t.map().dom().contains(u) <==> uuids@.contains(u),
            i <= uuids@.len(),
            out@.len() == i,
            forall|k: int| 0 <= k < i ==> pool_entry(t.map()[uuids@[k]].0, uuids@[k], t.map()[uuids@[k]].1, (#[trigger] out@[k])@),
        decreases uuids@.len() - i,
    {
        let u = uuids[i];
        proof {
            assert(uuids@.contains(u));
        }
        match t.get_by_uuid(u) {
            Some((n, pool)) => {
                let mut members = pool.report();
                let ghost before = members@;
                members.push((key("name"), text(n.clone())));
                members.push((key("pool_uuid"), text(uuid_hyphenated(u))));
                proof {
                    let fss = choose|fss: Seq<JsonV>| reports_filesystems(*pool, fss) && entries_v(before) == pool_report(*pool, fss);
                    assert(entries_v(members@) =~= pool_report(*pool, fss) + seq![
                        ("name"@, JsonV::Str(n@)),
                        ("pool_uuid"@, JsonV::Str(uuid_hyphenated_text(u))),
                    ]);
                }
                out.push(object(members));
            },
            None => {
                proof {
                    assert(false);
                }
            },
        }
        i = i + 1;
    }
    proof {
        let us = uuids@;
        assert(us.to_set() =~= t.map().dom());
        assert(us.no_duplicates());
        assert forall|k: int| 0 <= k < us.len() implies pool_entry(t.map()[us[k]].0, us[k], t.map()[us[k]].1, #[trigger] values_v(out@)[k]) by {
            assert(values_v(out@)[k] == out@[k]@);
        }
    }
    out
}

impl SimEngine {
    /// The engine's report: the reports of its running pools and of its
    /// stopped pools.
    pub fn report(&self) -> (r: Json)
        requires
            self.wf(),
        ensures
            exists|ps: Seq<JsonV>, ss: Seq<JsonV>|
                reports_pools(self.pool_map(), ps) && reports_pools(self.stopped_map(), ss) && r@ == JsonV::Object(
                    seq![("pools"@, JsonV::Array(ps)), ("stopped_pools"@, JsonV::Array(ss))],
                ),
    {
        proof {
            reveal_strlit("pools");
            reveal_strlit("stopped_pools");
        }
        let running = array(pools_report(&self.pools));
        let stopped = array(pools_report(&self.stopped_pools));
        let members = vec![(key("pools"), running), (key("stopped_pools"), stopped)];
        proof {
            assert(entries_v(members@) =~= seq![("pools"@, running@), ("stopped_pools"@, stopped@)]);
        }
        object(members)
    }
}

} // verus!
