//! Catalog assembly: one authority per configured domain, and a root
//! forwarding authority for everything else.

use vstd::prelude::*;
use crate::addr::{Ipv4Addr, Ipv6Addr};
use crate::config::DomainConfig;
use crate::error::SimpleDnsError;
use crate::name::{is_valid_fqdn, resolved_str, str_eq, Fqdn};
use crate::record::RecordType;
use crate::zone::{
    full_zone_map, load_zone, norm_origin, zone_cause_ok, zone_ok, Zone, ZoneKind, ZoneV,
};

verus! {

/// An upstream resolver address.
#[derive(Clone, Copy, Debug, PartialEq, Eq, Structural)]
pub enum HostAddr {
    V4(Ipv4Addr),
    V6(Ipv6Addr),
}

/// One upstream name server the forwarding authority sends queries to.
#[derive(Clone, Copy, Debug, PartialEq, Eq, Structural)]
pub struct NameServer {
    pub addr: HostAddr,
    pub port: u16,
}

/// The fixed, pre-selected upstream resolver group of the forwarding
/// authority: the well-known public resolvers at 8.8.8.8, 8.8.4.4 and
/// their two IPv6 counterparts, on the standard port.
pub open spec fn google_upstreams() -> Seq<NameServer> {
    seq![
        NameServer { addr: HostAddr::V4(Ipv4Addr { o0: 8, o1: 8, o2: 8, o3: 8 }), port: 53 },
        NameServer { addr: HostAddr::V4(Ipv4Addr { o0: 8, o1: 8, o2: 4, o3: 4 }), port: 53 },
        NameServer {
            addr: HostAddr::V6(
                Ipv6Addr {
                    g0: 0x2001,
                    g1: 0x4860,
                    g2: 0x4860,
                    g3: 0,
                    g4: 0,
                    g5: 0,
                    g6: 0,
                    g7: 0x8888,
                },
            ),
            port: 53,
        },
        NameServer {
            addr: HostAddr::V6(
                Ipv6Addr {
                    g0: 0x2001,
                    g1: 0x4860,
                    g2: 0x4860,
                    g3: 0,
                    g4: 0,
                    g5: 0,
                    g6: 0,
                    g7: 0x8844,
                },
            ),
            port: 53,
        },
    ]
}

/// An authority: a primary zone answering from its own records, or the
/// forwarding authority handing queries to the upstream resolvers.
pub enum Authority {
    Primary { zone: Zone },
    Forward { origin: Fqdn, upstreams: Vec<NameServer> },
}

/// The mathematical shape of an authority.
pub ghost enum AuthorityV {
    Primary { zone: ZoneV },
    Forward { origin: Seq<char>, upstreams: Seq<NameServer> },
}

impl View for Authority {
    type V = AuthorityV;

    open spec fn view(&self) -> AuthorityV {
        match self {
            Authority::Primary { zone } => AuthorityV::Primary { zone: zone@ },
            Authority::Forward { origin, upstreams } => AuthorityV::Forward {
                origin: origin@,
                upstreams: upstreams@,
            },
        }
    }
}

impl Authority {
    /// The apex name the authority is responsible for.
    pub open spec fn apex(&self) -> Seq<char> {
        match self {
            Authority::Primary { zone } => zone.apex@,
            Authority::Forward { origin, .. } => origin@,
        }
    }

    /// Well-formedness: a primary authority wraps a well-formed primary
    /// zone; the forwarding authority carries the fixed upstream group.
    pub open spec fn wf(&self) -> bool {
        match self {
            Authority::Primary { zone } => zone.wf() && zone.kind == ZoneKind::Primary,
            Authority::Forward { origin, upstreams } => origin.valid() && upstreams@
                == google_upstreams(),
        }
    }
}

/// Builds the forwarding authority for `origin`: it holds no records of
/// its own and hands every query under `origin` to the fixed upstream
/// resolver group.  The fixed group is always a usable configuration, so
/// this never fails.
pub fn get_forward_authority(origin: Fqdn) -> (r: Result<Authority, SimpleDnsError>)
    ensures
        r matches Ok(a) && a matches Authority::Forward { origin: o, upstreams } && o == origin
            && upstreams@ == google_upstreams(),
{
    let mut upstreams: Vec<NameServer> = Vec::new();
    upstreams.push(NameServer { addr: HostAddr::V4(Ipv4Addr { o0: 8, o1: 8, o2: 8, o3: 8 }), port: 53 });
    upstreams.push(NameServer { addr: HostAddr::V4(Ipv4Addr { o0: 8, o1: 8, o2: 4, o3: 4 }), port: 53 });
    upstreams.push(
        NameServer {
            addr: HostAddr::V6(
                Ipv6Addr {
                    g0: 0x2001,
                    g1: 0x4860,
                    g2: 0x4860,
                    g3: 0,
                    g4: 0,
                    g5: 0,
                    g6: 0,
                    g7: 0x8888,
                },
            ),
            port: 53,
        },
    );
    upstreams.push(
        NameServer {
            addr: HostAddr::V6(
                Ipv6Addr {
                    g0: 0x2001,
                    g1: 0x4860,
                    g2: 0x4860,
                    g3: 0,
                    g4: 0,
                    g5: 0,
                    g6: 0,
                    g7: 0x8844,
                },
            ),
            port: 53,
        },
    );
    proof {
        assert(upstreams@ =~= google_upstreams());
    }
    Ok(Authority::Forward { origin, upstreams })
}

/// One catalog entry: an apex name and the authority answering under it.
pub struct CatalogEntry {
    pub name: Fqdn,
    pub authority: Authority,
}

/// The dispatch table: every configured zone's authority under its apex,
/// and the forwarding authority under the root name.
pub struct Catalog {
    pub entries: Vec<CatalogEntry>,
}

/// No two entries share a name.
pub open spec fn unique_names(s: Seq<CatalogEntry>) -> bool {
    forall|i: int, j: int| 0 <= i < j < s.len() ==> (#[trigger] s[i]).name@ != (#[trigger] s[j]).name@
}

/// The map a sequence of catalog entries stands for.
pub open spec fn entries_map(s: Seq<CatalogEntry>) -> Map<Seq<char>, AuthorityV>
    decreases s.len(),
{
    if s.len() == 0 {
        Map::empty()
    } else {
        entries_map(s.drop_last()).insert(s.last().name@, s.last().authority@)
    }
}

impl View for Catalog {
    type V = Map<Seq<char>, AuthorityV>;

    open spec fn view(&self) -> Map<Seq<char>, AuthorityV> {
        entries_map(self.entries@)
    }
}

impl Catalog {
    /// Well-formedness: name-unique entries, each a valid name carrying a
    /// well-formed authority whose apex is that name.
    pub open spec fn wf(&self) -> bool {
        &&& unique_names(self.entries@)
        &&& forall|i: int|
            0 <= i < self.entries@.len() ==> {
                &&& (#[trigger] self.entries@[i]).name.valid()
                &&& self.entries@[i].authority.wf()
                &&& self.entries@[i].authority.apex() == self.entries@[i].name@
            }
    }
}

proof fn lemma_unique_names_drop_last(s: Seq<CatalogEntry>)
    requires
        s.len() > 0,
        unique_names(s),
    ensures
        unique_names(s.drop_last()),
{
    let d = s.drop_last();
    assert forall|i: int, j: int| 0 <= i < j < d.len() implies (#[trigger] d[i]).name@ != (
    #[trigger] d[j]).name@ by {
        assert(d[i] == s[i]);
        assert(d[j] == s[j]);
    }
}

/// Every entry of a name-unique sequence stands in its map.
proof fn lemma_entries_map_index(s: Seq<CatalogEntry>, i: int)
    requires
        0 <= i < s.len(),
        unique_names(s),
    ensures
        entries_map(s).contains_pair(s[i].name@, s[i].authority@),
    decreases s.len(),
{
    if i == s.len() - 1 {
    } else {
        lemma_unique_names_drop_last(s);
        lemma_entries_map_index(s.drop_last(), i);
        assert(s.drop_last()[i] == s[i]);
        assert(s[i].name@ != s[s.len() - 1].name@);
    }
}

/// Every name of the map comes from some entry.
proof fn lemma_entries_map_dom(s: Seq<CatalogEntry>, k: Seq<char>)
    requires
        entries_map(s).dom().contains(k),
    ensures
        exists|i: int| 0 <= i < s.len() && (#[trigger] s[i]).name@ == k,
    decreases s.len(),
{
    if s.len() == 0 {
    } else if s.last().name@ == k {
        assert(s[s.len() - 1].name@ == k);
    } else {
        lemma_entries_map_dom(s.drop_last(), k);
        let i = choose|i: int| 0 <= i < s.drop_last().len() && (#[trigger] s.drop_last()[i]).name@
            == k;
        assert(s[i] == s.drop_last()[i]);
        assert(s[i].name@ == k);
    }
}

/// Replacing one entry by another under the same name updates the map at
/// that name alone.
proof fn lemma_entries_map_update(s: Seq<CatalogEntry>, i: int, e: CatalogEntry)
    requires
        0 <= i < s.len(),
        unique_names(s),
        e.name@ == s[i].name@,
    ensures
        entries_map(s.update(i, e)) == entries_map(s).insert(e.name@, e.authority@),
    decreases s.len(),
{
    let s2 = s.update(i, e);
    if i == s.len() - 1 {
        assert(s2.drop_last() =~= s.drop_last());
        assert(s2.last() == e);
        assert(entries_map(s2) =~= entries_map(s).insert(e.name@, e.authority@));
    } else {
        lemma_unique_names_drop_last(s);
        lemma_entries_map_update(s.drop_last(), i, e);
        assert(s2.drop_last() =~= s.drop_last().update(i, e));
        assert(s2.last() == s.last());
        assert(s[i].name@ != s[s.len() - 1].name@);
        assert(entries_map(s2) =~= entries_map(s).insert(e.name@, e.authority@));
    }
}

/// The index of the entry named `name`, when one exists.
fn find_entry(entries: &Vec<CatalogEntry>, name: &Fqdn) -> (r: Option<usize>)
    ensures
        r matches Some(f) ==> f < entries@.len() && entries@[f as int].name@ == name@,
        r is None ==> forall|u: int| 0 <= u < entries@.len() ==> (#[trigger] entries@[u]).name@ != name@,
{
    let mut t: usize = 0;
    while t < entries.len()
        invariant
            t <= entries@.len(),
            forall|u: int| 0 <= u < t ==> (#[trigger] entries@[u]).name@ != name@,
        decreases entries@.len() - t,
    {
        if str_eq(entries[t].name.as_str(), name.as_str()) {
            return Some(t);
        }
        t = t + 1;
    }
    None
}

/// The map the configured domains describe: each domain's zone under its
/// normalized apex, worked through in order (a later domain normalizing
/// to the same apex replaces the earlier one).
pub open spec fn domains_map(domains: Seq<DomainConfig>) -> Map<Seq<char>, AuthorityV>
    decreases domains.len(),
{
    if domains.len() == 0 {
        Map::empty()
    } else {
        let d = domains.last();
        domains_map(domains.drop_last()).insert(
            norm_origin(d.domain@),
            AuthorityV::Primary {
                zone: ZoneV {
                    apex: norm_origin(d.domain@),
                    kind: ZoneKind::Primary,
                    rrsets: full_zone_map(d.records@, d.domain@),
                },
            },
        )
    }
}

/// The complete catalog map: the domains' map with the forwarding
/// authority under the root name.
pub open spec fn spec_catalog_map(domains: Seq<DomainConfig>) -> Map<Seq<char>, AuthorityV> {
    domains_map(domains).insert(
        seq!['.'],
        AuthorityV::Forward { origin: seq!['.'], upstreams: google_upstreams() },
    )
}

/// Every configured domain builds its zone.
pub open spec fn config_ok(domains: Seq<DomainConfig>) -> bool {
    forall|i: int|
        0 <= i < domains.len() ==> zone_ok(
            (#[trigger] domains[i]).domain@,
            domains[i].records@,
        )
}

/// The position of the first domain whose zone does not build.
pub open spec fn first_bad_domain(domains: Seq<DomainConfig>) -> int
    decreases domains.len(),
{
    if domains.len() == 0 {
        0
    } else if !zone_ok(domains[0].domain@, domains[0].records@) {
        0
    } else {
        1 + first_bad_domain(domains.drop_first())
    }
}

proof fn lemma_first_bad_domain_at(domains: Seq<DomainConfig>, i: int)
    requires
        0 <= i < domains.len(),
        forall|j: int|
            0 <= j < i ==> zone_ok((#[trigger] domains[j]).domain@, domains[j].records@),
        !zone_ok(domains[i].domain@, domains[i].records@),
    ensures
        first_bad_domain(domains) == i,
    decreases i,
{
    if i > 0 {
        lemma_first_bad_domain_at(domains.drop_first(), i - 1);
    }
}

/// No two domains normalize to the same apex, and none to the root.
pub open spec fn distinct_apexes(domains: Seq<DomainConfig>) -> bool {
    &&& forall|i: int, j: int|
        0 <= i < j < domains.len() ==> norm_origin((#[trigger] domains[i]).domain@) != norm_origin(
            (#[trigger] domains[j]).domain@,
        )
    &&& forall|i: int|
        0 <= i < domains.len() ==> norm_origin((#[trigger] domains[i]).domain@) != seq!['.']
}

/// Entry `i` carries the zone of domain `i`, and the last entry the root
/// forwarding authority.
pub open spec fn positional_catalog(c: Catalog, domains: Seq<DomainConfig>) -> bool {
    &&& c.entries@.len() == domains.len() + 1
    &&& forall|i: int|
        0 <= i < domains.len() ==> {
            let e = #[trigger] c.entries@[i];
            &&& e.name@ == norm_origin(domains[i].domain@)
            &&& (e.authority matches Authority::Primary { zone } && zone.apex@ == norm_origin(
                domains[i].domain@,
            ) && zone@.rrsets == full_zone_map(domains[i].records@, domains[i].domain@))
        }
    &&& c.entries@.last().name@ == seq!['.']
    &&& (c.entries@.last().authority matches Authority::Forward { origin, upstreams } && origin@
        == seq!['.'] && upstreams@ == google_upstreams())
}

/// The determinism law: the catalog map and the success of assembly are
/// functions of the configured domains alone, so — with [`assemble`]'s
/// contract — two catalogs built from identical configurations carry
/// identical record-set maps, and identical configurations fail alike.
pub proof fn lemma_assemble_deterministic(
    c1: Catalog,
    c2: Catalog,
    d1: Seq<DomainConfig>,
    d2: Seq<DomainConfig>,
)
    requires
        d1 == d2,
        c1@ == spec_catalog_map(d1),
        c2@ == spec_catalog_map(d2),
    ensures
        c1@ == c2@,
        config_ok(d1) == config_ok(d2),
{
}

/// The rejection law for unsupported record types: when the first
/// failing part of the configuration is a record group of an unsupported
/// type (its owner name is fine and it has a value), assembly fails, and
/// the error [`assemble`]'s contract describes has that unsupported type
/// as its root cause.
pub proof fn lemma_unsupported_type_rejected(
    domains: Seq<DomainConfig>,
    e: SimpleDnsError,
    i: int,
    j: int,
)
    requires
        0 <= i < domains.len(),
        0 <= j < domains[i].records@.len(),
        forall|d: int| 0 <= d < i ==> zone_ok((#[trigger] domains[d]).domain@, domains[d].records@),
        forall|g: int|
            0 <= g < j ==> crate::config::info_ok(
                (#[trigger] domains[i].records@[g]),
                domains[i].domain@,
            ),
        is_valid_fqdn(resolved_str(domains[i].records@[j].name@, domains[i].domain@)),
        domains[i].records@[j].record_type != RecordType::A,
        domains[i].records@[j].record_type != RecordType::AAAA,
        domains[i].records@[j].record_type != RecordType::CNAME,
        domains[i].records@[j].records@.len() > 0,
        e matches SimpleDnsError::ZoneConstruction { domain, cause } && zone_cause_ok(
            *cause,
            domains[first_bad_domain(domains)].domain@,
            domains[first_bad_domain(domains)].records@,
        ),
    ensures
        !config_ok(domains),
        e.root_cause() matches SimpleDnsError::UnsupportedRecordType { record_type }
            && record_type == domains[i].records@[j].record_type,
{
    let bad = domains[i].records@[j];
    assert(!crate::record::compile_ok(bad.record_type, bad.records@[0]@, domains[i].domain@));
    assert(!crate::config::info_ok(bad, domains[i].domain@));
    crate::zone::lemma_first_bad_info_at(domains[i].records@, domains[i].domain@, j);
    assert(!zone_ok(domains[i].domain@, domains[i].records@));
    lemma_first_bad_domain_at(domains, i);
    match e {
        SimpleDnsError::ZoneConstruction { domain: _, cause } => {
            assert(exists|g: int|
                0 <= g < domains[i].records@.len() && !crate::config::info_ok(
                    #[trigger] domains[i].records@[g],
                    domains[i].domain@,
                ));
            assert(crate::config::is_info_err(*cause, bad, domains[i].domain@));
            assert(cause.root_cause() == *cause);
            assert(e.root_cause() == cause.root_cause());
        },
        _ => {
            assert(false);
        },
    }
}

/// Builds the catalog of a configuration: every domain's zone, in
/// configuration order, under its normalized apex — a later domain
/// normalizing to an apex already present replaces it — and then the
/// forwarding authority under the root name.  The first failing domain
/// aborts with its zone-construction error.
#[verifier::loop_isolation(false)]
pub fn assemble(config: crate::config::Config) -> (r: Result<Catalog, SimpleDnsError>)
    ensures
        config_ok(config.domains@) ==> (r matches Ok(c) && c.wf() && c@ == spec_catalog_map(
            config.domains@,
        ) && c.entries@.len() <= config.domains@.len() + 1 && (distinct_apexes(config.domains@)
            ==> positional_catalog(c, config.domains@))),
        !config_ok(config.domains@) ==> (r matches Err(e) && e
            matches SimpleDnsError::ZoneConstruction { domain, cause } && domain@ == config.domains@[
            first_bad_domain(config.domains@)].domain@ && zone_cause_ok(
            *cause,
            config.domains@[first_bad_domain(config.domains@)].domain@,
            config.domains@[first_bad_domain(config.domains@)].records@,
        )),
{
    let ghost all = config.domains@;
    let mut rest = config.domains;
    let total: usize = rest.len();
    let mut done: usize = 0;
    let mut entries: Vec<CatalogEntry> = Vec::new();
    while rest.len() > 0
        invariant
            all.len() == total,
            done + rest@.len() == total,
            rest@ == all.skip(done as int),
            forall|i: int|
                0 <= i < done ==> zone_ok((#[trigger] all[i]).domain@, all[i].records@),
            unique_names(entries@),
            forall|i: int|
                0 <= i < entries@.len() ==> {
                    &&& (#[trigger] entries@[i]).name.valid()
                    &&& entries@[i].authority.wf()
                    &&& entries@[i].authority.apex() == entries@[i].name@
                },
            entries@.len() <= done,
            entries_map(entries@) == domains_map(all.take(done as int)),
            distinct_apexes(all) ==> (entries@.len() == done && forall|i: int|
                0 <= i < done ==> {
                    let e = #[trigger] entries@[i];
                    &&& e.name@ == norm_origin(all[i].domain@)
                    &&& (e.authority matches Authority::Primary { zone } && zone.apex@
                        == norm_origin(all[i].domain@) && zone@.rrsets == full_zone_map(
                        all[i].records@,
                        all[i].domain@,
                    ))
                }),
        decreases rest@.len(),
    {
        let d = rest.remove(0);
        proof {
            assert(d == all[done as int]);
            assert(rest@ =~= all.skip(done as int + 1));
        }
        let ghost gd = d;
        let DomainConfig { domain, records } = d;
        let zone = match load_zone(domain.as_str(), records) {
            Ok(z) => z,
            Err(e) => {
                proof {
                    assert(!zone_ok(gd.domain@, gd.records@));
                    lemma_first_bad_domain_at(all, done as int);
                }
                return Err(e);
            },
        };
        let name = zone.apex.clone();
        let authority = Authority::Primary { zone };
        let entry = CatalogEntry { name, authority };
        let ghost step_map = domains_map(all.take(done as int + 1));
        proof {
            assert(all.take(done as int + 1).drop_last() =~= all.take(done as int));
            assert(all.take(done as int + 1).last() == gd);
        }
        match find_entry(&entries, &entry.name) {
            Some(f) => {
                proof {
                    lemma_entries_map_update(entries@, f as int, entry);
                    if distinct_apexes(all) {
                        assert(entries@[f as int].name@ == norm_origin(all[f as int].domain@));
                        assert(false);
                    }
                }
                entries.set(f, entry);
                proof {
                    assert(entries_map(entries@) =~= step_map);
                }
            },
            None => {
                let ghost pre = entries@;
                entries.push(entry);
                proof {
                    assert(entries@.drop_last() =~= pre);
                    assert(entries_map(entries@) =~= step_map);
                }
            },
        }
        done = done + 1;
    }
    proof {
        assert(all.take(done as int) =~= all);
    }
    let root = Fqdn::root();
    let forward = match get_forward_authority(root) {
        Ok(a) => a,
        Err(_) => unreached(),
    };
    let root_name = Fqdn::root();
    let entry = CatalogEntry { name: root_name, authority: forward };
    let ghost pre_root = entries@;
    match find_entry(&entries, &entry.name) {
        Some(f) => {
            proof {
                lemma_entries_map_update(pre_root, f as int, entry);
                if distinct_apexes(all) {
                    assert(entries@[f as int].name@ == norm_origin(all[f as int].domain@));
                    assert(false);
                }
            }
            entries.set(f, entry);
        },
        None => {
            entries.push(entry);
            proof {
                assert(entries@.drop_last() =~= pre_root);
            }
        },
    }
    let catalog = Catalog { entries };
    proof {
        assert(catalog@ =~= spec_catalog_map(all));
        if distinct_apexes(all) {
            assert(catalog.entries@.last() == catalog.entries@[all.len() as int]);
        }
    }
    Ok(catalog)
}

} // verus!
