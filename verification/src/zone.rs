//! Zone assembly: configured record groups become a record-set map with a
//! synthesized apex start-of-authority record.

use vstd::prelude::*;
use vstd::pervasive::VecAdditionalExecFns;
use crate::config::{compiled_datas, info_ok, is_info_err, RecordInfo};
use crate::error::SimpleDnsError;
use crate::name::{is_valid_fqdn, labels_ok_from, resolve, resolved_str, str_eq, Fqdn};
use crate::record::{
    RData, RDataV, RecordSet, RecordType, ResourceRecord, RrKey, SoaData, DEFAULT_TTL,
};

verus! {

/// Fixed serial of every synthesized start-of-authority record.
pub const SOA_SERIAL: u32 = 20;

/// Fixed refresh interval of the synthesized start-of-authority record.
pub const SOA_REFRESH: i32 = 7200;

/// Fixed retry interval of the synthesized start-of-authority record.
pub const SOA_RETRY: i32 = 600;

/// Fixed expiry of the synthesized start-of-authority record.
pub const SOA_EXPIRE: i32 = 3600000;

/// Fixed negative-answer minimum of the synthesized record.
pub const SOA_MINIMUM: u32 = 60;

/// The data of the start-of-authority record every zone apex gets.
pub open spec fn spec_soa_v() -> RDataV {
    RDataV::Soa {
        mname: "sns.dns.icann.org."@,
        rname: "noc.dns.icann.org."@,
        serial: SOA_SERIAL,
        refresh: SOA_REFRESH,
        retry: SOA_RETRY,
        expire: SOA_EXPIRE,
        minimum: SOA_MINIMUM,
    }
}

/// A zone origin normalized like an apex owner name.
pub open spec fn norm_origin(origin: Seq<char>) -> Seq<char> {
    resolved_str(seq!['@'], origin)
}

/// How a zone answers: from its own records, or by forwarding upstream.
#[derive(Clone, Copy, Debug, PartialEq, Eq, Structural)]
pub enum ZoneKind {
    Primary,
    Forward,
}

/// A compiled zone: its apex, its classification, and one record set per
/// (owner name, record type) key.
pub struct Zone {
    pub apex: Fqdn,
    pub kind: ZoneKind,
    pub rrsets: Vec<RecordSet>,
}

/// The mathematical shape of a zone: the record sets as a map from key to
/// data sequence.
pub ghost struct ZoneV {
    pub apex: Seq<char>,
    pub kind: ZoneKind,
    pub rrsets: Map<(Seq<char>, RecordType), Seq<RDataV>>,
}

/// No two record sets share a key.
pub open spec fn unique_keys(s: Seq<RecordSet>) -> bool {
    forall|i: int, j: int|
        0 <= i < j < s.len() ==> (#[trigger] s[i]).key() != (#[trigger] s[j]).key()
}

/// The map a sequence of record sets stands for.
pub open spec fn rrsets_map(s: Seq<RecordSet>) -> Map<(Seq<char>, RecordType), Seq<RDataV>>
    decreases s.len(),
{
    if s.len() == 0 {
        Map::empty()
    } else {
        rrsets_map(s.drop_last()).insert(s.last().key(), s.last().datas())
    }
}

impl View for Zone {
    type V = ZoneV;

    open spec fn view(&self) -> ZoneV {
        ZoneV { apex: self.apex@, kind: self.kind, rrsets: rrsets_map(self.rrsets@) }
    }
}

impl Zone {
    /// Well-formedness: a valid apex, key-unique well-formed record sets
    /// carrying the fixed time-to-live, and — for a primary zone — the
    /// synthesized start-of-authority record set at the apex.
    pub open spec fn wf(&self) -> bool {
        &&& self.apex.valid()
        &&& unique_keys(self.rrsets@)
        &&& forall|i: int|
            0 <= i < self.rrsets@.len() ==> (#[trigger] self.rrsets@[i]).wf()
                && self.rrsets@[i].ttl == DEFAULT_TTL
        &&& (self.kind == ZoneKind::Primary ==> self@.rrsets.contains_pair(
            (self.apex@, RecordType::SOA),
            seq![spec_soa_v()],
        ))
    }
}

proof fn lemma_unique_keys_drop_last(s: Seq<RecordSet>)
    requires
        s.len() > 0,
        unique_keys(s),
    ensures
        unique_keys(s.drop_last()),
{
    let d = s.drop_last();
    assert forall|i: int, j: int| 0 <= i < j < d.len() implies (#[trigger] d[i]).key() != (
    #[trigger] d[j]).key() by {
        assert(d[i] == s[i]);
        assert(d[j] == s[j]);
    }
}

/// Every record set of a key-unique sequence stands in its map.
proof fn lemma_rrsets_map_index(s: Seq<RecordSet>, i: int)
    requires
        0 <= i < s.len(),
        unique_keys(s),
    ensures
        rrsets_map(s).contains_pair(s[i].key(), s[i].datas()),
    decreases s.len(),
{
    if i == s.len() - 1 {
    } else {
        lemma_unique_keys_drop_last(s);
        lemma_rrsets_map_index(s.drop_last(), i);
        assert(s.drop_last()[i] == s[i]);
        assert(s[i].key() != s[s.len() - 1].key());
    }
}

/// Every key of the map comes from some record set.
proof fn lemma_rrsets_map_dom(s: Seq<RecordSet>, k: (Seq<char>, RecordType))
    requires
        rrsets_map(s).dom().contains(k),
    ensures
        exists|i: int| 0 <= i < s.len() && (#[trigger] s[i]).key() == k,
    decreases s.len(),
{
    if s.len() == 0 {
    } else if s.last().key() == k {
        assert(s[s.len() - 1].key() == k);
    } else {
        lemma_rrsets_map_dom(s.drop_last(), k);
        let i = choose|i: int| 0 <= i < s.drop_last().len() && (#[trigger] s.drop_last()[i]).key()
            == k;
        assert(s[i] == s.drop_last()[i]);
        assert(s[i].key() == k);
    }
}

/// Replacing one record set by another under the same key updates the map
/// at that key alone.
proof fn lemma_rrsets_map_update(s: Seq<RecordSet>, i: int, rs: RecordSet)
    requires
        0 <= i < s.len(),
        unique_keys(s),
        rs.key() == s[i].key(),
    ensures
        rrsets_map(s.update(i, rs)) == rrsets_map(s).insert(rs.key(), rs.datas()),
    decreases s.len(),
{
    let s2 = s.update(i, rs);
    if i == s.len() - 1 {
        assert(s2.drop_last() =~= s.drop_last());
        assert(s2.last() == rs);
        assert(rrsets_map(s2) =~= rrsets_map(s).insert(rs.key(), rs.datas()));
    } else {
        lemma_unique_keys_drop_last(s);
        lemma_rrsets_map_update(s.drop_last(), i, rs);
        assert(s2.drop_last() =~= s.drop_last().update(i, rs));
        assert(s2.last() == s.last());
        assert(s[i].key() != s[s.len() - 1].key());
        assert(rrsets_map(s2) =~= rrsets_map(s).insert(rs.key(), rs.datas()));
    }
}

/// The record-set map the configured record groups describe: groups are
/// worked through in order, and a group whose key is already present
/// appends its data to the data already there — it never replaces it.
pub open spec fn zone_map(infos: Seq<RecordInfo>, origin: Seq<char>) -> Map<
    (Seq<char>, RecordType),
    Seq<RDataV>,
>
    decreases infos.len(),
{
    if infos.len() == 0 {
        Map::empty()
    } else {
        let m = zone_map(infos.drop_last(), origin);
        let info = infos.last();
        let k = (resolved_str(info.name@, origin), info.record_type);
        let prev = if m.dom().contains(k) {
            m[k]
        } else {
            Seq::empty()
        };
        m.insert(k, prev + compiled_datas(info, origin))
    }
}

/// The complete record-set map of a built zone: the configured map with
/// the synthesized start-of-authority record set at the apex.
pub open spec fn full_zone_map(infos: Seq<RecordInfo>, origin: Seq<char>) -> Map<
    (Seq<char>, RecordType),
    Seq<RDataV>,
> {
    zone_map(infos, origin).insert((norm_origin(origin), RecordType::SOA), seq![spec_soa_v()])
}

/// The compiled data of every record group carrying key `k`, in
/// configuration order, concatenated.
pub open spec fn collected_datas(
    infos: Seq<RecordInfo>,
    origin: Seq<char>,
    k: (Seq<char>, RecordType),
) -> Seq<RDataV>
    decreases infos.len(),
{
    if infos.len() == 0 {
        Seq::empty()
    } else {
        let rest = collected_datas(infos.drop_last(), origin, k);
        let info = infos.last();
        if (resolved_str(info.name@, origin), info.record_type) == k {
            rest + compiled_datas(info, origin)
        } else {
            rest
        }
    }
}

/// The merge law: the configured record-set map holds a key exactly when
/// some record group normalizes to it, and under that key it holds the
/// compiled data of every such group, in order, concatenated — groups
/// sharing a key accumulate and never overwrite one another.
pub proof fn lemma_zone_map_collects(
    infos: Seq<RecordInfo>,
    origin: Seq<char>,
    k: (Seq<char>, RecordType),
)
    ensures
        zone_map(infos, origin).dom().contains(k) <==> (exists|i: int|
            0 <= i < infos.len() && (resolved_str((#[trigger] infos[i]).name@, origin),
            infos[i].record_type) == k),
        zone_map(infos, origin).dom().contains(k) ==> zone_map(infos, origin)[k]
            == collected_datas(infos, origin, k),
        !zone_map(infos, origin).dom().contains(k) ==> collected_datas(infos, origin, k)
            == Seq::<RDataV>::empty(),
    decreases infos.len(),
{
    if infos.len() > 0 {
        lemma_zone_map_collects(infos.drop_last(), origin, k);
        let last = infos.last();
        let lk = (resolved_str(last.name@, origin), last.record_type);
        if lk == k {
            assert(infos[infos.len() - 1] == last);
        } else {
            if exists|i: int|
                0 <= i < infos.len() && (resolved_str((#[trigger] infos[i]).name@, origin),
                infos[i].record_type) == k {
                let i = choose|i: int|
                    0 <= i < infos.len() && (resolved_str((#[trigger] infos[i]).name@, origin),
                    infos[i].record_type) == k;
                assert(i < infos.len() - 1);
                assert(infos.drop_last()[i] == infos[i]);
            }
        }
    }
}

/// Every record group compiles and the origin normalizes to a valid apex.
pub open spec fn zone_ok(origin: Seq<char>, infos: Seq<RecordInfo>) -> bool {
    &&& forall|i: int| 0 <= i < infos.len() ==> info_ok(#[trigger] infos[i], origin)
    &&& is_valid_fqdn(norm_origin(origin))
}

/// The position of the first record group that does not compile.
pub open spec fn first_bad_info(infos: Seq<RecordInfo>, origin: Seq<char>) -> int
    decreases infos.len(),
{
    if infos.len() == 0 {
        0
    } else if !info_ok(infos[0], origin) {
        0
    } else {
        1 + first_bad_info(infos.drop_first(), origin)
    }
}

/// The cause a failing zone build wraps: the first failing record group's
/// error, else — all groups fine — a syntax error on the normalized
/// origin itself.
pub open spec fn zone_cause_ok(
    cause: SimpleDnsError,
    origin: Seq<char>,
    infos: Seq<RecordInfo>,
) -> bool {
    if exists|i: int| 0 <= i < infos.len() && !info_ok(#[trigger] infos[i], origin) {
        is_info_err(cause, infos[first_bad_info(infos, origin)], origin)
    } else {
        cause matches SimpleDnsError::NameSyntax { name } && name@ == norm_origin(origin)
    }
}

pub(crate) proof fn lemma_first_bad_info_at(infos: Seq<RecordInfo>, origin: Seq<char>, i: int)
    requires
        0 <= i < infos.len(),
        forall|j: int| 0 <= j < i ==> info_ok(#[trigger] infos[j], origin),
        !info_ok(infos[i], origin),
    ensures
        first_bad_info(infos, origin) == i,
    decreases i,
{
    if i > 0 {
        lemma_first_bad_info_at(infos.drop_first(), origin, i - 1);
    }
}

/// The two fixed names inside the synthesized start-of-authority data are
/// themselves valid.
proof fn lemma_soa_names_valid()
    ensures
        is_valid_fqdn("sns.dns.icann.org."@),
        is_valid_fqdn("noc.dns.icann.org."@),
{
    reveal_strlit("sns.dns.icann.org.");
    reveal_strlit("noc.dns.icann.org.");
    reveal_with_fuel(labels_ok_from, 25);
    assert(labels_ok_from("sns.dns.icann.org."@, 0, 0));
    assert(labels_ok_from("noc.dns.icann.org."@, 0, 0));
}

/// Synthesizes the start-of-authority record set for a zone origin, under
/// its key: fixed primary name server, mailbox and timers, at the
/// normalized apex, with the fixed time-to-live.
pub fn get_soa_record(domain: &str) -> (r: Result<(RrKey, RecordSet), SimpleDnsError>)
    ensures
        is_valid_fqdn(norm_origin(domain@)) ==> (r matches Ok(p) && p.0.name@ == norm_origin(
            domain@,
        ) && p.0.name.valid() && p.0.record_type == RecordType::SOA && p.1.wf() && p.1.key() == (
            norm_origin(domain@),
            RecordType::SOA,
        ) && p.1.ttl == DEFAULT_TTL && p.1.datas() == seq![spec_soa_v()]),
        !is_valid_fqdn(norm_origin(domain@)) ==> (r matches Err(e) && e
            matches SimpleDnsError::NameSyntax { name } && name@ == norm_origin(domain@)),
{
    proof {
        reveal_strlit("@");
        assert("@"@ =~= seq!['@']);
    }
    let name = match resolve("@", domain) {
        Ok(f) => f,
        Err(e) => {
            return Err(e);
        },
    };
    proof {
        lemma_soa_names_valid();
    }
    let mname = match Fqdn::parse("sns.dns.icann.org.") {
        Ok(f) => f,
        Err(_) => unreached(),
    };
    let rname = match Fqdn::parse("noc.dns.icann.org.") {
        Ok(f) => f,
        Err(_) => unreached(),
    };
    let data = RData::Soa(
        SoaData {
            mname,
            rname,
            serial: SOA_SERIAL,
            refresh: SOA_REFRESH,
            retry: SOA_RETRY,
            expire: SOA_EXPIRE,
            minimum: SOA_MINIMUM,
        },
    );
    let record = ResourceRecord {
        name: name.clone(),
        record_type: RecordType::SOA,
        ttl: DEFAULT_TTL,
        data,
    };
    let mut records: Vec<ResourceRecord> = Vec::new();
    records.push(record);
    let rr_set = RecordSet {
        name: name.clone(),
        record_type: RecordType::SOA,
        ttl: DEFAULT_TTL,
        records,
    };
    let key = RrKey { name, record_type: RecordType::SOA };
    proof {
        assert(rr_set.datas() =~= seq![spec_soa_v()]);
    }
    Ok((key, rr_set))
}

/// The index of the record set carrying `key`, when one does.
fn find_rrset(rrsets: &Vec<RecordSet>, name: &Fqdn, record_type: RecordType) -> (r: Option<usize>)
    ensures
        r matches Some(f) ==> f < rrsets@.len() && rrsets@[f as int].key() == (name@, record_type),
        r is None ==> forall|u: int|
            0 <= u < rrsets@.len() ==> (#[trigger] rrsets@[u]).key() != (name@, record_type),
{
    let mut t: usize = 0;
    while t < rrsets.len()
        invariant
            t <= rrsets@.len(),
            forall|u: int| 0 <= u < t ==> (#[trigger] rrsets@[u]).key() != (name@, record_type),
        decreases rrsets@.len() - t,
    {
        let cand = &rrsets[t];
        if cand.record_type == record_type && str_eq(cand.name.as_str(), name.as_str()) {
            return Some(t);
        }
        t = t + 1;
    }
    None
}

/// Builds one primary zone: every record group is compiled and merged
/// into the record-set map under its (owner name, record type) key —
/// groups sharing a key accumulate — and the synthesized
/// start-of-authority record set is put at the apex.  The first failure
/// aborts with a zone-construction error naming the origin.
#[verifier::loop_isolation(false)]
pub fn load_zone(origin: &str, infos: Vec<RecordInfo>) -> (r: Result<Zone, SimpleDnsError>)
    ensures
        zone_ok(origin@, infos@) ==> (r matches Ok(z) && z.wf() && z.kind == ZoneKind::Primary
            && z.apex@ == norm_origin(origin@) && z@.rrsets == full_zone_map(infos@, origin@)),
        !zone_ok(origin@, infos@) ==> (r matches Err(e) && e
            matches SimpleDnsError::ZoneConstruction { domain, cause } && domain@ == origin@
            && zone_cause_ok(*cause, origin@, infos@)),
{
    let ghost all = infos@;
    let mut rest = infos;
    let total: usize = rest.len();
    let mut done: usize = 0;
    let mut rrsets: Vec<RecordSet> = Vec::new();
    while rest.len() > 0
        invariant
            all.len() == total,
            done + rest@.len() == total,
            rest@ == all.skip(done as int),
            forall|i: int| 0 <= i < done ==> info_ok(#[trigger] all[i], origin@),
            unique_keys(rrsets@),
            forall|i: int|
                0 <= i < rrsets@.len() ==> (#[trigger] rrsets@[i]).wf() && rrsets@[i].ttl
                    == DEFAULT_TTL,
            rrsets_map(rrsets@) == zone_map(all.take(done as int), origin@),
        decreases rest@.len(),
    {
        let info = rest.remove(0);
        proof {
            assert(info == all[done as int]);
            assert(rest@ =~= all.skip(done as int + 1));
        }
        let ghost ginfo = info;
        let rs = match info.to_record_set(origin) {
            Ok(rs) => rs,
            Err(e) => {
                proof {
                    assert(!info_ok(all[done as int], origin@));
                    lemma_first_bad_info_at(all, origin@, done as int);
                    assert(is_info_err(e, all[done as int], origin@));
                    assert(zone_cause_ok(e, origin@, all));
                    assert(!zone_ok(origin@, all));
                }
                let cause = Box::new(e);
                return Err(
                    SimpleDnsError::ZoneConstruction { domain: origin.to_owned(), cause },
                );
            },
        };
        let ghost k = rs.key();
        let ghost step_map = zone_map(all.take(done as int + 1), origin@);
        proof {
            assert(all.take(done as int + 1).drop_last() =~= all.take(done as int));
            assert(all.take(done as int + 1).last() == ginfo);
        }
        match find_rrset(&rrsets, &rs.name, rs.record_type) {
            Some(f) => {
                proof {
                    lemma_rrsets_map_index(rrsets@, f as int);
                }
                let ghost old_rrsets = rrsets@;
                let mut slot = RecordSet {
                    name: Fqdn::root(),
                    record_type: RecordType::SOA,
                    ttl: DEFAULT_TTL,
                    records: Vec::new(),
                };
                rrsets.set_and_swap(f, &mut slot);
                let ghost old_slot = slot;
                let mut extra = rs;
                slot.records.append(&mut extra.records);
                rrsets.set(f, slot);
                proof {
                    assert(rrsets@ =~= old_rrsets.update(f as int, rrsets@[f as int]));
                    let merged = rrsets@[f as int];
                    assert(merged.key() == k);
                    assert(merged.datas() =~= old_slot.datas() + compiled_datas(ginfo, origin@));
                    lemma_rrsets_map_update(old_rrsets, f as int, merged);
                    assert(rrsets_map(rrsets@) =~= step_map);
                }
            },
            None => {
                let ghost pre = rrsets@;
                proof {
                    if zone_map(all.take(done as int), origin@).dom().contains(k) {
                        lemma_rrsets_map_dom(pre, k);
                    }
                    assert(!zone_map(all.take(done as int), origin@).dom().contains(k));
                }
                rrsets.push(rs);
                proof {
                    assert(rrsets@.drop_last() =~= pre);
                    assert(rrsets@.last() == rrsets@[rrsets@.len() - 1]);
                    assert(Seq::<RDataV>::empty() + compiled_datas(ginfo, origin@)
                        =~= compiled_datas(ginfo, origin@));
                    assert(rrsets_map(rrsets@) =~= step_map);
                }
            },
        }
        done = done + 1;
    }
    proof {
        assert(all.take(done as int) =~= all);
    }
    let (key, soa_rs) = match get_soa_record(origin) {
        Ok(p) => p,
        Err(e) => {
            return Err(
                SimpleDnsError::ZoneConstruction {
                    domain: origin.to_owned(),
                    cause: Box::new(e),
                },
            );
        },
    };
    let ghost pre_soa = rrsets@;
    match find_rrset(&rrsets, &soa_rs.name, RecordType::SOA) {
        Some(f) => {
            proof {
                lemma_rrsets_map_update(pre_soa, f as int, soa_rs);
            }
            rrsets.set(f, soa_rs);
        },
        None => {
            rrsets.push(soa_rs);
            proof {
                assert(rrsets@.drop_last() =~= pre_soa);
            }
        },
    }
    let zone = Zone { apex: key.name, kind: ZoneKind::Primary, rrsets };
    proof {
        assert(zone@.rrsets =~= full_zone_map(all, origin@));
    }
    Ok(zone)
}

} // verus!
