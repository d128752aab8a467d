//! The declarative configuration a catalog is compiled from.

use vstd::prelude::*;
use crate::catalog::{
    assemble, config_ok, distinct_apexes, first_bad_domain, positional_catalog, spec_catalog_map,
    Catalog,
};
use crate::error::SimpleDnsError;
use crate::name::{is_valid_fqdn, resolve, resolved_str};
use crate::zone::zone_cause_ok;
use crate::record::{
    compile, compile_ok, compile_val, is_compile_err, RDataV, RecordSet, RecordType,
    ResourceRecord, DEFAULT_TTL,
};

verus! {

/// The record type a configuration entry gets when none is written.
pub fn default_record_type() -> (r: RecordType)
    ensures
        r == RecordType::A,
{
    RecordType::A
}

/// Whether a record type is the one used by default.
pub fn is_default_record_type(record_type: &RecordType) -> (r: bool)
    ensures
        r == (*record_type == RecordType::A),
{
    *record_type == RecordType::A
}

/// One configured record group: an owner name (`@` for the zone apex,
/// anything else a relative name), a record type, and the textual values.
pub struct RecordInfo {
    pub name: String,
    pub records: Vec<String>,
    pub record_type: RecordType,
}

/// Every part of a record group compiles: the owner name normalizes to a
/// valid name and every value compiles under the group's record type.
pub open spec fn info_ok(info: RecordInfo, origin: Seq<char>) -> bool {
    &&& is_valid_fqdn(resolved_str(info.name@, origin))
    &&& forall|j: int|
        0 <= j < info.records@.len() ==> compile_ok(
            info.record_type,
            (#[trigger] info.records@[j])@,
            origin,
        )
}

/// The compiled data of a record group's values, in order.
pub open spec fn compiled_datas(info: RecordInfo, origin: Seq<char>) -> Seq<RDataV> {
    Seq::new(
        info.records@.len(),
        |j: int| compile_val(info.record_type, info.records@[j]@, origin),
    )
}

/// The position of the first value that does not compile.
pub open spec fn first_bad_value(values: Seq<String>, rt: RecordType, origin: Seq<char>) -> int
    decreases values.len(),
{
    if values.len() == 0 {
        0
    } else if !compile_ok(rt, values[0]@, origin) {
        0
    } else {
        1 + first_bad_value(values.drop_first(), rt, origin)
    }
}

/// The error a failing record group is rejected with: a syntax error on
/// its normalized owner name, else the compile error of its first bad
/// value.
pub open spec fn is_info_err(e: SimpleDnsError, info: RecordInfo, origin: Seq<char>) -> bool {
    if !is_valid_fqdn(resolved_str(info.name@, origin)) {
        e matches SimpleDnsError::NameSyntax { name } && name@ == resolved_str(info.name@, origin)
    } else {
        is_compile_err(
            e,
            info.record_type,
            info.records@[first_bad_value(info.records@, info.record_type, origin)]@,
            origin,
        )
    }
}

proof fn lemma_first_bad_value_at(values: Seq<String>, rt: RecordType, origin: Seq<char>, i: int)
    requires
        0 <= i < values.len(),
        forall|j: int| 0 <= j < i ==> compile_ok(rt, (#[trigger] values[j])@, origin),
        !compile_ok(rt, values[i]@, origin),
    ensures
        first_bad_value(values, rt, origin) == i,
    decreases i,
{
    if i > 0 {
        lemma_first_bad_value_at(values.drop_first(), rt, origin, i - 1);
    }
}

impl RecordInfo {
    /// Builds a record group from borrowed parts.
    pub fn new(name: &str, records: &[&str], record_type: RecordType) -> (r: Self)
        ensures
            r.name@ == name@,
            r.record_type == record_type,
            r.records@.len() == records@.len(),
            forall|j: int| 0 <= j < records@.len() ==> (#[trigger] r.records@[j])@ == records@[j]@,
    {
        let mut values: Vec<String> = Vec::new();
        let mut j: usize = 0;
        while j < records.len()
            invariant
                j <= records@.len(),
                values@.len() == j,
                forall|k: int| 0 <= k < j ==> (#[trigger] values@[k])@ == records@[k]@,
            decreases records@.len() - j,
        {
            values.push(records[j].to_owned());
            j = j + 1;
        }
        RecordInfo { name: name.to_owned(), records: values, record_type }
    }

    /// Compiles this record group against a zone origin into a record
    /// set: the owner name is normalized, every value compiled, and all
    /// records carry the fixed time-to-live.  The first failing part
    /// aborts with its error.
    pub fn to_record_set(self, origin: &str) -> (r: Result<RecordSet, SimpleDnsError>)
        ensures
            info_ok(self, origin@) ==> (r matches Ok(rs) && rs.wf() && rs.name@ == resolved_str(
                self.name@,
                origin@,
            ) && rs.record_type == self.record_type && rs.ttl == DEFAULT_TTL && rs.datas()
                == compiled_datas(self, origin@)),
            !info_ok(self, origin@) ==> (r matches Err(e) && is_info_err(e, self, origin@)),
    {
        let name = match resolve(self.name.as_str(), origin) {
            Ok(f) => f,
            Err(e) => {
                return Err(e);
            },
        };
        let mut records: Vec<ResourceRecord> = Vec::new();
        let mut j: usize = 0;
        while j < self.records.len()
            invariant
                j <= self.records@.len(),
                records@.len() == j,
                is_valid_fqdn(resolved_str(self.name@, origin@)),
                name@ == resolved_str(self.name@, origin@),
                name.valid(),
                forall|k: int|
                    0 <= k < j ==> compile_ok(
                        self.record_type,
                        (#[trigger] self.records@[k])@,
                        origin@,
                    ),
                forall|k: int|
                    0 <= k < j ==> {
                        &&& (#[trigger] records@[k]).name@ == name@
                        &&& records@[k].record_type == self.record_type
                        &&& records@[k].ttl == DEFAULT_TTL
                        &&& records@[k].data@ == compile_val(
                            self.record_type,
                            self.records@[k]@,
                            origin@,
                        )
                        &&& crate::record::rdata_valid(records@[k].data)
                    },
            decreases self.records@.len() - j,
        {
            match compile(self.record_type, self.records[j].as_str(), origin) {
                Ok(data) => {
                    records.push(
                        ResourceRecord {
                            name: name.clone(),
                            record_type: self.record_type,
                            ttl: DEFAULT_TTL,
                            data,
                        },
                    );
                },
                Err(e) => {
                    proof {
                        lemma_first_bad_value_at(
                            self.records@,
                            self.record_type,
                            origin@,
                            j as int,
                        );
                    }
                    return Err(e);
                },
            }
            j = j + 1;
        }
        let rs = RecordSet {
            name,
            record_type: self.record_type,
            ttl: DEFAULT_TTL,
            records,
        };
        proof {
            assert(rs.datas() =~= compiled_datas(self, origin@));
        }
        Ok(rs)
    }
}

/// One configured domain: its name and its record groups, in order.
pub struct DomainConfig {
    pub domain: String,
    pub records: Vec<RecordInfo>,
}

/// The whole configuration: a bind address — opaque to the compilation —
/// and the configured domains, in order.
pub struct Config {
    pub bind: String,
    pub domains: Vec<DomainConfig>,
}

impl Config {
    /// Compiles the configuration into its catalog; the bind address
    /// plays no part.  The first failing domain aborts with its
    /// zone-construction error.
    pub fn load_catalog(self) -> (r: Result<Catalog, SimpleDnsError>)
        ensures
            config_ok(self.domains@) ==> (r matches Ok(c) && c.wf() && c@ == spec_catalog_map(
                self.domains@,
            ) && c.entries@.len() <= self.domains@.len() + 1 && (distinct_apexes(self.domains@)
                ==> positional_catalog(c, self.domains@))),
            !config_ok(self.domains@) ==> (r matches Err(e) && e
                matches SimpleDnsError::ZoneConstruction { domain, cause } && domain@
                == self.domains@[first_bad_domain(self.domains@)].domain@ && zone_cause_ok(
                *cause,
                self.domains@[first_bad_domain(self.domains@)].domain@,
                self.domains@[first_bad_domain(self.domains@)].records@,
            )),
    {
        assemble(self)
    }
}

} // verus!
