//! Resource-record types, typed record data, and the record compiler.

use vstd::prelude::*;
use crate::addr::{Ipv4Addr, Ipv6Addr, spec_parse_ipv4, spec_parse_ipv6, parse_ipv4, parse_ipv6};
use crate::error::SimpleDnsError;
use crate::name::{Fqdn, is_valid_fqdn, resolved_str, resolve};

verus! {

/// The fixed time-to-live every compiled record carries, in seconds.
pub const DEFAULT_TTL: u32 = 3600;

/// The record types a configuration may mention.  Only `A`, `AAAA` and
/// `CNAME` values can be compiled; everything else is rejected as an
/// unsupported configuration.
#[derive(Clone, Copy, Debug, PartialEq, Eq, Hash, Structural)]
pub enum RecordType {
    A,
    AAAA,
    CNAME,
    SOA,
    NS,
    MX,
    TXT,
}

/// Start-of-authority data: the zone's primary name server, the
/// responsible party's mailbox, and the authority timers.
pub struct SoaData {
    pub mname: Fqdn,
    pub rname: Fqdn,
    pub serial: u32,
    pub refresh: i32,
    pub retry: i32,
    pub expire: i32,
    pub minimum: u32,
}

/// Typed record data, the result of compiling one textual record value.
pub enum RData {
    A(Ipv4Addr),
    Aaaa(Ipv6Addr),
    Cname(Fqdn),
    Soa(SoaData),
}

/// The mathematical shape of typed record data: addresses as their octet
/// or group sequences, names as their character sequences.
pub ghost enum RDataV {
    A { octets: Seq<u8> },
    Aaaa { groups: Seq<u16> },
    Cname { target: Seq<char> },
    Soa {
        mname: Seq<char>,
        rname: Seq<char>,
        serial: u32,
        refresh: i32,
        retry: i32,
        expire: i32,
        minimum: u32,
    },
}

impl View for RData {
    type V = RDataV;

    open spec fn view(&self) -> RDataV {
        match self {
            RData::A(ip) => RDataV::A { octets: ip@ },
            RData::Aaaa(ip) => RDataV::Aaaa { groups: ip@ },
            RData::Cname(f) => RDataV::Cname { target: f@ },
            RData::Soa(soa) => RDataV::Soa {
                mname: soa.mname@,
                rname: soa.rname@,
                serial: soa.serial,
                refresh: soa.refresh,
                retry: soa.retry,
                expire: soa.expire,
                minimum: soa.minimum,
            },
        }
    }
}

/// Whether one textual value compiles under the given record type and
/// zone origin.
pub open spec fn compile_ok(rt: RecordType, value: Seq<char>, origin: Seq<char>) -> bool {
    match rt {
        RecordType::A => spec_parse_ipv4(value) is Some,
        RecordType::AAAA => spec_parse_ipv6(value) is Some,
        RecordType::CNAME => is_valid_fqdn(resolved_str(value, origin)),
        _ => false,
    }
}

/// The data a compiling value yields (meaningful when `compile_ok`).
pub open spec fn compile_val(rt: RecordType, value: Seq<char>, origin: Seq<char>) -> RDataV {
    match rt {
        RecordType::A => RDataV::A { octets: spec_parse_ipv4(value)->Some_0 },
        RecordType::AAAA => RDataV::Aaaa { groups: spec_parse_ipv6(value)->Some_0 },
        _ => RDataV::Cname { target: resolved_str(value, origin) },
    }
}

/// The error a non-compiling value is rejected with: a malformed address
/// literal for the address types, a syntax error on the normalized target
/// for `CNAME`, and an unsupported-type error for everything else.
pub open spec fn is_compile_err(
    e: SimpleDnsError,
    rt: RecordType,
    value: Seq<char>,
    origin: Seq<char>,
) -> bool {
    match rt {
        RecordType::A | RecordType::AAAA => e matches SimpleDnsError::RecordValue {
            record_type,
            value: v,
        } && record_type == rt && v@ == value,
        RecordType::CNAME => e matches SimpleDnsError::NameSyntax { name } && name@
            == resolved_str(value, origin),
        _ => e matches SimpleDnsError::UnsupportedRecordType { record_type } && record_type == rt,
    }
}

/// Names inside compiled data are themselves well-formed.
pub open spec fn rdata_valid(d: RData) -> bool {
    match d {
        RData::Cname(f) => f.valid(),
        RData::Soa(soa) => soa.mname.valid() && soa.rname.valid(),
        _ => true,
    }
}

/// Converts a record type and one textual value into typed record data:
/// `A` and `AAAA` values are parsed as address literals, a `CNAME` value
/// is normalized against the zone origin like an owner name, and any
/// other record type is rejected as unsupported configuration.
pub fn compile(record_type: RecordType, value: &str, origin: &str) -> (r: Result<
    RData,
    SimpleDnsError,
>)
    ensures
        compile_ok(record_type, value@, origin@) ==> (r matches Ok(d) && d@ == compile_val(
            record_type,
            value@,
            origin@,
        ) && rdata_valid(d)),
        !compile_ok(record_type, value@, origin@) ==> (r matches Err(e) && is_compile_err(
            e,
            record_type,
            value@,
            origin@,
        )),
{
    match record_type {
        RecordType::A => match parse_ipv4(value) {
            Some(ip) => Ok(RData::A(ip)),
            None => Err(
                SimpleDnsError::RecordValue { record_type, value: value.to_owned() },
            ),
        },
        RecordType::AAAA => match parse_ipv6(value) {
            Some(ip) => Ok(RData::Aaaa(ip)),
            None => Err(
                SimpleDnsError::RecordValue { record_type, value: value.to_owned() },
            ),
        },
        RecordType::CNAME => match resolve(value, origin) {
            Ok(f) => Ok(RData::Cname(f)),
            Err(e) => Err(e),
        },
        _ => Err(SimpleDnsError::UnsupportedRecordType { record_type }),
    }
}

/// One resource record: owner name, type, fixed time-to-live, and data.
pub struct ResourceRecord {
    pub name: Fqdn,
    pub record_type: RecordType,
    pub ttl: u32,
    pub data: RData,
}

/// All records sharing one (owner name, record type) key.
pub struct RecordSet {
    pub name: Fqdn,
    pub record_type: RecordType,
    pub ttl: u32,
    pub records: Vec<ResourceRecord>,
}

/// The key a zone stores a record set under.
pub struct RrKey {
    pub name: Fqdn,
    pub record_type: RecordType,
}

impl RecordSet {
    /// The key this set belongs under.
    pub open spec fn key(&self) -> (Seq<char>, RecordType) {
        (self.name@, self.record_type)
    }

    /// The data of the records, in insertion order.
    pub open spec fn datas(&self) -> Seq<RDataV> {
        self.records@.map(|i: int, r: ResourceRecord| r.data@)
    }

    /// Every record agrees with the set's owner name, type and
    /// time-to-live, and all names involved are well-formed.
    pub open spec fn wf(&self) -> bool {
        &&& self.name.valid()
        &&& forall|i: int|
            0 <= i < self.records@.len() ==> {
                &&& (#[trigger] self.records@[i]).name@ == self.name@
                &&& self.records@[i].record_type == self.record_type
                &&& self.records@[i].ttl == self.ttl
                &&& rdata_valid(self.records@[i].data)
            }
    }
}

} // verus!
