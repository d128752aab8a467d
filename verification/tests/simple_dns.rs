use simple_dns::addr::{parse_ipv4, parse_ipv6};
use simple_dns::catalog::{assemble, get_forward_authority, Authority, Catalog, HostAddr};
use simple_dns::config::{default_record_type, is_default_record_type};
use simple_dns::name::{check_fqdn, resolve, str_eq};
use simple_dns::record::compile;
use simple_dns::zone::{get_soa_record, load_zone, ZoneKind};
use simple_dns::{
    Config, DomainConfig, Fqdn, RData, RecordInfo, RecordType, SimpleDns, SimpleDnsError,
};

fn info(name: &str, record_type: RecordType, values: &[&str]) -> RecordInfo {
    RecordInfo::new(name, values, record_type)
}

fn rdata_text(d: &RData) -> String {
    match d {
        RData::A(ip) => format!("A {} {} {} {}", ip.o0, ip.o1, ip.o2, ip.o3),
        RData::Aaaa(ip) => format!(
            "AAAA {:x} {:x} {:x} {:x} {:x} {:x} {:x} {:x}",
            ip.g0, ip.g1, ip.g2, ip.g3, ip.g4, ip.g5, ip.g6, ip.g7
        ),
        RData::Cname(f) => format!("CNAME {}", f.as_str()),
        RData::Soa(soa) => format!(
            "SOA {} {} {} {} {} {} {}",
            soa.mname.as_str(),
            soa.rname.as_str(),
            soa.serial,
            soa.refresh,
            soa.retry,
            soa.expire,
            soa.minimum
        ),
    }
}

/// A printable rendering of a catalog's whole structure.
fn catalog_text(c: &Catalog) -> Vec<String> {
    let mut out = Vec::new();
    for entry in &c.entries {
        match &entry.authority {
            Authority::Primary { zone } => {
                let mut lines = Vec::new();
                for rs in &zone.rrsets {
                    let mut line = format!(
                        "{} {:?} ttl={}",
                        rs.name.as_str(),
                        rs.record_type,
                        rs.ttl
                    );
                    for r in &rs.records {
                        line.push_str(&format!(" [{}]", rdata_text(&r.data)));
                    }
                    lines.push(line);
                }
                lines.sort();
                out.push(format!(
                    "{} primary apex={} {}",
                    entry.name.as_str(),
                    zone.apex.as_str(),
                    lines.join(" | ")
                ));
            }
            Authority::Forward { origin, upstreams } => {
                let mut line = format!("{} forward {}", entry.name.as_str(), origin.as_str());
                for u in upstreams {
                    match u.addr {
                        HostAddr::V4(ip) => line.push_str(&format!(
                            " v4:{}.{}.{}.{}:{}",
                            ip.o0, ip.o1, ip.o2, ip.o3, u.port
                        )),
                        HostAddr::V6(ip) => line.push_str(&format!(
                            " v6:[{:x}:{:x}:{:x}:{:x}:{:x}:{:x}:{:x}:{:x}]:{}",
                            ip.g0, ip.g1, ip.g2, ip.g3, ip.g4, ip.g5, ip.g6, ip.g7, u.port
                        )),
                    }
                }
                out.push(line);
            }
        }
    }
    out
}

#[test]
fn resolve_apex_keeps_origin() {
    let f = resolve("@", "example.com.").unwrap();
    assert_eq!(f.as_str(), "example.com.");
}

#[test]
fn resolve_relative_joins_origin() {
    let f = resolve("www", "example.com.").unwrap();
    assert_eq!(f.as_str(), "www.example.com.");
}

#[test]
fn resolve_appends_missing_root_label() {
    assert_eq!(resolve("@", "example.com").unwrap().as_str(), "example.com.");
    assert_eq!(
        resolve("www", "example.com").unwrap().as_str(),
        "www.example.com."
    );
}

#[test]
fn resolve_rejects_empty_labels() {
    assert!(matches!(
        resolve("bad..name", "example.com."),
        Err(SimpleDnsError::NameSyntax { .. })
    ));
    assert!(matches!(
        resolve("", "example.com."),
        Err(SimpleDnsError::NameSyntax { .. })
    ));
}

#[test]
fn resolve_rejects_illegal_characters() {
    assert!(matches!(
        resolve("wh at", "example.com."),
        Err(SimpleDnsError::NameSyntax { .. })
    ));
}

#[test]
fn name_length_bounds() {
    let label63 = "a".repeat(63);
    assert!(resolve(&label63, "example.com.").is_ok());
    let label64 = "a".repeat(64);
    assert!(matches!(
        resolve(&label64, "example.com."),
        Err(SimpleDnsError::NameSyntax { .. })
    ));
    // four 62-character labels joined by dots make 251 characters; with
    // ".co." the name has 255 and is still fine, with ".com." it has 256.
    let long = format!("{0}.{0}.{0}.{0}", "a".repeat(62));
    assert!(check_fqdn(&format!("{}.co.", long)));
    assert!(!check_fqdn(&format!("{}.com.", long)));
    let ok = format!("{}.{}.", "a".repeat(62), "b".repeat(62));
    assert!(check_fqdn(&ok));
}

#[test]
fn check_fqdn_root_and_plain() {
    assert!(check_fqdn("."));
    assert!(check_fqdn("example.com."));
    assert!(!check_fqdn("example.com"));
    assert!(!check_fqdn(""));
    assert!(!check_fqdn(".."));
}

#[test]
fn fqdn_parse_and_root() {
    assert_eq!(Fqdn::parse("example.com.").unwrap().as_str(), "example.com.");
    assert!(matches!(
        Fqdn::parse("example.com"),
        Err(SimpleDnsError::NameSyntax { .. })
    ));
    assert_eq!(Fqdn::root().as_str(), ".");
}

#[test]
fn str_eq_behaves_like_equality() {
    assert!(str_eq("abc", "abc"));
    assert!(!str_eq("abc", "abd"));
    assert!(!str_eq("abc", "abcd"));
    assert!(str_eq("", ""));
}

#[test]
fn ipv4_parses_plain_addresses() {
    let ip = parse_ipv4("1.2.3.4").unwrap();
    assert_eq!((ip.o0, ip.o1, ip.o2, ip.o3), (1, 2, 3, 4));
    let ip = parse_ipv4("0.0.0.0").unwrap();
    assert_eq!((ip.o0, ip.o1, ip.o2, ip.o3), (0, 0, 0, 0));
    let ip = parse_ipv4("255.255.255.255").unwrap();
    assert_eq!((ip.o0, ip.o1, ip.o2, ip.o3), (255, 255, 255, 255));
}

#[test]
fn ipv4_rejects_malformed_addresses() {
    assert!(parse_ipv4("256.0.0.1").is_none());
    assert!(parse_ipv4("1.2.3").is_none());
    assert!(parse_ipv4("1.2.3.4.5").is_none());
    assert!(parse_ipv4("01.2.3.4").is_none());
    assert!(parse_ipv4("1.2.3.").is_none());
    assert!(parse_ipv4(".1.2.3").is_none());
    assert!(parse_ipv4("1.2.3.a").is_none());
    assert!(parse_ipv4("").is_none());
}

#[test]
fn ipv6_parses_plain_and_abbreviated_forms() {
    let ip = parse_ipv6("1:2:3:4:5:6:7:8").unwrap();
    assert_eq!(
        (ip.g0, ip.g1, ip.g2, ip.g3, ip.g4, ip.g5, ip.g6, ip.g7),
        (1, 2, 3, 4, 5, 6, 7, 8)
    );
    let ip = parse_ipv6("::").unwrap();
    assert_eq!(
        (ip.g0, ip.g1, ip.g2, ip.g3, ip.g4, ip.g5, ip.g6, ip.g7),
        (0, 0, 0, 0, 0, 0, 0, 0)
    );
    let ip = parse_ipv6("::1").unwrap();
    assert_eq!(ip.g7, 1);
    assert_eq!(ip.g0, 0);
    let ip = parse_ipv6("2001:4860:4860::8888").unwrap();
    assert_eq!(
        (ip.g0, ip.g1, ip.g2, ip.g3, ip.g4, ip.g5, ip.g6, ip.g7),
        (0x2001, 0x4860, 0x4860, 0, 0, 0, 0, 0x8888)
    );
    let ip = parse_ipv6("1:2:3:4:5:6:7::").unwrap();
    assert_eq!(
        (ip.g0, ip.g1, ip.g2, ip.g3, ip.g4, ip.g5, ip.g6, ip.g7),
        (1, 2, 3, 4, 5, 6, 7, 0)
    );
    let ip = parse_ipv6("aBcD::eF").unwrap();
    assert_eq!((ip.g0, ip.g7), (0xabcd, 0xef));
}

#[test]
fn ipv6_rejects_malformed_addresses() {
    assert!(parse_ipv6("1:2:3:4:5:6:7").is_none());
    assert!(parse_ipv6("1:2:3:4:5:6:7:8:9").is_none());
    assert!(parse_ipv6("1::2::3").is_none());
    assert!(parse_ipv6(":::").is_none());
    assert!(parse_ipv6(":1::2").is_none());
    assert!(parse_ipv6("12345::").is_none());
    assert!(parse_ipv6("g::1").is_none());
    assert!(parse_ipv6("1:").is_none());
    assert!(parse_ipv6("").is_none());
    assert!(parse_ipv6("1:2:3:4:5:6:7:8::").is_none());
}

#[test]
fn compile_rejects_bad_ipv4_value() {
    assert!(matches!(
        compile(RecordType::A, "256.0.0.1", "example.com."),
        Err(SimpleDnsError::RecordValue { record_type: RecordType::A, .. })
    ));
}

#[test]
fn compile_accepts_ipv4_value() {
    let d = compile(RecordType::A, "1.2.3.4", "example.com.").unwrap();
    match d {
        RData::A(ip) => assert_eq!((ip.o0, ip.o1, ip.o2, ip.o3), (1, 2, 3, 4)),
        _ => panic!("expected an address record"),
    }
}

#[test]
fn compile_accepts_ipv6_value() {
    let d = compile(RecordType::AAAA, "::1", "example.com.").unwrap();
    match d {
        RData::Aaaa(ip) => {
            assert_eq!(ip.g7, 1);
            assert_eq!(ip.g0, 0);
        }
        _ => panic!("expected an address record"),
    }
    assert!(matches!(
        compile(RecordType::AAAA, "1::2::3", "example.com."),
        Err(SimpleDnsError::RecordValue { record_type: RecordType::AAAA, .. })
    ));
}

#[test]
fn compile_resolves_cname_target() {
    let d = compile(RecordType::CNAME, "www", "example.com.").unwrap();
    match d {
        RData::Cname(f) => assert_eq!(f.as_str(), "www.example.com."),
        _ => panic!("expected an alias record"),
    }
}

#[test]
fn compile_rejects_unsupported_type() {
    assert!(matches!(
        compile(RecordType::NS, "ns1", "example.com."),
        Err(SimpleDnsError::UnsupportedRecordType { record_type: RecordType::NS })
    ));
    assert!(matches!(
        compile(RecordType::SOA, "x", "example.com."),
        Err(SimpleDnsError::UnsupportedRecordType { record_type: RecordType::SOA })
    ));
}

#[test]
fn default_type_is_address() {
    assert_eq!(default_record_type(), RecordType::A);
    assert!(is_default_record_type(&RecordType::A));
    assert!(!is_default_record_type(&RecordType::CNAME));
}

#[test]
fn record_info_new_copies_parts() {
    let i = RecordInfo::new("www", &["1.2.3.4", "5.6.7.8"], RecordType::A);
    assert_eq!(i.name, "www");
    assert_eq!(i.record_type, RecordType::A);
    assert_eq!(i.records, vec!["1.2.3.4".to_string(), "5.6.7.8".to_string()]);
}

#[test]
fn to_record_set_compiles_values() {
    let rs = info("www", RecordType::A, &["1.2.3.4", "5.6.7.8"])
        .to_record_set("example.com.")
        .unwrap();
    assert_eq!(rs.name.as_str(), "www.example.com.");
    assert_eq!(rs.record_type, RecordType::A);
    assert_eq!(rs.ttl, 3600);
    assert_eq!(rs.records.len(), 2);
    assert_eq!(rs.records[0].ttl, 3600);
    assert_eq!(rs.records[0].name.as_str(), "www.example.com.");
    assert_eq!(rdata_text(&rs.records[0].data), "A 1 2 3 4");
    assert_eq!(rdata_text(&rs.records[1].data), "A 5 6 7 8");
}

#[test]
fn to_record_set_fails_on_first_bad_value() {
    let r = info("www", RecordType::A, &["1.2.3.4", "999.0.0.1"]).to_record_set("example.com.");
    match r {
        Err(SimpleDnsError::RecordValue { record_type, value }) => {
            assert_eq!(record_type, RecordType::A);
            assert_eq!(value, "999.0.0.1");
        }
        _ => panic!("expected a record-value error"),
    }
}

#[test]
fn soa_record_has_fixed_fields() {
    let (key, rs) = get_soa_record("example.com.").unwrap();
    assert_eq!(key.name.as_str(), "example.com.");
    assert_eq!(key.record_type, RecordType::SOA);
    assert_eq!(rs.ttl, 3600);
    assert_eq!(rs.records.len(), 1);
    assert_eq!(
        rdata_text(&rs.records[0].data),
        "SOA sns.dns.icann.org. noc.dns.icann.org. 20 7200 600 3600000 60"
    );
}

#[test]
fn zone_of_one_apex_record() {
    let zone = load_zone(
        "example.com.",
        vec![info("@", RecordType::A, &["1.2.3.4"])],
    )
    .unwrap();
    assert_eq!(zone.apex.as_str(), "example.com.");
    assert_eq!(zone.kind, ZoneKind::Primary);
    assert_eq!(zone.rrsets.len(), 2);
    let a = zone
        .rrsets
        .iter()
        .find(|rs| rs.record_type == RecordType::A)
        .unwrap();
    assert_eq!(a.name.as_str(), "example.com.");
    assert_eq!(a.records.len(), 1);
    assert_eq!(rdata_text(&a.records[0].data), "A 1 2 3 4");
    let soa = zone
        .rrsets
        .iter()
        .find(|rs| rs.record_type == RecordType::SOA)
        .unwrap();
    assert_eq!(soa.name.as_str(), "example.com.");
    match &soa.records[0].data {
        RData::Soa(s) => assert_eq!(s.serial, 20),
        _ => panic!("expected start-of-authority data"),
    }
}

#[test]
fn zone_merges_groups_sharing_a_key() {
    let zone = load_zone(
        "example.com.",
        vec![
            info("www", RecordType::A, &["1.2.3.4"]),
            info("www", RecordType::A, &["5.6.7.8"]),
        ],
    )
    .unwrap();
    // one merged record set for www plus the apex start-of-authority set
    assert_eq!(zone.rrsets.len(), 2);
    let a = zone
        .rrsets
        .iter()
        .find(|rs| rs.record_type == RecordType::A)
        .unwrap();
    assert_eq!(a.name.as_str(), "www.example.com.");
    assert_eq!(a.records.len(), 2);
    assert_eq!(rdata_text(&a.records[0].data), "A 1 2 3 4");
    assert_eq!(rdata_text(&a.records[1].data), "A 5 6 7 8");
}

#[test]
fn zone_keeps_distinct_keys_apart() {
    let zone = load_zone(
        "example.com.",
        vec![
            info("www", RecordType::A, &["1.2.3.4"]),
            info("www", RecordType::AAAA, &["::1"]),
            info("mail", RecordType::A, &["5.6.7.8"]),
        ],
    )
    .unwrap();
    // three configured sets plus the apex start-of-authority set
    assert_eq!(zone.rrsets.len(), 4);
}

#[test]
fn zone_error_names_its_domain() {
    let r = load_zone("example.com.", vec![info("www", RecordType::A, &["nope"])]);
    match r {
        Err(SimpleDnsError::ZoneConstruction { domain, cause }) => {
            assert_eq!(domain, "example.com.");
            assert!(matches!(
                *cause,
                SimpleDnsError::RecordValue { record_type: RecordType::A, .. }
            ));
        }
        _ => panic!("expected a zone-construction error"),
    }
}

#[test]
fn zone_rejects_bad_origin() {
    let r = load_zone("ex ample.com", vec![]);
    match r {
        Err(SimpleDnsError::ZoneConstruction { domain, cause }) => {
            assert_eq!(domain, "ex ample.com");
            assert!(matches!(*cause, SimpleDnsError::NameSyntax { .. }));
        }
        _ => panic!("expected a zone-construction error"),
    }
}

#[test]
fn forward_authority_uses_fixed_upstreams() {
    let a = get_forward_authority(Fqdn::root()).unwrap();
    match a {
        Authority::Forward { origin, upstreams } => {
            assert_eq!(origin.as_str(), ".");
            assert_eq!(upstreams.len(), 4);
            assert!(upstreams.iter().all(|u| u.port == 53));
            match upstreams[0].addr {
                HostAddr::V4(ip) => assert_eq!((ip.o0, ip.o1, ip.o2, ip.o3), (8, 8, 8, 8)),
                _ => panic!("expected the first upstream over IPv4"),
            }
            match upstreams[3].addr {
                HostAddr::V6(ip) => assert_eq!((ip.g0, ip.g7), (0x2001, 0x8844)),
                _ => panic!("expected the last upstream over IPv6"),
            }
        }
        _ => panic!("expected a forwarding authority"),
    }
}

fn two_domain_config() -> Config {
    Config {
        bind: "127.0.0.1:5353".to_string(),
        domains: vec![
            DomainConfig {
                domain: "example.com.".to_string(),
                records: vec![
                    info("@", RecordType::A, &["1.2.3.4"]),
                    info("www", RecordType::CNAME, &["@"]),
                ],
            },
            DomainConfig {
                domain: "example.org.".to_string(),
                records: vec![info("mail", RecordType::AAAA, &["2001:db8::25"])],
            },
        ],
    }
}

#[test]
fn catalog_has_one_entry_per_domain_plus_root() {
    let c = assemble(two_domain_config()).unwrap();
    assert_eq!(c.entries.len(), 3);
    assert_eq!(c.entries[0].name.as_str(), "example.com.");
    assert_eq!(c.entries[1].name.as_str(), "example.org.");
    assert_eq!(c.entries[2].name.as_str(), ".");
    assert!(matches!(c.entries[0].authority, Authority::Primary { .. }));
    assert!(matches!(c.entries[1].authority, Authority::Primary { .. }));
    assert!(matches!(c.entries[2].authority, Authority::Forward { .. }));
}

#[test]
fn catalog_is_deterministic() {
    let c1 = assemble(two_domain_config()).unwrap();
    let c2 = assemble(two_domain_config()).unwrap();
    assert_eq!(catalog_text(&c1), catalog_text(&c2));
}

#[test]
fn unsupported_type_fails_whole_assembly() {
    let config = Config {
        bind: "127.0.0.1:5353".to_string(),
        domains: vec![
            DomainConfig {
                domain: "example.com.".to_string(),
                records: vec![info("@", RecordType::A, &["1.2.3.4"])],
            },
            DomainConfig {
                domain: "example.org.".to_string(),
                records: vec![info("@", RecordType::TXT, &["hello"])],
            },
        ],
    };
    match assemble(config) {
        Err(SimpleDnsError::ZoneConstruction { domain, cause }) => {
            assert_eq!(domain, "example.org.");
            assert!(matches!(
                *cause,
                SimpleDnsError::UnsupportedRecordType { record_type: RecordType::TXT }
            ));
        }
        _ => panic!("expected the assembly to fail on the unsupported type"),
    }
}

#[test]
fn load_catalog_equals_assemble() {
    let c1 = two_domain_config().load_catalog().unwrap();
    let c2 = assemble(two_domain_config()).unwrap();
    assert_eq!(catalog_text(&c1), catalog_text(&c2));
}

#[test]
fn try_load_keeps_bind_address() {
    let dns = SimpleDns::try_load(two_domain_config()).unwrap();
    assert_eq!(dns.addr, "127.0.0.1:5353");
    assert_eq!(dns.catalog.entries.len(), 3);
}

#[test]
fn later_domain_with_same_apex_replaces_earlier() {
    let config = Config {
        bind: "127.0.0.1:5353".to_string(),
        domains: vec![
            DomainConfig {
                domain: "example.com".to_string(),
                records: vec![info("@", RecordType::A, &["1.1.1.1"])],
            },
            DomainConfig {
                domain: "example.com.".to_string(),
                records: vec![info("@", RecordType::A, &["2.2.2.2"])],
            },
        ],
    };
    let c = assemble(config).unwrap();
    // both domains normalize to the same apex, so one entry plus the root
    assert_eq!(c.entries.len(), 2);
    match &c.entries[0].authority {
        Authority::Primary { zone } => {
            let a = zone
                .rrsets
                .iter()
                .find(|rs| rs.record_type == RecordType::A)
                .unwrap();
            assert_eq!(rdata_text(&a.records[0].data), "A 2 2 2 2");
        }
        _ => panic!("expected a primary authority"),
    }
}

#[test]
fn empty_config_yields_root_only() {
    let c = assemble(Config { bind: "0.0.0.0:53".to_string(), domains: vec![] }).unwrap();
    assert_eq!(c.entries.len(), 1);
    assert_eq!(c.entries[0].name.as_str(), ".");
}
