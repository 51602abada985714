use std::cell::RefCell;

use clouddns_nat_helper::net::{Ipv4, Ipv6};
use clouddns_nat_helper::plan::Action;
use clouddns_nat_helper::provider::{
    DnsProvider, DnsRecord, ProviderError, RecordContent, TxTRegistryProvider, TTL,
};
use clouddns_nat_helper::registry::{
    determine_ownership, has_prefix, txt_record_string, Domain, Ownership, RegistryError,
    TxtRegistry,
};

static TENANT: &str = "evil;test_tennant;name";

struct FakeProvider {
    records: Vec<DnsRecord>,
    fail_writes: bool,
    writes: RefCell<Vec<(String, String, String)>>,
}

impl FakeProvider {
    fn new(records: Vec<DnsRecord>) -> FakeProvider {
        FakeProvider { records, fail_writes: false, writes: RefCell::new(vec![]) }
    }
}

impl DnsProvider for FakeProvider {
    fn enable_dry_run(&mut self) -> Result<(), ProviderError> {
        Ok(())
    }
    fn dry_run(&self) -> bool {
        false
    }
    fn ttl(&self) -> Option<TTL> {
        None
    }
    fn set_ttl(&mut self, _ttl: TTL) {}
    fn records(&self) -> Result<Vec<DnsRecord>, ProviderError> {
        Ok(self.records.clone())
    }
    fn apply(&self, _action: &Action) -> Result<(), ProviderError> {
        Ok(())
    }
}

impl TxTRegistryProvider for FakeProvider {
    fn create_txt_record(&self, domain: String, content: String) -> Result<(), ProviderError> {
        if self.fail_writes {
            return Err(ProviderError::Internal("boom".to_string()));
        }
        self.writes.borrow_mut().push(("create".to_string(), domain, content));
        Ok(())
    }
    fn delete_txt_record(&self, domain: String, content: String) -> Result<(), ProviderError> {
        if self.fail_writes {
            return Err(ProviderError::Internal("boom".to_string()));
        }
        self.writes.borrow_mut().push(("delete".to_string(), domain, content));
        Ok(())
    }
}

fn rec(name: &str, content: RecordContent) -> DnsRecord {
    DnsRecord { domain_name: name.to_string(), content }
}

fn records() -> Vec<DnsRecord> {
    vec![
        rec("owned.example.com", RecordContent::A(Ipv4::new(10, 1, 1, 1))),
        rec("owned.example.com", RecordContent::Txt(txt_record_string(TENANT))),
        rec("available.example.com", RecordContent::Aaaa(Ipv6::new(0xfd42, 1, 1, 1, 1, 1, 1, 1))),
        rec("taken.example.com", RecordContent::A(Ipv4::new(10, 1, 1, 2))),
        rec("other-owner.example.com", RecordContent::A(Ipv4::new(10, 1, 1, 3))),
        rec("other-owner.example.com", RecordContent::Txt(txt_record_string("other_tenant"))),
        rec("conflict.example.com", RecordContent::Txt(txt_record_string("other_tenant"))),
        rec("conflict.example.com", RecordContent::Txt(txt_record_string(TENANT))),
        rec("conflict.example.com", RecordContent::Aaaa(Ipv6::new(0xfd42, 1, 1, 1, 1, 1, 1, 2))),
        rec("conflict.example.com", RecordContent::A(Ipv4::new(10, 1, 1, 2))),
    ]
}

fn owned_d() -> Domain {
    Domain {
        name: "owned.example.com".to_string(),
        a: vec![Ipv4::new(10, 1, 1, 1)],
        aaaa: vec![],
        txt: vec![txt_record_string(TENANT)],
        a_ownership: Ownership::Owned,
    }
}

fn available_d() -> Domain {
    Domain {
        name: "available.example.com".to_string(),
        aaaa: vec![Ipv6::new(0xfd42, 1, 1, 1, 1, 1, 1, 1)],
        a: vec![],
        txt: vec![],
        a_ownership: Ownership::Available,
    }
}

fn taken_d() -> Domain {
    Domain {
        name: "taken.example.com".to_string(),
        a: vec![Ipv4::new(10, 1, 1, 2)],
        aaaa: vec![],
        txt: vec![],
        a_ownership: Ownership::Taken,
    }
}

fn other_owner_d() -> Domain {
    Domain {
        name: "other-owner.example.com".to_string(),
        a: vec![Ipv4::new(10, 1, 1, 3)],
        aaaa: vec![],
        txt: vec![txt_record_string("other_tenant")],
        a_ownership: Ownership::Taken,
    }
}

fn conflict_d() -> Domain {
    Domain {
        name: "conflict.example.com".to_string(),
        a: vec![Ipv4::new(10, 1, 1, 2)],
        aaaa: vec![Ipv6::new(0xfd42, 1, 1, 1, 1, 1, 1, 2)],
        txt: vec![txt_record_string(TENANT), txt_record_string("other_tenant")],
        a_ownership: Ownership::Taken,
    }
}

fn registry() -> TxtRegistry<FakeProvider> {
    TxtRegistry::from_provider(TENANT.to_string(), FakeProvider::new(records())).unwrap()
}

#[test]
fn detects_owned_domains() {
    let rg = registry();

    assert!(rg.owned_domains().len() == 1);
    assert_eq!(rg.owned_domains().get(0).unwrap(), &owned_d());
}

#[test]
fn claims_available_domain() {
    let mut rg = registry();

    rg.claim(available_d().name.as_str()).unwrap();

    assert!(rg.owned_domains().len() == 2);
    assert!(rg.owned_domains().contains(&owned_d()));
    let mut available_d = available_d();
    available_d.a_ownership = Ownership::Owned;

    assert!(rg.owned_domains().contains(&available_d));
}

#[test]
fn ignores_claimm_on_owned_domain() {
    let mut rg = registry();

    let before = rg.owned_domains();
    rg.claim(owned_d().name.as_str()).unwrap();
    let after = rg.owned_domains();

    assert_eq!(before, after);
    assert!(rg.owned_domains().len() == 1);
    assert!(rg.owned_domains().contains(&owned_d()));
}

#[test]
fn errors_on_taken_domain_claim() {
    let mut rg = registry();

    rg.claim(taken_d().name.as_str()).unwrap_err();

    assert!(rg.owned_domains().len() == 1);
    assert!(rg.owned_domains().contains(&owned_d()));
}

#[test]
fn errors_on_other_owner_domain_claim() {
    let mut rg = registry();

    rg.claim(other_owner_d().name.as_str()).unwrap_err();

    assert!(rg.owned_domains().len() == 1);
    assert!(rg.owned_domains().contains(&owned_d()));
}

#[test]
fn releases_owned_domain() {
    let mut rg = registry();

    rg.release(owned_d().name.as_str()).unwrap();
    assert!(rg.owned_domains().is_empty());
}

#[test]
fn ignores_release_on_available() {
    let mut rg = registry();

    rg.release(available_d().name.as_str()).unwrap();

    assert!(rg.owned_domains().len() == 1);
    assert!(rg.owned_domains().get(0).unwrap() == &owned_d());
}

#[test]
fn errors_on_other_owner_release() {
    let mut rg = registry();

    rg.release(other_owner_d().name.as_str()).unwrap_err();
    rg.release(taken_d().name.as_str()).unwrap_err();

    assert!(rg.owned_domains().len() == 1);
    assert!(rg.owned_domains().get(0).unwrap() == &owned_d());
}

#[test]
fn errors_on_claiming_unknown_domain() {
    let mut rg = registry();

    rg.claim("unknown.example.com").unwrap_err();
}

#[test]
fn errors_on_releasing_unknown_domain() {
    let mut rg = registry();

    rg.release("unknown.example.com").unwrap_err();
}

#[test]
fn ignores_conflicting_domains() {
    let mut rg = registry();

    assert!(!rg.owned_domains().contains(&conflict_d()));

    rg.claim(conflict_d().name.as_str()).unwrap_err();
    rg.release(conflict_d().name.as_str()).unwrap_err();

    assert!(rg.owned_domains().len() == 1);
    assert!(rg.owned_domains().get(0).unwrap() == &owned_d());
}

#[test]
fn marker_strips_separators_from_tenant() {
    assert_eq!(txt_record_string(TENANT), "clouddns_nat_eviltest_tennantname;rec: A");
    assert_eq!(txt_record_string("other_tenant"), "clouddns_nat_other_tenant;rec: A");
    assert_eq!(txt_record_string(""), "clouddns_nat_;rec: A");
}

#[test]
fn prefix_check() {
    assert!(has_prefix("clouddns_nat_x", "clouddns_nat"));
    assert!(has_prefix("abc", ""));
    assert!(!has_prefix("clouddns", "clouddns_nat"));
    assert!(!has_prefix("xclouddns_nat", "clouddns_nat"));
}

fn domain(a: Vec<Ipv4>, txt: Vec<String>) -> Domain {
    Domain {
        name: "d.example.com".to_string(),
        a,
        aaaa: vec![],
        txt,
        a_ownership: Ownership::Taken,
    }
}

#[test]
fn two_markers_make_a_domain_taken_even_with_ours() {
    let d = domain(vec![], vec![txt_record_string("tenant_a"), txt_record_string("tenant_b")]);
    assert_eq!(determine_ownership(&d, "tenant_a"), Ownership::Taken);
    assert_eq!(determine_ownership(&d, "tenant_b"), Ownership::Taken);

    let rg = TxtRegistry::from_provider(
        "tenant_a".to_string(),
        FakeProvider::new(vec![
            rec("two.example.com", RecordContent::Txt(txt_record_string("tenant_a"))),
            rec("two.example.com", RecordContent::Txt(txt_record_string("tenant_b"))),
        ]),
    )
    .unwrap();
    assert_eq!(rg.taken_domains().len(), 1);
    assert!(rg.owned_domains().is_empty());
}

#[test]
fn ownership_cases() {
    let ip = Ipv4::new(10, 0, 0, 1);
    assert_eq!(determine_ownership(&domain(vec![], vec![]), "t"), Ownership::Available);
    assert_eq!(determine_ownership(&domain(vec![ip], vec![]), "t"), Ownership::Taken);
    assert_eq!(
        determine_ownership(&domain(vec![], vec!["unrelated".to_string()]), "t"),
        Ownership::Available
    );
    assert_eq!(determine_ownership(&domain(vec![ip], vec![txt_record_string("t")]), "t"), Ownership::Owned);
    assert_eq!(determine_ownership(&domain(vec![], vec![txt_record_string("t")]), "t"), Ownership::Owned);
    assert_eq!(determine_ownership(&domain(vec![], vec![txt_record_string("u")]), "t"), Ownership::Taken);
    assert_eq!(
        determine_ownership(&domain(vec![], vec!["clouddns_nat_garbage".to_string()]), "t"),
        Ownership::Taken
    );
}

#[test]
fn repeated_marker_counts_once() {
    let m = txt_record_string("t");
    let d = domain(vec![], vec![m.clone(), "x".to_string(), m]);
    assert_eq!(determine_ownership(&d, "t"), Ownership::Owned);
}

#[test]
fn marker_round_trip_and_other_tenant() {
    let d = domain(vec![Ipv4::new(1, 2, 3, 4)], vec![txt_record_string("alpha")]);
    assert_eq!(determine_ownership(&d, "alpha"), Ownership::Owned);
    assert_eq!(determine_ownership(&d, "beta"), Ownership::Taken);
    assert_eq!(determine_ownership(&d, "al;pha"), Ownership::Owned);
}

#[test]
fn same_sets_same_ownership() {
    let ip = Ipv4::new(10, 0, 0, 1);
    let m = txt_record_string("t");
    let d1 = domain(vec![ip], vec![m.clone(), "x".to_string()]);
    let d2 = domain(vec![ip, ip], vec!["x".to_string(), m.clone(), m]);
    assert_eq!(determine_ownership(&d1, "t"), determine_ownership(&d2, "t"));
}

#[test]
fn records_are_grouped_and_deduplicated() {
    let rg = TxtRegistry::from_provider(
        "t".to_string(),
        FakeProvider::new(vec![
            rec("a.example.com", RecordContent::A(Ipv4::new(1, 1, 1, 1))),
            rec("b.example.com", RecordContent::Aaaa(Ipv6::new(0xfd42, 0, 0, 0, 0, 0, 0, 1))),
            rec("a.example.com", RecordContent::A(Ipv4::new(1, 1, 1, 1))),
            rec("a.example.com", RecordContent::Txt("hello".to_string())),
            rec("a.example.com", RecordContent::Txt("hello".to_string())),
            rec("b.example.com", RecordContent::Aaaa(Ipv6::new(0xfd42, 0, 0, 0, 0, 0, 0, 1))),
        ]),
    )
    .unwrap();
    let all = rg.all_domains();
    assert_eq!(all.len(), 2);
    assert_eq!(all[0].name, "a.example.com");
    assert_eq!(all[0].a, vec![Ipv4::new(1, 1, 1, 1)]);
    assert_eq!(all[0].txt, vec!["hello".to_string()]);
    assert_eq!(all[0].ownership(), Ownership::Taken);
    assert_eq!(all[1].name, "b.example.com");
    assert_eq!(all[1].aaaa.len(), 1);
    assert_eq!(all[1].ownership(), Ownership::Available);
    assert_eq!(rg.available_domains().len(), 1);
    assert_eq!(rg.domain_count(), 2);
}

#[test]
fn empty_zone_gives_empty_registry() {
    let rg = TxtRegistry::from_provider("t".to_string(), FakeProvider::new(vec![])).unwrap();
    assert!(rg.all_domains().is_empty());
}

struct BrokenProvider;

impl DnsProvider for BrokenProvider {
    fn enable_dry_run(&mut self) -> Result<(), ProviderError> {
        Err(ProviderError::DryRunNotSupported)
    }
    fn dry_run(&self) -> bool {
        false
    }
    fn ttl(&self) -> Option<TTL> {
        None
    }
    fn set_ttl(&mut self, _ttl: TTL) {}
    fn records(&self) -> Result<Vec<DnsRecord>, ProviderError> {
        Err(ProviderError::Internal("down".to_string()))
    }
    fn apply(&self, _action: &Action) -> Result<(), ProviderError> {
        Err(ProviderError::Internal("down".to_string()))
    }
}

impl TxTRegistryProvider for BrokenProvider {
    fn create_txt_record(&self, _domain: String, _content: String) -> Result<(), ProviderError> {
        Err(ProviderError::Internal("down".to_string()))
    }
    fn delete_txt_record(&self, _domain: String, _content: String) -> Result<(), ProviderError> {
        Err(ProviderError::Internal("down".to_string()))
    }
}

#[test]
fn unreadable_provider_fails_construction() {
    match TxtRegistry::from_provider("t".to_string(), BrokenProvider) {
        Err(RegistryError::Internal(msg)) => assert_eq!(msg, "Internal provider Error: `down`"),
        _ => panic!("expected an internal error"),
    }
}

#[test]
fn claim_writes_marker_and_release_deletes_it() {
    let mut rg = registry();
    rg.claim("available.example.com").unwrap();
    rg.release("owned.example.com").unwrap();
    let all = rg.all_domains();
    let owned = all.iter().find(|d| d.name == "owned.example.com").unwrap();
    assert_eq!(owned.ownership(), Ownership::Available);
}

#[test]
fn failed_claim_reports_provider_error_and_changes_nothing() {
    let mut provider = FakeProvider::new(records());
    provider.fail_writes = true;
    let mut rg = TxtRegistry::from_provider(TENANT.to_string(), provider).unwrap();
    let before = rg.all_domains();
    match rg.claim("available.example.com") {
        Err(RegistryError::ClaimError { domain, reason }) => {
            assert_eq!(domain, "available.example.com");
            assert_eq!(reason, "Provider Error: Internal provider Error: `boom`");
        }
        _ => panic!("expected a claim error"),
    }
    match rg.release("owned.example.com") {
        Err(RegistryError::ReleaseError { domain, reason }) => {
            assert_eq!(domain, "owned.example.com");
            assert_eq!(reason, "Provider Error: Internal provider Error: `boom`");
        }
        _ => panic!("expected a release error"),
    }
    assert_eq!(rg.all_domains(), before);
}

#[test]
fn dry_run_claims_without_provider() {
    let mut provider = FakeProvider::new(records());
    provider.fail_writes = true;
    let mut rg = TxtRegistry::from_provider(TENANT.to_string(), provider).unwrap();
    rg.enable_dry_run().unwrap();
    rg.claim("available.example.com").unwrap();
    rg.release("owned.example.com").unwrap();
    assert_eq!(rg.owned_domains().len(), 1);
    assert_eq!(rg.owned_domains()[0].name, "available.example.com");
}

#[test]
fn error_reasons() {
    let mut rg = registry();
    match rg.claim("unknown.example.com") {
        Err(RegistryError::ClaimError { domain, reason }) => {
            assert_eq!(domain, "unknown.example.com");
            assert_eq!(reason, "Not in registry");
        }
        _ => panic!("expected a claim error"),
    }
    match rg.release("taken.example.com") {
        Err(RegistryError::ReleaseError { domain, reason }) => {
            assert_eq!(domain, "taken.example.com");
            assert_eq!(reason, "Owned by other instance");
        }
        _ => panic!("expected a release error"),
    }
}

#[test]
fn provider_error_messages() {
    assert_eq!(
        ProviderError::DryRunNotSupported.message(),
        "The selected provider does not support dry-run mode"
    );
    assert_eq!(ProviderError::Internal("x".to_string()).message(), "Internal provider Error: `x`");
}

#[test]
fn address_values() {
    assert_eq!(Ipv4::new(10, 1, 1, 1).0, 0x0a01_0101);
    assert_eq!(Ipv4::new(255, 255, 255, 255).0, u32::MAX);
    assert_eq!(Ipv6::new(0xfd42, 1, 1, 1, 1, 1, 1, 3).0, 0xfd42_0001_0001_0001_0001_0001_0001_0003);
    assert_eq!(Ipv6::new(0xffff, 0xffff, 0xffff, 0xffff, 0xffff, 0xffff, 0xffff, 0xffff).0, u128::MAX);
}
