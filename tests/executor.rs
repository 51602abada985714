use std::cell::RefCell;

use clouddns_nat_helper::executor::{Executor, ExecutorError, RunResult};
use clouddns_nat_helper::ipv4source::{first_resolved, FixedSource, Ipv4Source, SourceError};
use clouddns_nat_helper::net::{Ipv4, Ipv6};
use clouddns_nat_helper::plan::{Action, Policy};
use clouddns_nat_helper::provider::{
    DnsProvider, DnsRecord, ProviderError, RecordContent, TxTRegistryProvider, TTL,
};
use clouddns_nat_helper::registry::{txt_record_string, Ownership, RegistryError, TxtRegistry};

static TENANT: &str = "tenant";

#[derive(Default)]
struct FakeProvider {
    records: Vec<DnsRecord>,
    no_dry_run: bool,
    failing_apply: Vec<String>,
    applied: RefCell<Vec<Action>>,
    dry: bool,
}

impl DnsProvider for FakeProvider {
    fn enable_dry_run(&mut self) -> Result<(), ProviderError> {
        if self.no_dry_run {
            Err(ProviderError::DryRunNotSupported)
        } else {
            self.dry = true;
            Ok(())
        }
    }
    fn dry_run(&self) -> bool {
        self.dry
    }
    fn ttl(&self) -> Option<TTL> {
        None
    }
    fn set_ttl(&mut self, _ttl: TTL) {}
    fn records(&self) -> Result<Vec<DnsRecord>, ProviderError> {
        Ok(self.records.clone())
    }
    fn apply(&self, action: &Action) -> Result<(), ProviderError> {
        let name = match action {
            Action::ClaimAndUpdate(d, _) | Action::Update(d, _) | Action::DeleteAndRelease(d) => d,
        };
        if self.failing_apply.contains(name) {
            return Err(ProviderError::Internal("apply failed".to_string()));
        }
        self.applied.borrow_mut().push(action.clone());
        Ok(())
    }
}

impl TxTRegistryProvider for FakeProvider {
    fn create_txt_record(&self, _domain: String, _content: String) -> Result<(), ProviderError> {
        Ok(())
    }
    fn delete_txt_record(&self, domain: String, _content: String) -> Result<(), ProviderError> {
        if domain == "release-fails.example.com" {
            Err(ProviderError::Internal("release failed".to_string()))
        } else {
            Ok(())
        }
    }
}

struct NoSource;

impl Ipv4Source for NoSource {
    fn addr(&self) -> Result<Ipv4, SourceError> {
        Err(SourceError::new("no address".to_string()))
    }
}

fn rec(name: &str, content: RecordContent) -> DnsRecord {
    DnsRecord { domain_name: name.to_string(), content }
}

fn zone() -> Vec<DnsRecord> {
    let aaaa = Ipv6::new(0xfd42, 0, 0, 0, 0, 0, 0, 1);
    let marker = txt_record_string(TENANT);
    vec![
        rec("new.example.com", RecordContent::Aaaa(aaaa)),
        rec("stale.example.com", RecordContent::Aaaa(aaaa)),
        rec("stale.example.com", RecordContent::A(Ipv4::new(1, 1, 1, 1))),
        rec("stale.example.com", RecordContent::Txt(marker.clone())),
        rec("gone.example.com", RecordContent::A(Ipv4::new(1, 1, 1, 1))),
        rec("gone.example.com", RecordContent::Txt(marker.clone())),
        rec("release-fails.example.com", RecordContent::A(Ipv4::new(1, 1, 1, 1))),
        rec("release-fails.example.com", RecordContent::Txt(marker)),
    ]
}

fn target() -> Ipv4 {
    Ipv4::new(192, 0, 2, 1)
}

fn contains(res: &RunResult, a: &Action) -> bool {
    res.successes.contains(a)
}

fn failed_with<'a>(res: &'a RunResult, a: &Action) -> Vec<&'a ExecutorError> {
    res.failures.iter().filter(|(f, _)| f == a).map(|(_, e)| e).collect()
}

#[test]
fn run_applies_every_action() {
    let registry = TxtRegistry::from_provider(
        TENANT.to_string(),
        FakeProvider { records: zone(), ..Default::default() },
    )
    .unwrap();
    let provider = FakeProvider { records: zone(), failing_apply: vec!["gone.example.com".to_string()], ..Default::default() };
    let mut exec = Executor::try_new(FixedSource::from_addr(target()), provider, registry, Policy::Sync, false)
        .unwrap_or_else(|_| panic!("executor"));
    let res = exec.run().unwrap_or_else(|_| panic!("run"));

    let create = Action::ClaimAndUpdate("new.example.com".to_string(), target());
    let update = Action::Update("stale.example.com".to_string(), target());
    let gone = Action::DeleteAndRelease("gone.example.com".to_string());
    let release_fails = Action::DeleteAndRelease("release-fails.example.com".to_string());

    assert!(contains(&res, &create));
    assert!(contains(&res, &update));
    // the deletion failed, the release still went through
    assert!(contains(&res, &gone));
    assert!(matches!(failed_with(&res, &gone)[..], [ExecutorError::Provider(_)]));
    // the deletion went through, the release failed
    assert!(!contains(&res, &release_fails));
    assert!(matches!(failed_with(&res, &release_fails)[..], [ExecutorError::Registry(_)]));
    assert_eq!(res.successes.len(), 3);
    assert_eq!(res.failures.len(), 2);
}

#[test]
fn run_on_settled_zone_changes_nothing() {
    let aaaa = Ipv6::new(0xfd42, 0, 0, 0, 0, 0, 0, 1);
    let records = vec![
        rec("ok.example.com", RecordContent::Aaaa(aaaa)),
        rec("ok.example.com", RecordContent::A(target())),
        rec("ok.example.com", RecordContent::Txt(txt_record_string(TENANT))),
    ];
    let registry =
        TxtRegistry::from_provider(TENANT.to_string(), FakeProvider { records: records.clone(), ..Default::default() })
            .unwrap();
    let provider = FakeProvider { records, ..Default::default() };
    let mut exec = Executor::try_new(FixedSource::from_addr(target()), provider, registry, Policy::Sync, false)
        .unwrap_or_else(|_| panic!("executor"));
    let res = exec.run().unwrap_or_else(|_| panic!("run"));
    assert!(res.successes.is_empty());
    assert!(res.failures.is_empty());
}

#[test]
fn failing_source_fails_the_run() {
    let registry =
        TxtRegistry::from_provider(TENANT.to_string(), FakeProvider { records: zone(), ..Default::default() }).unwrap();
    let provider = FakeProvider { records: zone(), ..Default::default() };
    let mut exec = Executor::try_new(NoSource, provider, registry, Policy::Sync, false)
        .unwrap_or_else(|_| panic!("executor"));
    match exec.run() {
        Err(ExecutorError::Source(e)) => assert_eq!(e.message(), "no address"),
        _ => panic!("expected a source error"),
    }
}

#[test]
fn dry_run_needs_provider_support() {
    let registry =
        TxtRegistry::from_provider(TENANT.to_string(), FakeProvider { records: zone(), ..Default::default() }).unwrap();
    let provider = FakeProvider { records: zone(), no_dry_run: true, ..Default::default() };
    let r = Executor::try_new(FixedSource::from_addr(target()), provider, registry, Policy::Sync, true);
    assert!(matches!(r, Err(ExecutorError::Provider(ProviderError::DryRunNotSupported))));
}

#[test]
fn dry_run_releases_without_provider() {
    let registry =
        TxtRegistry::from_provider(TENANT.to_string(), FakeProvider { records: zone(), ..Default::default() }).unwrap();
    let provider = FakeProvider { records: zone(), ..Default::default() };
    let mut exec = Executor::try_new(FixedSource::from_addr(target()), provider, registry, Policy::Sync, true)
        .unwrap_or_else(|_| panic!("executor"));
    let res = exec.run().unwrap_or_else(|_| panic!("run"));
    assert!(contains(&res, &Action::DeleteAndRelease("release-fails.example.com".to_string())));
    assert!(res.failures.is_empty());
}

#[test]
fn fixed_source_gives_its_address() {
    let s = FixedSource::from_addr(target());
    assert_eq!(s.addr(), Ok(target()));
    assert_eq!(s.fixed_addr(), target());
}

#[test]
fn should_return_ip_address() {
    let first = Ipv4::new(203, 0, 113, 7);
    let addrs = vec![first, Ipv4::new(203, 0, 113, 8)];
    assert_eq!(first_resolved("host.example.com", &addrs), Ok(first));
    match first_resolved("host.example.com", &vec![]) {
        Err(e) => assert_eq!(e.message(), "query for host host.example.com did not return an IPv4 address"),
        Ok(_) => panic!("expected an error"),
    }
}

#[test]
fn claimed_domain_stays_owned_after_run() {
    let registry =
        TxtRegistry::from_provider(TENANT.to_string(), FakeProvider { records: zone(), ..Default::default() }).unwrap();
    let provider = FakeProvider { records: zone(), ..Default::default() };
    let mut exec = Executor::try_new(FixedSource::from_addr(target()), provider, registry, Policy::CreateOnly, false)
        .unwrap_or_else(|_| panic!("executor"));
    let res = exec.run().unwrap_or_else(|_| panic!("run"));
    assert_eq!(res.successes, vec![Action::ClaimAndUpdate("new.example.com".to_string(), target())]);
    let _ = Ownership::Owned;
}

#[test]
fn apply_plan_for_uses_the_given_address() {
    let registry =
        TxtRegistry::from_provider(TENANT.to_string(), FakeProvider { records: zone(), ..Default::default() }).unwrap();
    let provider = FakeProvider { records: zone(), ..Default::default() };
    let mut exec = Executor::try_new(NoSource, provider, registry, Policy::CreateOnly, false)
        .unwrap_or_else(|_| panic!("executor"));
    let other = Ipv4::new(198, 51, 100, 9);
    let res = exec.apply_plan_for(other);
    assert_eq!(res.successes, vec![Action::ClaimAndUpdate("new.example.com".to_string(), other)]);
    assert!(res.failures.is_empty());
}

#[test]
fn failed_release_is_reported_with_its_error() {
    let registry =
        TxtRegistry::from_provider(TENANT.to_string(), FakeProvider { records: zone(), ..Default::default() }).unwrap();
    let provider = FakeProvider { records: zone(), ..Default::default() };
    let mut exec = Executor::try_new(FixedSource::from_addr(target()), provider, registry, Policy::Sync, false)
        .unwrap_or_else(|_| panic!("executor"));
    let res = exec.run().unwrap_or_else(|_| panic!("run"));
    let action = Action::DeleteAndRelease("release-fails.example.com".to_string());
    let errs = failed_with(&res, &action);
    assert_eq!(errs.len(), 1);
    assert_eq!(
        errs[0],
        &ExecutorError::Registry(RegistryError::ReleaseError {
            domain: "release-fails.example.com".to_string(),
            reason: "Provider Error: Internal provider Error: `release failed`".to_string(),
        })
    );
}
