use clouddns_nat_helper::cloudflare_dns::{
    has_suffix, record_ops, to_dns_records, zone_records, ApiError, CfRecord, Pager, RecordOp,
    CLOUDFLARE_ZONE_PAGE_SIZE, NOT_FOUND,
};
use clouddns_nat_helper::plan::Action;
use clouddns_nat_helper::net::{Ipv4, Ipv6};
use clouddns_nat_helper::provider::{DnsRecord, RecordContent};

fn err(status: Option<u16>) -> ApiError {
    ApiError { status, message: "failed".to_string() }
}

#[test]
fn pager_stops_on_short_page() {
    let mut p: Pager<u32> = Pager::new(3);
    assert_eq!(p.page, 1);
    p.receive(Ok(vec![1, 2, 3]));
    assert!(!p.done);
    assert_eq!(p.page, 2);
    p.receive(Ok(vec![4]));
    assert!(p.done);
    assert_eq!(p.finish(), Ok(vec![4, 1, 2, 3]));
}

#[test]
fn pager_fails_on_first_page_error() {
    let mut p: Pager<u32> = Pager::new(3);
    p.receive(Err(err(Some(NOT_FOUND))));
    assert!(p.done);
    assert_eq!(p.finish(), Err(err(Some(NOT_FOUND))));
}

#[test]
fn pager_treats_missing_later_page_as_end() {
    let mut p: Pager<u32> = Pager::new(2);
    p.receive(Ok(vec![1, 2]));
    p.receive(Err(err(Some(NOT_FOUND))));
    assert!(p.done);
    assert_eq!(p.finish(), Ok(vec![1, 2]));
}

#[test]
fn pager_fails_on_other_later_error() {
    let mut p: Pager<u32> = Pager::new(2);
    p.receive(Ok(vec![1, 2]));
    p.receive(Err(err(Some(500))));
    assert_eq!(p.finish(), Err(err(Some(500))));
    let mut q: Pager<u32> = Pager::new(2);
    q.receive(Ok(vec![1, 2]));
    q.receive(Err(err(None)));
    assert_eq!(q.finish(), Err(err(None)));
}

#[test]
fn pager_empty_listing() {
    let mut p: Pager<u32> = Pager::new(CLOUDFLARE_ZONE_PAGE_SIZE);
    p.receive(Ok(vec![]));
    assert_eq!(p.finish(), Ok(vec![]));
}

#[test]
fn suffix_check() {
    assert!(has_suffix("www.example.com", "example.com"));
    assert!(has_suffix("example.com", "example.com"));
    assert!(has_suffix("x", ""));
    assert!(!has_suffix("example.org", "example.com"));
    assert!(!has_suffix("com", "example.com"));
}

#[test]
fn unmanaged_kinds_are_dropped() {
    let listed = vec![
        CfRecord { id: "1".to_string(), name: "a.example.com".to_string(), content: Some(RecordContent::A(Ipv4::new(1, 2, 3, 4))) },
        CfRecord { id: "2".to_string(), name: "a.example.com".to_string(), content: None },
        CfRecord {
            id: "3".to_string(),
            name: "b.example.com".to_string(),
            content: Some(RecordContent::Aaaa(Ipv6::new(0xfd42, 0, 0, 0, 0, 0, 0, 1))),
        },
        CfRecord { id: "4".to_string(), name: "b.example.com".to_string(), content: Some(RecordContent::Txt("t".to_string())) },
    ];
    assert_eq!(
        to_dns_records(&listed),
        vec![
            DnsRecord { domain_name: "a.example.com".to_string(), content: RecordContent::A(Ipv4::new(1, 2, 3, 4)) },
            DnsRecord {
                domain_name: "b.example.com".to_string(),
                content: RecordContent::Aaaa(Ipv6::new(0xfd42, 0, 0, 0, 0, 0, 0, 1)),
            },
            DnsRecord { domain_name: "b.example.com".to_string(), content: RecordContent::Txt("t".to_string()) },
        ]
    );
}

fn a_rec(name: &str, ip: Ipv4) -> DnsRecord {
    DnsRecord { domain_name: name.to_string(), content: RecordContent::A(ip) }
}

#[test]
fn update_deletes_every_a_record_then_creates() {
    let old1 = a_rec("d.example.com", Ipv4::new(1, 1, 1, 1));
    let other = a_rec("e.example.com", Ipv4::new(1, 1, 1, 1));
    let txt = DnsRecord { domain_name: "d.example.com".to_string(), content: RecordContent::Txt("m".to_string()) };
    let old2 = a_rec("d.example.com", Ipv4::new(2, 2, 2, 2));
    let current = vec![old1.clone(), other, txt, old2.clone()];
    let ip = Ipv4::new(10, 10, 10, 10);
    assert_eq!(
        record_ops(&current, &Action::Update("d.example.com".to_string(), ip)),
        vec![RecordOp::Delete(old1.clone()), RecordOp::Delete(old2.clone()), RecordOp::Create(a_rec("d.example.com", ip))]
    );
    assert_eq!(
        record_ops(&current, &Action::DeleteAndRelease("d.example.com".to_string())),
        vec![RecordOp::Delete(old1), RecordOp::Delete(old2)]
    );
    assert_eq!(
        record_ops(&current, &Action::ClaimAndUpdate("d.example.com".to_string(), ip)),
        vec![RecordOp::Create(a_rec("d.example.com", ip))]
    );
}

#[test]
fn zone_listings_are_joined_in_order() {
    let z1 = vec![
        CfRecord { id: "1".to_string(), name: "a.example.com".to_string(), content: Some(RecordContent::A(Ipv4::new(1, 2, 3, 4))) },
        CfRecord { id: "2".to_string(), name: "a.example.com".to_string(), content: None },
    ];
    let z2 = vec![CfRecord { id: "3".to_string(), name: "b.example.org".to_string(), content: Some(RecordContent::Txt("t".to_string())) }];
    assert_eq!(
        zone_records(&vec![z1, vec![], z2]),
        vec![
            a_rec("a.example.com", Ipv4::new(1, 2, 3, 4)),
            DnsRecord { domain_name: "b.example.org".to_string(), content: RecordContent::Txt("t".to_string()) },
        ]
    );
    assert!(zone_records(&vec![]).is_empty());
}

#[test]
fn pager_lists_last_page_first() {
    let mut p: Pager<u32> = Pager::new(2);
    p.receive(Ok(vec![1, 2]));
    p.receive(Ok(vec![3, 4]));
    p.receive(Ok(vec![5]));
    assert_eq!(p.finish(), Ok(vec![5, 3, 4, 1, 2]));
}
