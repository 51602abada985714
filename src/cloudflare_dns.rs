//! A provider backed by the Cloudflare DNS API.
//!
//! Each API request is one call of the `cloudflare` crate's blocking client; paging through
//! listings, finding the zone and the identifier of a record, and the record operations of an
//! action are decided here.
use vstd::prelude::*;
use vstd::string::StrSliceExecFns;
use vstd::string::StringExecFns;

use cloudflare::endpoints::{dns, zone};
use cloudflare::framework::apiclient::ApiClient;
use cloudflare::framework::auth::Credentials;
use cloudflare::framework::response::ApiFailure;
use cloudflare::framework::{Environment, HttpApiClient, HttpApiClientConfig};

use crate::net::{Ipv4, Ipv6};
use crate::plan::Action;
use crate::provider::{
    DnsProvider, DnsRecord, Provider, ProviderError, RecordContent, TxTRegistryProvider, TTL,
};

verus! {

#[verifier::external_type_specification]
#[verifier::external_body]
pub struct ExHttpApiClient(cloudflare::framework::HttpApiClient);

#[verifier::external_type_specification]
#[verifier::external_body]
pub struct ExApiFailure(cloudflare::framework::response::ApiFailure);

#[verifier::external_type_specification]
#[verifier::external_body]
pub struct ExDnsContent(cloudflare::endpoints::dns::DnsContent);

/// Zones are listed this many to a page.
pub const CLOUDFLARE_ZONE_PAGE_SIZE: u32 = 50;

/// Records are listed this many to a page.
pub const CLOUDFLARE_RECORD_PAGE_SIZE: u32 = 5000;

/// The HTTP status with which the API says that a page does not exist.
pub const NOT_FOUND: u16 = 404;

/// A DNS zone: its identifier and its domain name.
#[derive(Clone, Debug, PartialEq, Eq, Hash)]
pub struct CfZone {
    pub id: String,
    pub name: String,
}

/// A record as the API lists it: its identifier, name and content. The content is `None` for
/// the kinds of record this library does not manage.
#[derive(Clone, Debug, PartialEq, Eq, Hash)]
pub struct CfRecord {
    pub id: String,
    pub name: String,
    pub content: Option<RecordContent>,
}

/// A failed request: the HTTP status when the API answered with an error, and a description.
#[derive(Clone, Debug, PartialEq, Eq, Hash)]
pub struct ApiError {
    pub status: Option<u16>,
    pub message: String,
}

/// Relies on cloudflare's `HttpApiClient::new`, which builds a client for an API token.
/// reqwest's blocking client behind it panics when used from inside an async runtime, so it
/// is to be called off any runtime (as a blocking task).
#[verifier::external_body]
fn new_client(api_token: &str) -> (r: Result<HttpApiClient, String>) {
    let credentials = Credentials::UserAuthToken { token: api_token.to_string() };
    HttpApiClient::new(credentials, HttpApiClientConfig::default(), Environment::Production)
        .map_err(|e| e.to_string())
}

/// Relies on cloudflare's `ApiClient::request` with `ListZones`: one page of zones.
/// reqwest's blocking client behind it panics when used from inside an async runtime, so it
/// is to be called off any runtime (as a blocking task).
#[verifier::external_body]
fn request_zones(client: &HttpApiClient, page: u32, per_page: u32) -> (r: Result<Vec<CfZone>, ApiFailure>) {
    let params = zone::ListZonesParams { page: Some(page), per_page: Some(per_page), ..Default::default() };
    client.request(&zone::ListZones { params }).map(|s| s.result.into_iter().map(|z| CfZone { id: z.id, name: z.name }).collect())
}

/// Relies on cloudflare's `ApiClient::request` with `ListDnsRecords`: one page of the records
/// of a zone, each as its identifier, name and content.
/// reqwest's blocking client behind it panics when used from inside an async runtime, so it
/// is to be called off any runtime (as a blocking task).
#[verifier::external_body]
fn request_records(client: &HttpApiClient, zone_id: &str, page: u32, per_page: u32) -> (r: Result<Vec<(String, String, dns::DnsContent)>, ApiFailure>) {
    let params = dns::ListDnsRecordsParams { page: Some(page), per_page: Some(per_page), ..Default::default() };
    let listed = client.request(&dns::ListDnsRecords { zone_identifier: zone_id, params });
    listed.map(|s| s.result.into_iter().map(|r| (r.id, r.name, r.content)).collect())
}

/// Relies on cloudflare's `DnsContent`: the A, AAAA and TXT contents carried over, the other
/// kinds `None`.
#[verifier::external_body]
fn record_content(c: &dns::DnsContent) -> (r: Option<RecordContent>) {
    match c {
        dns::DnsContent::A { content } => Some(RecordContent::A(Ipv4(u32::from(*content)))),
        dns::DnsContent::AAAA { content } => Some(RecordContent::Aaaa(Ipv6(u128::from(*content)))),
        dns::DnsContent::TXT { content } => Some(RecordContent::Txt(content.clone())),
        _ => None,
    }
}

/// One [`CfRecord`] per listed record, in order.
fn to_cf_records(rs: &Vec<(String, String, dns::DnsContent)>) -> (r: Vec<CfRecord>)
    ensures
        r@.len() == rs@.len(),
        forall|i: int| 0 <= i < rs@.len() ==> #[trigger] r@[i].id == rs@[i].0 && r@[i].name == rs@[i].1,
{
    let mut out: Vec<CfRecord> = Vec::new();
    let mut i: usize = 0;
    while i < rs.len()
        invariant
            0 <= i <= rs.len(),
            out@.len() == i,
            forall|k: int| 0 <= k < i ==> #[trigger] out@[k].id == rs@[k].0 && out@[k].name == rs@[k].1,
        decreases rs.len() - i,
    {
        let (id, name, content) = &rs[i];
        out.push(CfRecord { id: id.clone(), name: name.clone(), content: record_content(content) });
        i = i + 1;
    }
    out
}

/// Relies on cloudflare's `ApiFailure`: the HTTP status of an error answer of the API.
#[verifier::external_body]
fn failure_status(f: &ApiFailure) -> (r: Option<u16>) {
    match f {
        ApiFailure::Error(code, _) => Some(code.as_u16()),
        ApiFailure::Invalid(_) => None,
    }
}

/// Relies on the `Display` of cloudflare's `ApiFailure`: a description of a failed request.
#[verifier::external_body]
fn failure_text(f: &ApiFailure) -> (r: String) {
    f.to_string()
}

/// Relies on cloudflare's `ApiClient::request` with `CreateDnsRecord`: creates one record.
/// reqwest's blocking client behind it panics when used from inside an async runtime, so it
/// is to be called off any runtime (as a blocking task).
#[verifier::external_body]
fn request_create(client: &HttpApiClient, zone_id: &str, name: &str, ttl: Option<TTL>, proxied: Option<bool>, content: RecordContent) -> (r: Result<(), ApiFailure>) {
    let content = match content {
        RecordContent::A(a) => dns::DnsContent::A { content: a.0.into() },
        RecordContent::Aaaa(a) => dns::DnsContent::AAAA { content: a.0.into() },
        RecordContent::Txt(t) => dns::DnsContent::TXT { content: t },
    };
    let params = dns::CreateDnsRecordParams { ttl, priority: None, proxied, name, content };
    client.request(&dns::CreateDnsRecord { zone_identifier: zone_id, params }).map(|_| ())
}

/// Relies on cloudflare's `ApiClient::request` with `DeleteDnsRecord`: deletes one record.
/// reqwest's blocking client behind it panics when used from inside an async runtime, so it
/// is to be called off any runtime (as a blocking task).
#[verifier::external_body]
fn request_delete(client: &HttpApiClient, zone_id: &str, record_id: &str) -> (r: Result<(), ApiFailure>) {
    client.request(&dns::DeleteDnsRecord { zone_identifier: zone_id, identifier: record_id }).map(|_| ())
}

/// A failed request as the library keeps it.
fn api_error(f: &ApiFailure) -> (r: ApiError) {
    ApiError { status: failure_status(f), message: failure_text(f) }
}

/// Collects the items of a paged listing, one response at a time. Each page goes before the
/// pages received earlier, so the listing comes out last page first.
///
/// Pages are asked for from the first on, as long as each page comes back full. A failure of
/// the first page fails the listing; a later page that does not exist ends it; any other
/// failure fails it.
pub struct Pager<R> {
    pub page_size: u32,
    pub page: u32,
    pub items: Vec<R>,
    pub done: bool,
    pub failure: Option<ApiError>,
}

impl<R> Pager<R> {
    /// A pager that asks for the first page first.
    pub fn new(page_size: u32) -> (r: Pager<R>)
        ensures
            r.page_size == page_size,
            r.page == 1,
            r.items@.len() == 0,
            !r.done,
            r.failure is None,
    {
        Pager { page_size, page: 1, items: Vec::new(), done: false, failure: None }
    }

    /// How many more responses the pager may take.
    pub open spec fn remaining(&self) -> int {
        if self.done {
            0
        } else {
            u32::MAX - self.page + 1
        }
    }

    /// Takes the response to the request for page `self.page`.
    pub fn receive(&mut self, got: Result<Vec<R>, ApiError>)
        requires
            !old(self).done,
            old(self).page >= 1,
            old(self).failure is None,
        ensures
            final(self).page_size == old(self).page_size,
            final(self).page >= 1,
            final(self).remaining() < old(self).remaining(),
            !final(self).done ==> final(self).failure is None,
            match got {
                Ok(v) => {
                    &&& final(self).items@ == v@ + old(self).items@
                    &&& final(self).failure is None
                    &&& final(self).done == (v@.len() < old(self).page_size || old(self).page == u32::MAX)
                    &&& !final(self).done ==> final(self).page == old(self).page + 1
                },
                Err(e) => {
                    &&& final(self).items@ == old(self).items@
                    &&& final(self).done
                    &&& (old(self).page > 1 && e.status == Some(NOT_FOUND)) ==> final(self).failure is None
                    &&& !(old(self).page > 1 && e.status == Some(NOT_FOUND)) ==> final(self).failure == Some(e)
                },
            },
    {
        match got {
            Ok(v) => {
                let mut v = v;
                let n = v.len();
                v.append(&mut self.items);
                self.items = v;
                if n < self.page_size as usize || self.page == u32::MAX {
                    self.done = true;
                } else {
                    self.page = self.page + 1;
                }
            },
            Err(e) => {
                self.done = true;
                let missing_page = self.page > 1 && match e.status {
                    Some(s) => s == NOT_FOUND,
                    None => false,
                };
                if !missing_page {
                    self.failure = Some(e);
                }
            },
        }
    }

    /// The collected items, or the failure that ended the listing.
    pub fn finish(self) -> (r: Result<Vec<R>, ApiError>)
        ensures
            match self.failure {
                Some(e) => r == Err::<Vec<R>, ApiError>(e),
                None => r is Ok && r->Ok_0@ == self.items@,
            },
    {
        match self.failure {
            Some(e) => Err(e),
            None => Ok(self.items),
        }
    }
}

/// Whether `items` is what a paged listing gave: at least one page, held newest first, joined
/// in that order (the last page's items first), where every page before the newest held at
/// least a page size of items.
pub open spec fn pages_listed<R>(pages: Seq<Seq<R>>, page_size: u32, items: Seq<R>) -> bool {
    &&& pages.len() >= 1
    &&& forall|k: int| 1 <= k < pages.len() ==> (#[trigger] pages[k]).len() >= page_size
    &&& items == pages.flatten()
}

/// Whether `s` ends with `suffix`.
pub fn has_suffix(s: &str, suffix: &str) -> (r: bool)
    ensures
        r == (suffix@.len() <= s@.len() && s@.subrange(s@.len() - suffix@.len(), s@.len() as int) == suffix@),
{
    let n = suffix.unicode_len();
    let m = s.unicode_len();
    if n > m {
        return false;
    }
    let off = m - n;
    let mut i: usize = 0;
    while i < n
        invariant
            0 <= i <= n <= m,
            off == m - n,
            n == suffix@.len(),
            m == s@.len(),
            forall|k: int| 0 <= k < i ==> s@[off + k] == suffix@[k],
        decreases n - i,
    {
        if s.get_char(off + i) != suffix.get_char(i) {
            assert(s@.subrange(off as int, m as int)[i as int] != suffix@[i as int]);
            return false;
        }
        i = i + 1;
    }
    assert(s@.subrange(off as int, m as int) =~= suffix@);
    true
}

/// Whether a record belongs in a zone: its name is the zone's name or ends with it.
pub open spec fn in_zone(name: Seq<char>, z: CfZone) -> bool {
    name == z.name@ || (z.name@.len() <= name.len() && name.subrange(name.len() - z.name@.len(), name.len() as int) == z.name@)
}

/// Whether two record contents are the same.
pub open spec fn same_content(a: RecordContent, b: RecordContent) -> bool {
    match (a, b) {
        (RecordContent::A(x), RecordContent::A(y)) => x == y,
        (RecordContent::Aaaa(x), RecordContent::Aaaa(y)) => x == y,
        (RecordContent::Txt(x), RecordContent::Txt(y)) => x@ == y@,
        _ => false,
    }
}

/// Whether a listed record is the given record.
pub open spec fn is_endpoint_of(r: CfRecord, rec: DnsRecord) -> bool {
    r.name@ == rec.domain_name@ && r.content is Some && same_content(rec.content, r.content->Some_0)
}

fn content_matches(a: &RecordContent, b: &RecordContent) -> (r: bool)
    ensures
        r == same_content(*a, *b),
{
    match (a, b) {
        (RecordContent::A(x), RecordContent::A(y)) => *x == *y,
        (RecordContent::Aaaa(x), RecordContent::Aaaa(y)) => *x == *y,
        (RecordContent::Txt(x), RecordContent::Txt(y)) => *x == *y,
        _ => false,
    }
}

/// The zones and records known when the wrapper was made, used to look up the zone and the
/// identifier of a record.
pub struct FinderCache {
    pub zones: Vec<CfZone>,
    pub records: Vec<CfRecord>,
}

/// The Cloudflare API client together with a cache of zones and records.
pub struct CloudflareWrapper {
    client: HttpApiClient,
    cache: FinderCache,
}

/// Whether `records` are the records of the zones `zones` listed one after the other.
pub open spec fn cache_listed(zones: Seq<CfZone>, records: Seq<CfRecord>) -> bool {
    exists|listings: Seq<Vec<CfRecord>>| listings.len() == zones.len() && records == #[trigger] listed_records(listings)
}

impl FinderCache {
    /// Lists every zone and every record of every zone.
    pub fn try_new(wrapper: &CloudflareWrapper) -> (r: Result<FinderCache, ProviderError>)
        ensures
            r is Err ==> r->Err_0 is Internal,
            r is Ok ==> cache_listed(r->Ok_0.zones@, r->Ok_0.records@),
    {
        let zones = match wrapper.list_zones() {
            Ok(z) => z,
            Err(e) => return Err(ProviderError::Internal(e.message)),
        };
        let mut records: Vec<CfRecord> = Vec::new();
        let ghost mut listings: Seq<Vec<CfRecord>> = Seq::empty();
        let mut i: usize = 0;
        while i < zones.len()
            invariant
                0 <= i <= zones.len(),
                listings.len() == i,
                records@ == listed_records(listings),
            decreases zones.len() - i,
        {
            match wrapper.list_records(zones[i].id.as_str()) {
                Ok(mut rs) => {
                    let ghost listed = rs;
                    let ghost before = records@;
                    records.append(&mut rs);
                    proof {
                        let next = listings.push(listed);
                        let f = |v: Vec<CfRecord>| v@;
                        assert(next.map_values(f).drop_last() =~= listings.map_values(f));
                        assert(next.map_values(f).last() == listed@);
                        assert(records@ =~= before + listed@);
                        listings = next;
                    }
                },
                Err(e) => return Err(ProviderError::Internal(e.message)),
            }
            i = i + 1;
        }
        let r = FinderCache { zones, records };
        assert(cache_listed(r.zones@, r.records@) && listings.len() == r.zones@.len()) by {
            assert(listings.len() == r.zones@.len() && r.records@ == listed_records(listings));
        }
        Ok(r)
    }
}

impl CloudflareWrapper {
    /// All zones, page by page.
    pub fn list_zones(&self) -> (r: Result<Vec<CfZone>, ApiError>)
        ensures
            r is Ok ==> exists|pages: Seq<Seq<CfZone>>| #[trigger] pages_listed(pages, CLOUDFLARE_ZONE_PAGE_SIZE, r->Ok_0@),
    {
        let mut pager: Pager<CfZone> = Pager::new(CLOUDFLARE_ZONE_PAGE_SIZE);
        let ghost mut pages: Seq<Seq<CfZone>> = Seq::empty();
        while !pager.done
            invariant
                pager.page >= 1,
                pager.page_size == CLOUDFLARE_ZONE_PAGE_SIZE,
                !pager.done ==> pager.failure is None,
                pager.items@ == pages.flatten(),
                forall|k: int| 1 <= k < pages.len() ==> (#[trigger] pages[k]).len() >= CLOUDFLARE_ZONE_PAGE_SIZE,
                !pager.done ==> pages.len() == pager.page - 1 && (pages.len() > 0 ==> pages[0].len() >= CLOUDFLARE_ZONE_PAGE_SIZE),
                pager.done && pager.failure is None ==> pages.len() >= 1,
            decreases pager.remaining(),
        {
            let got = match request_zones(&self.client, pager.page, CLOUDFLARE_ZONE_PAGE_SIZE) {
                Ok(zones) => Ok(zones),
                Err(f) => Err(api_error(&f)),
            };
            let ghost before = pages;
            let ghost got_view = got;
            pager.receive(got);
            proof {
                if got_view is Ok {
                    pages = seq![got_view->Ok_0@] + before;
                    assert(pages.drop_first() =~= before);
                    assert(pages.first() == got_view->Ok_0@);
                }
            }
        }
        let r = pager.finish();
        proof {
            if r is Ok {
                assert(pages_listed(pages, pager.page_size, r->Ok_0@));
            }
        }
        r
    }

    /// All records of a zone, page by page.
    pub fn list_records(&self, zone_id: &str) -> (r: Result<Vec<CfRecord>, ApiError>)
        ensures
            r is Ok ==> exists|pages: Seq<Seq<CfRecord>>| #[trigger] pages_listed(pages, CLOUDFLARE_RECORD_PAGE_SIZE, r->Ok_0@),
    {
        let mut pager: Pager<CfRecord> = Pager::new(CLOUDFLARE_RECORD_PAGE_SIZE);
        let ghost mut pages: Seq<Seq<CfRecord>> = Seq::empty();
        while !pager.done
            invariant
                pager.page >= 1,
                pager.page_size == CLOUDFLARE_RECORD_PAGE_SIZE,
                !pager.done ==> pager.failure is None,
                pager.items@ == pages.flatten(),
                forall|k: int| 1 <= k < pages.len() ==> (#[trigger] pages[k]).len() >= CLOUDFLARE_RECORD_PAGE_SIZE,
                !pager.done ==> pages.len() == pager.page - 1 && (pages.len() > 0 ==> pages[0].len() >= CLOUDFLARE_RECORD_PAGE_SIZE),
                pager.done && pager.failure is None ==> pages.len() >= 1,
            decreases pager.remaining(),
        {
            let got = match request_records(&self.client, zone_id, pager.page, CLOUDFLARE_RECORD_PAGE_SIZE) {
                Ok(rs) => Ok(to_cf_records(&rs)),
                Err(f) => Err(api_error(&f)),
            };
            let ghost before = pages;
            let ghost got_view = got;
            pager.receive(got);
            proof {
                if got_view is Ok {
                    pages = seq![got_view->Ok_0@] + before;
                    assert(pages.drop_first() =~= before);
                    assert(pages.first() == got_view->Ok_0@);
                }
            }
        }
        let r = pager.finish();
        proof {
            if r is Ok {
                assert(pages_listed(pages, pager.page_size, r->Ok_0@));
            }
        }
        r
    }

    /// Creates one record in a zone.
    pub fn create_record(
        &self,
        zone_id: &str,
        name: &str,
        ttl: &Option<TTL>,
        proxied: &Option<bool>,
        content: RecordContent,
    ) -> (r: Result<(), ProviderError>)
        ensures
            r is Err ==> r->Err_0 is Internal,
    {
        match request_create(&self.client, zone_id, name, *ttl, *proxied, content) {
            Ok(_) => Ok(()),
            Err(f) => Err(ProviderError::Internal(failure_text(&f))),
        }
    }

    /// Deletes one record of a zone.
    pub fn delete_record(&self, zone_id: &str, record_id: &str) -> (r: Result<(), ProviderError>)
        ensures
            r is Err ==> r->Err_0 is Internal,
    {
        match request_delete(&self.client, zone_id, record_id) {
            Ok(_) => Ok(()),
            Err(f) => Err(ProviderError::Internal(failure_text(&f))),
        }
    }

    /// Connects with an API token and reads every zone and record into the cache.
    pub fn try_new(api_token: &str) -> (r: Result<CloudflareWrapper, ProviderError>)
        ensures
            r is Err ==> r->Err_0 is Internal,
            r is Ok ==> cache_listed(r->Ok_0.cached_zones(), r->Ok_0.cached_records()),
    {
        let client = match new_client(api_token) {
            Ok(c) => c,
            Err(msg) => return Err(ProviderError::Internal(msg)),
        };
        let mut wrapper = CloudflareWrapper {
            client,
            cache: FinderCache { zones: Vec::new(), records: Vec::new() },
        };
        match FinderCache::try_new(&wrapper) {
            Ok(cache) => {
                wrapper.cache = cache;
                Ok(wrapper)
            },
            Err(e) => Err(e),
        }
    }

    /// The cached zones.
    pub closed spec fn cached_zones(&self) -> Seq<CfZone> {
        self.cache.zones@
    }

    /// The cached records.
    pub closed spec fn cached_records(&self) -> Seq<CfRecord> {
        self.cache.records@
    }

    /// The zone a record belongs in: among the cached zones whose name the record's name
    /// equals or ends with, the one with the longest name (the last such in the cache).
    pub fn find_record_zone(&self, record: &DnsRecord) -> (r: Option<&CfZone>)
        ensures
            match r {
                Some(z) => exists|i: int| {
                    &&& 0 <= i < self.cached_zones().len()
                    &&& self.cached_zones()[i] == *z
                    &&& in_zone(record.domain_name@, *z)
                    &&& forall|j: int| 0 <= j < self.cached_zones().len() && in_zone(record.domain_name@, #[trigger] self.cached_zones()[j])
                        ==> self.cached_zones()[j].name@.len() < z.name@.len()
                            || (self.cached_zones()[j].name@.len() == z.name@.len() && j <= i)
                },
                None => forall|j: int| 0 <= j < self.cached_zones().len() ==> !in_zone(record.domain_name@, #[trigger] self.cached_zones()[j]),
            },
    {
        let zones = &self.cache.zones;
        let ghost name = record.domain_name@;
        let mut best: Option<usize> = None;
        let mut best_len: usize = 0;
        let mut i: usize = 0;
        while i < zones.len()
            invariant
                0 <= i <= zones.len(),
                name == record.domain_name@,
                zones@ == self.cached_zones(),
                match best {
                    Some(b) => {
                        &&& b < i
                        &&& in_zone(name, zones@[b as int])
                        &&& best_len == zones@[b as int].name@.len()
                        &&& forall|j: int| 0 <= j < i && in_zone(name, #[trigger] zones@[j]) ==> zones@[j].name@.len() < best_len
                            || (zones@[j].name@.len() == best_len && j <= b)
                    },
                    None => forall|j: int| 0 <= j < i ==> !in_zone(name, #[trigger] zones@[j]),
                },
            decreases zones.len() - i,
        {
            let z = &zones[i];
            let fits = record.domain_name == z.name || has_suffix(record.domain_name.as_str(), z.name.as_str());
            if fits {
                let len = z.name.unicode_len();
                let better = match best {
                    Some(_) => len >= best_len,
                    None => true,
                };
                if better {
                    best = Some(i);
                    best_len = len;
                }
            }
            i = i + 1;
        }
        match best {
            Some(b) => Some(&zones[b]),
            None => None,
        }
    }

    /// The first cached record with the name and content of `record`.
    pub fn find_record_endpoint(&self, record: &DnsRecord) -> (r: Option<&CfRecord>)
        ensures
            match r {
                Some(c) => exists|i: int| {
                    &&& 0 <= i < self.cached_records().len()
                    &&& self.cached_records()[i] == *c
                    &&& is_endpoint_of(*c, *record)
                    &&& forall|j: int| 0 <= j < i ==> !is_endpoint_of(#[trigger] self.cached_records()[j], *record)
                },
                None => forall|j: int| 0 <= j < self.cached_records().len() ==> !is_endpoint_of(#[trigger] self.cached_records()[j], *record),
            },
    {
        let records = &self.cache.records;
        let mut i: usize = 0;
        while i < records.len()
            invariant
                0 <= i <= records.len(),
                records@ == self.cached_records(),
                forall|j: int| 0 <= j < i ==> !is_endpoint_of(#[trigger] records@[j], *record),
            decreases records.len() - i,
        {
            let r = &records[i];
            if r.name == record.domain_name {
                match &r.content {
                    Some(c) => {
                        if content_matches(&record.content, c) {
                            return Some(r);
                        }
                    },
                    None => {},
                }
            }
            i = i + 1;
        }
        None
    }
}

/// What a [`CloudflareProvider`] is made from.
#[derive(Clone, Debug, PartialEq, Eq, Hash)]
pub struct CloudflareProviderConfig {
    /// The API token to authenticate with.
    pub api_token: String,
    /// Whether new records are proxied through Cloudflare's network.
    pub proxied: Option<bool>,
}

/// A [`Provider`] that reads and writes records through the Cloudflare API.
pub struct CloudflareProvider {
    api: CloudflareWrapper,
    ttl: Option<TTL>,
    proxied: Option<bool>,
    dry_run: bool,
}

/// Whether some zone fits a record name.
pub open spec fn fits_some_zone(zones: Seq<CfZone>, name: Seq<char>) -> bool {
    exists|j: int| 0 <= j < zones.len() && in_zone(name, #[trigger] zones[j])
}

/// Whether some listed record is the given record.
pub open spec fn has_endpoint(records: Seq<CfRecord>, rec: DnsRecord) -> bool {
    exists|j: int| 0 <= j < records.len() && is_endpoint_of(#[trigger] records[j], rec)
}

/// The message given when no cached zone fits a record.
pub open spec fn no_zone_text(name: Seq<char>) -> Seq<char> {
    "Could not find suitable zone for record "@ + name
}

/// The message given when no cached record matches a record to delete.
pub open spec fn no_record_text(name: Seq<char>) -> Seq<char> {
    "Could not find matching record id for record "@ + name
}

/// One record change: create or delete a record.
#[derive(Clone, Debug, PartialEq, Eq, Hash)]
pub enum RecordOp {
    Create(DnsRecord),
    Delete(DnsRecord),
}

/// Whether the lookups an operation needs succeed: a zone for both, a cached record for a delete.
pub open spec fn lookups_succeed(zones: Seq<CfZone>, records: Seq<CfRecord>, op: RecordOp) -> bool {
    match op {
        RecordOp::Create(rec) => fits_some_zone(zones, rec.domain_name@),
        RecordOp::Delete(rec) => fits_some_zone(zones, rec.domain_name@) && has_endpoint(records, rec),
    }
}

/// Whether a record is an A record of the domain `d`.
pub open spec fn is_a_of(r: DnsRecord, d: Seq<char>) -> bool {
    r.domain_name@ == d && r.content is A
}

/// The deletions of every A record of `d` among `current`, in order.
pub open spec fn a_deletions(current: Seq<DnsRecord>, d: Seq<char>) -> Seq<RecordOp>
    decreases current.len(),
{
    if current.len() == 0 {
        seq![]
    } else {
        let rest = a_deletions(current.drop_last(), d);
        if is_a_of(current.last(), d) {
            rest.push(RecordOp::Delete(current.last()))
        } else {
            rest
        }
    }
}

/// The record operations of an action, given the records the provider serves: a claim and
/// update creates the A record; an update deletes every A record of the domain, then creates
/// the new one; a delete and release deletes every A record of the domain.
pub open spec fn ops_of(current: Seq<DnsRecord>, action: Action) -> Seq<RecordOp> {
    match action {
        Action::ClaimAndUpdate(d, ip) => seq![RecordOp::Create(DnsRecord { domain_name: d, content: RecordContent::A(ip) })],
        Action::Update(d, ip) => a_deletions(current, d@).push(
            RecordOp::Create(DnsRecord { domain_name: d, content: RecordContent::A(ip) }),
        ),
        Action::DeleteAndRelease(d) => a_deletions(current, d@),
    }
}

/// The record operations that carry out `action` when the provider serves `current`.
pub fn record_ops(current: &Vec<DnsRecord>, action: &Action) -> (r: Vec<RecordOp>)
    ensures
        r@ == ops_of(current@, *action),
{
    let domain = match action {
        Action::ClaimAndUpdate(d, _) => d,
        Action::Update(d, _) => d,
        Action::DeleteAndRelease(d) => d,
    };
    let mut ops: Vec<RecordOp> = Vec::new();
    match action {
        Action::ClaimAndUpdate(_, _) => {},
        _ => {
            let mut i: usize = 0;
            while i < current.len()
                invariant
                    0 <= i <= current.len(),
                    ops@ == a_deletions(current@.subrange(0, i as int), domain@),
                decreases current.len() - i,
            {
                let ghost next = current@.subrange(0, i + 1);
                assert(next.drop_last() =~= current@.subrange(0, i as int));
                assert(next.last() == current@[i as int]);
                let r = &current[i];
                let is_a = match &r.content {
                    RecordContent::A(_) => true,
                    _ => false,
                };
                if is_a && r.domain_name == *domain {
                    ops.push(RecordOp::Delete(DnsRecord { domain_name: r.domain_name.clone(), content: copy_content(&r.content) }));
                }
                i = i + 1;
            }
            assert(current@.subrange(0, i as int) =~= current@);
        },
    }
    match action {
        Action::ClaimAndUpdate(d, ip) | Action::Update(d, ip) => {
            ops.push(RecordOp::Create(DnsRecord { domain_name: d.clone(), content: RecordContent::A(*ip) }));
        },
        Action::DeleteAndRelease(_) => {},
    }
    proof {
        if action is ClaimAndUpdate {
            assert(ops@ =~= ops_of(current@, *action));
        }
    }
    ops
}

/// Whether an action went through for the served records `current`: they are the managed
/// records of some listings of the zones, and every record operation of the action found its
/// zone (and, for a deletion, its cached record).
pub open spec fn action_done(zones: Seq<CfZone>, records: Seq<CfRecord>, current: Seq<DnsRecord>, action: Action) -> bool {
    &&& exists|listings: Seq<Vec<CfRecord>>| current == #[trigger] managed_records(listed_records(listings))
    &&& forall|k: int|
        0 <= k < ops_of(current, action).len() ==> #[trigger] lookups_succeed(zones, records, ops_of(current, action)[k])
}

/// The records of several listings, one after the other.
pub open spec fn listed_records(listings: Seq<Vec<CfRecord>>) -> Seq<CfRecord> {
    listings.map_values(|v: Vec<CfRecord>| v@).flatten_alt()
}

/// The managed records of the listings of several zones, zone after zone.
pub fn zone_records(listings: &Vec<Vec<CfRecord>>) -> (r: Vec<DnsRecord>)
    ensures
        r@ == managed_records(listed_records(listings@)),
{
    let mut out: Vec<DnsRecord> = Vec::new();
    let mut i: usize = 0;
    while i < listings.len()
        invariant
            0 <= i <= listings.len(),
            out@ == managed_records(listed_records(listings@.subrange(0, i as int))),
        decreases listings.len() - i,
    {
        let ghost base = listed_records(listings@.subrange(0, i as int));
        let ghost before = out@;
        let mut converted = to_dns_records(&listings[i]);
        out.append(&mut converted);
        proof {
            lemma_managed_records_concat(base, listings@[i as int]@);
            let pre = listings@.subrange(0, i as int).map_values(|v: Vec<CfRecord>| v@);
            let pre1 = listings@.subrange(0, i + 1).map_values(|v: Vec<CfRecord>| v@);
            assert(pre1.drop_last() =~= pre);
            assert(pre1.last() == listings@[i as int]@);
        }
        i = i + 1;
    }
    assert(listings@.subrange(0, i as int) =~= listings@);
    out
}

/// The managed records of two listings joined are those of each, joined.
proof fn lemma_managed_records_concat(a: Seq<CfRecord>, b: Seq<CfRecord>)
    ensures
        managed_records(a + b) == managed_records(a) + managed_records(b),
    decreases b.len(),
{
    if b.len() == 0 {
        assert(a + b =~= a);
        assert(managed_records(b) =~= Seq::<DnsRecord>::empty());
        assert(managed_records(a) + managed_records(b) =~= managed_records(a));
    } else {
        lemma_managed_records_concat(a, b.drop_last());
        assert((a + b).drop_last() =~= a + b.drop_last());
        assert((a + b).last() == b.last());
        let ma = managed_records(a);
        let mb = managed_records(b.drop_last());
        match b.last().content {
            Some(c) => {
                assert((ma + mb).push(DnsRecord { domain_name: b.last().name, content: c }) =~= ma + mb.push(
                    DnsRecord { domain_name: b.last().name, content: c },
                ));
            },
            None => {},
        }
    }
}

impl CloudflareProvider {
    /// The TTL given to new records.
    pub closed spec fn ttl_view(&self) -> Option<TTL> {
        self.ttl
    }

    /// Whether new records are proxied.
    pub closed spec fn proxied_view(&self) -> Option<bool> {
        self.proxied
    }

    /// Whether changes are only pretended.
    pub closed spec fn in_dry_run(&self) -> bool {
        self.dry_run
    }

    /// The zones cached when the provider was made.
    pub closed spec fn zones_view(&self) -> Seq<CfZone> {
        self.api.cached_zones()
    }

    /// The records cached when the provider was made.
    pub closed spec fn records_view(&self) -> Seq<CfRecord> {
        self.api.cached_records()
    }

    /// Connects to the API with the configured token; new records get no TTL and the
    /// configured proxying, and changes are applied for real.
    pub fn from_config(config: &CloudflareProviderConfig) -> (r: Result<CloudflareProvider, ProviderError>)
        ensures
            r is Ok ==> r->Ok_0.ttl_view() is None && r->Ok_0.proxied_view() == config.proxied
                && !r->Ok_0.in_dry_run(),
            r is Err ==> r->Err_0 is Internal,
    {
        match CloudflareWrapper::try_new(config.api_token.as_str()) {
            Ok(api) => Ok(CloudflareProvider { api, ttl: None, proxied: config.proxied, dry_run: false }),
            Err(e) => Err(e),
        }
    }

    /// Creates a record in the zone it belongs in; in dry-run mode only the zone is looked up.
    /// The API is asked only when a zone fits and dry-run mode is off.
    pub fn create_record(&self, rec: &DnsRecord) -> (r: Result<(), ProviderError>)
        ensures
            !fits_some_zone(self.zones_view(), rec.domain_name@) ==> r is Err && r->Err_0 is Internal
                && r->Err_0->Internal_0@ == no_zone_text(rec.domain_name@),
            fits_some_zone(self.zones_view(), rec.domain_name@) && self.in_dry_run() ==> r is Ok,
            r is Err ==> r->Err_0 is Internal,
    {
        let zone_id = match self.api.find_record_zone(rec) {
            Some(z) => {
                proof {
                    let i = choose|i: int| 0 <= i < self.api.cached_zones().len() && self.api.cached_zones()[i] == *z
                        && in_zone(rec.domain_name@, *z);
                    assert(in_zone(rec.domain_name@, self.zones_view()[i]));
                }
                &z.id
            },
            None => {
                let mut msg = String::from_str("Could not find suitable zone for record ");
                msg.append(rec.domain_name.as_str());
                return Err(ProviderError::Internal(msg));
            },
        };
        if !self.dry_run {
            self.api.create_record(zone_id.as_str(), rec.domain_name.as_str(), &self.ttl, &self.proxied, copy_content(&rec.content))?;
        }
        Ok(())
    }

    /// Deletes a record, found by its zone and its cached identifier; in dry-run mode only the
    /// lookups are made. The API is asked only when both are found and dry-run mode is off.
    pub fn delete_record(&self, rec: &DnsRecord) -> (r: Result<(), ProviderError>)
        ensures
            !fits_some_zone(self.zones_view(), rec.domain_name@) ==> r is Err && r->Err_0 is Internal
                && r->Err_0->Internal_0@ == no_zone_text(rec.domain_name@),
            fits_some_zone(self.zones_view(), rec.domain_name@) && !has_endpoint(self.records_view(), *rec)
                ==> r is Err && r->Err_0 is Internal && r->Err_0->Internal_0@ == no_record_text(rec.domain_name@),
            fits_some_zone(self.zones_view(), rec.domain_name@) && has_endpoint(self.records_view(), *rec)
                && self.in_dry_run() ==> r is Ok,
            r is Err ==> r->Err_0 is Internal,
    {
        let zone_id = match self.api.find_record_zone(rec) {
            Some(z) => {
                proof {
                    let i = choose|i: int| 0 <= i < self.api.cached_zones().len() && self.api.cached_zones()[i] == *z
                        && in_zone(rec.domain_name@, *z);
                    assert(in_zone(rec.domain_name@, self.zones_view()[i]));
                }
                &z.id
            },
            None => {
                let mut msg = String::from_str("Could not find suitable zone for record ");
                msg.append(rec.domain_name.as_str());
                return Err(ProviderError::Internal(msg));
            },
        };
        let record_id = match self.api.find_record_endpoint(rec) {
            Some(e) => {
                proof {
                    let i = choose|i: int| 0 <= i < self.api.cached_records().len() && self.api.cached_records()[i] == *e
                        && is_endpoint_of(*e, *rec);
                    assert(is_endpoint_of(self.records_view()[i], *rec));
                }
                &e.id
            },
            None => {
                let mut msg = String::from_str("Could not find matching record id for record ");
                msg.append(rec.domain_name.as_str());
                return Err(ProviderError::Internal(msg));
            },
        };
        if !self.dry_run {
            self.api.delete_record(zone_id.as_str(), record_id.as_str())?;
        }
        Ok(())
    }

    /// Performs record operations in order, stopping at the first failure. Any operation whose
    /// lookups fail makes the whole fail; in dry-run mode nothing else can.
    pub fn apply_ops(&self, ops: &Vec<RecordOp>) -> (r: Result<(), ProviderError>)
        ensures
            (exists|k: int| 0 <= k < ops@.len() && !#[trigger] lookups_succeed(self.zones_view(), self.records_view(), ops@[k]))
                ==> r is Err,
            self.in_dry_run() && (forall|k: int| 0 <= k < ops@.len() ==> #[trigger] lookups_succeed(self.zones_view(), self.records_view(), ops@[k]))
                ==> r is Ok,
            r is Err ==> r->Err_0 is Internal,
    {
        let mut i: usize = 0;
        while i < ops.len()
            invariant
                0 <= i <= ops.len(),
                forall|k: int| 0 <= k < i ==> #[trigger] lookups_succeed(self.zones_view(), self.records_view(), ops@[k]),
            decreases ops.len() - i,
        {
            let op = &ops[i];
            let done = match op {
                RecordOp::Create(rec) => self.create_record(rec),
                RecordOp::Delete(rec) => self.delete_record(rec),
            };
            if let Err(e) = done {
                proof {
                    if self.in_dry_run() {
                        assert(!lookups_succeed(self.zones_view(), self.records_view(), ops@[i as int]));
                    }
                }
                return Err(e);
            }
            assert(lookups_succeed(self.zones_view(), self.records_view(), ops@[i as int]));
            i = i + 1;
        }
        Ok(())
    }

    /// From now on only the lookups are made: no record is created or deleted.
    pub fn enable_dry_run_mode(&mut self) -> (r: Result<(), ProviderError>)
        ensures
            r is Ok,
            final(self).in_dry_run(),
            final(self).zones_view() == old(self).zones_view(),
            final(self).records_view() == old(self).records_view(),
            final(self).ttl_view() == old(self).ttl_view(),
            final(self).proxied_view() == old(self).proxied_view(),
    {
        self.dry_run = true;
        Ok(())
    }

    /// Carries out an action: lists the managed records, then performs the record operations
    /// of the action for them ([`record_ops`]) in order, stopping at the first failure.
    pub fn apply_action(&self, action: &Action) -> (r: Result<(), ProviderError>)
        ensures
            r is Err ==> r->Err_0 is Internal,
            r is Ok ==> exists|current: Seq<DnsRecord>| #[trigger] action_done(
                self.zones_view(),
                self.records_view(),
                current,
                *action,
            ),
    {
        let current = match self.list_managed_records() {
            Ok(c) => c,
            Err(e) => return Err(e),
        };
        let ops = record_ops(&current, action);
        let done = self.apply_ops(&ops);
        proof {
            if done is Ok {
                assert(action_done(self.zones_view(), self.records_view(), current@, *action));
            }
        }
        done
    }

    /// The records of the listed zones that this library manages, or the first listing failure.
    pub fn list_managed_records(&self) -> (r: Result<Vec<DnsRecord>, ProviderError>)
        ensures
            r is Err ==> r->Err_0 is Internal,
            r is Ok ==> exists|listings: Seq<Vec<CfRecord>>| r->Ok_0@ == managed_records(#[trigger] listed_records(listings)),
    {
        let zones = match self.api.list_zones() {
            Ok(z) => z,
            Err(e) => return Err(ProviderError::Internal(e.message)),
        };
        let mut listings: Vec<Vec<CfRecord>> = Vec::new();
        let mut i: usize = 0;
        while i < zones.len()
            decreases zones.len() - i,
        {
            match self.api.list_records(zones[i].id.as_str()) {
                Ok(rs) => listings.push(rs),
                Err(e) => return Err(ProviderError::Internal(e.message)),
            }
            i = i + 1;
        }
        let r = zone_records(&listings);
        assert(r@ == managed_records(listed_records(listings@)));
        Ok(r)
    }
}

/// The records of a listing that this library manages, as [`DnsRecord`]s, in listing order.
pub open spec fn managed_records(rs: Seq<CfRecord>) -> Seq<DnsRecord>
    decreases rs.len(),
{
    if rs.len() == 0 {
        seq![]
    } else {
        let rest = managed_records(rs.drop_last());
        match rs.last().content {
            Some(c) => rest.push(DnsRecord { domain_name: rs.last().name, content: c }),
            None => rest,
        }
    }
}

/// Turns listed records into [`DnsRecord`]s, leaving out the kinds this library does not
/// manage.
pub fn to_dns_records(rs: &Vec<CfRecord>) -> (r: Vec<DnsRecord>)
    ensures
        r@ == managed_records(rs@),
{
    let mut out: Vec<DnsRecord> = Vec::new();
    let mut i: usize = 0;
    while i < rs.len()
        invariant
            0 <= i <= rs.len(),
            out@ == managed_records(rs@.subrange(0, i as int)),
        decreases rs.len() - i,
    {
        let ghost next = rs@.subrange(0, i + 1);
        assert(next.drop_last() =~= rs@.subrange(0, i as int));
        assert(next.last() == rs@[i as int]);
        match &rs[i].content {
            Some(c) => out.push(DnsRecord { domain_name: rs[i].name.clone(), content: copy_content(c) }),
            None => {},
        }
        i = i + 1;
    }
    assert(rs@.subrange(0, i as int) =~= rs@);
    out
}

fn copy_content(c: &RecordContent) -> (r: RecordContent)
    ensures
        r == *c,
{
    match c {
        RecordContent::A(x) => RecordContent::A(*x),
        RecordContent::Aaaa(x) => RecordContent::Aaaa(*x),
        RecordContent::Txt(t) => RecordContent::Txt(t.clone()),
    }
}

impl DnsProvider for CloudflareProvider {
    fn enable_dry_run(&mut self) -> Result<(), ProviderError> {
        self.enable_dry_run_mode()
    }

    fn dry_run(&self) -> bool {
        self.dry_run
    }

    fn ttl(&self) -> Option<TTL> {
        self.ttl
    }

    fn set_ttl(&mut self, ttl: TTL) {
        self.ttl = Some(ttl);
    }

    fn records(&self) -> Result<Vec<DnsRecord>, ProviderError> {
        self.list_managed_records()
    }

    fn apply(&self, action: &Action) -> Result<(), ProviderError> {
        self.apply_action(action)
    }
}

impl TxTRegistryProvider for CloudflareProvider {
    fn create_txt_record(&self, domain: String, content: String) -> Result<(), ProviderError> {
        self.create_record(&DnsRecord { domain_name: domain, content: RecordContent::Txt(content) })
    }

    fn delete_txt_record(&self, domain: String, content: String) -> Result<(), ProviderError> {
        self.delete_record(&DnsRecord { domain_name: domain, content: RecordContent::Txt(content) })
    }
}

impl Provider for CloudflareProvider {

}

} // verus!
