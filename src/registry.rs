//! Ownership of A records, kept in the zone itself as TXT marker records.
//!
//! A domain is owned by this instance when exactly one TXT record of it starts with
//! [`TXT_RECORD_IDENT`] and that record is the marker of this instance's tenant. A records are
//! only ever changed on owned domains.
use vstd::prelude::*;
use vstd::string::StrSliceExecFns;
use vstd::string::StringExecFns;

use itertools::Itertools;

use crate::net::{Ipv4, Ipv6};
use crate::provider::{
    provider_error_text, DnsProvider, DnsRecord, ProviderError, RecordContent, TxTRegistryProvider,
};

verus! {

/// The prefix shared by every ownership marker.
pub const TXT_RECORD_IDENT: &'static str = "clouddns_nat";

/// The separator that closes the tenant part of a marker; it is removed from tenant names.
pub const TXT_RECORD_SEP: &'static str = ";";

/// Joins the identifier and the tenant in a marker.
pub const MARKER_JOIN: &'static str = "_";

/// Ends every marker, after the separator.
pub const MARKER_TAIL: &'static str = "rec: A";

/// The current ownership status of a domain.
#[derive(Clone, Copy, Debug, PartialEq, Eq, Structural, Hash)]
pub enum Ownership {
    /// The domain's A records belong to this instance.
    Owned,
    /// The domain's A records are managed by someone else.
    Taken,
    /// The domain has neither A records nor an owner: it may be claimed.
    Available,
}

/// Why a registry operation failed.
#[derive(Clone, Debug, PartialEq, Eq, Hash)]
pub enum RegistryError {
    /// The registry cannot pretend to apply changes.
    DryRunNotSupported,
    /// A domain could not be claimed.
    ClaimError { domain: String, reason: String },
    /// A domain could not be released.
    ReleaseError { domain: String, reason: String },
    /// Any other failure, such as the provider failing to list records.
    Internal(String),
}

impl From<String> for RegistryError {
    fn from(s: String) -> (r: RegistryError) {
        RegistryError::Internal(s)
    }
}

impl vstd::std_specs::convert::FromSpecImpl<String> for RegistryError {
    open spec fn obeys_from_spec() -> bool {
        true
    }

    open spec fn from_spec(v: String) -> RegistryError {
        RegistryError::Internal(v)
    }
}

/// A fully qualified domain name and the records it holds, as known to a registry.
///
/// In a registry the address and text lists hold each value once, and the ownership is the one
/// derived from the records when the domain was read, changed since only by claiming or
/// releasing it.
#[derive(Clone, Debug, PartialEq, Eq)]
pub struct Domain {
    pub name: String,
    pub a: Vec<Ipv4>,
    pub aaaa: Vec<Ipv6>,
    pub txt: Vec<String>,
    pub a_ownership: Ownership,
}

/// The mathematical value of a [`Domain`].
pub struct DomainView {
    pub name: Seq<char>,
    pub a: Seq<Ipv4>,
    pub aaaa: Seq<Ipv6>,
    pub txt: Seq<Seq<char>>,
    pub ownership: Ownership,
}

/// The character sequences of a sequence of strings.
pub open spec fn string_views(v: Seq<String>) -> Seq<Seq<char>> {
    v.map_values(|s: String| s@)
}

impl Domain {
    pub open spec fn spec_ownership(&self) -> Ownership {
        self.a_ownership
    }

    /// The ownership status of this domain.
    pub fn ownership(&self) -> (r: Ownership)
        ensures
            r == self.spec_ownership(),
    {
        self.a_ownership
    }
}

impl View for Domain {
    type V = DomainView;

    open spec fn view(&self) -> DomainView {
        DomainView {
            name: self.name@,
            a: self.a@,
            aaaa: self.aaaa@,
            txt: string_views(self.txt@),
            ownership: self.spec_ownership(),
        }
    }
}

/// The prefix of every ownership marker.
pub open spec fn ident() -> Seq<char> {
    TXT_RECORD_IDENT@
}

/// Whether a TXT value is an ownership marker (of any tenant).
pub open spec fn is_marker(s: Seq<char>) -> bool {
    ident().len() <= s.len() && s.subrange(0, ident().len() as int) == ident()
}

/// A tenant name without separator characters.
pub open spec fn strip_sep(tenant: Seq<char>) -> Seq<char> {
    tenant.filter(|c: char| c != TXT_RECORD_SEP@[0])
}

/// The marker of a tenant: `<IDENT>_<tenant without separators><SEP>rec: A`.
pub open spec fn marker_of(tenant: Seq<char>) -> Seq<char> {
    ident() + MARKER_JOIN@ + strip_sep(tenant) + TXT_RECORD_SEP@ + MARKER_TAIL@
}

/// The ownership that a domain's A records and TXT values give it for a tenant.
///
/// Owned when the tenant's marker is present and is the only marker; Available when there is
/// no marker and no A record; Taken in every other case (foreign A records, another tenant's
/// marker, or several markers).
pub open spec fn ownership_of(a: Seq<Ipv4>, txt: Seq<Seq<char>>, tenant: Seq<char>) -> Ownership {
    if txt.contains(marker_of(tenant)) && (forall|i: int|
        0 <= i < txt.len() && is_marker(#[trigger] txt[i]) ==> txt[i] == marker_of(tenant)) {
        Ownership::Owned
    } else if a.len() == 0 && (forall|i: int| 0 <= i < txt.len() ==> !is_marker(#[trigger] txt[i])) {
        Ownership::Available
    } else {
        Ownership::Taken
    }
}

/// `s` without the character `pat`, the other characters kept in order.
fn remove_char(s: &str, pat: &str) -> (r: String)
    requires
        pat@.len() == 1,
    ensures
        r@ == s@.filter(|c: char| c != pat@[0]),
{
    let sep = pat.get_char(0);
    let n = s.unicode_len();
    let mut out = String::new();
    let mut i: usize = 0;
    while i < n
        invariant
            0 <= i <= n,
            n == s@.len(),
            sep == pat@[0],
            out@ == s@.subrange(0, i as int).filter(|c: char| c != pat@[0]),
        decreases n - i,
    {
        let ghost next = s@.subrange(0, i + 1);
        assert(next.drop_last() =~= s@.subrange(0, i as int));
        assert(next.last() == s@[i as int]);
        proof {
            reveal(Seq::filter);
        }
        let c = s.get_char(i);
        if c != sep {
            let one = s.substring_char(i, i + 1);
            assert(one@ =~= seq![c]);
            out.append(one);
        }
        i = i + 1;
    }
    assert(s@.subrange(0, n as int) =~= s@);
    out
}

/// Relies on itertools::Itertools::unique: it yields each distinct string of its input once.
#[verifier::external_body]
fn unique_strings(v: Vec<String>) -> (r: Vec<String>)
    ensures
        string_views(r@).no_duplicates(),
        string_views(r@).to_set() == string_views(v@).to_set(),
{
    v.into_iter().unique().collect()
}

/// Whether `s` starts with `prefix`.
pub fn has_prefix(s: &str, prefix: &str) -> (r: bool)
    ensures
        r == (prefix@.len() <= s@.len() && s@.subrange(0, prefix@.len() as int) == prefix@),
{
    let n = prefix.unicode_len();
    let m = s.unicode_len();
    if n > m {
        return false;
    }
    let mut i: usize = 0;
    while i < n
        invariant
            0 <= i <= n <= m,
            n == prefix@.len(),
            m == s@.len(),
            forall|k: int| 0 <= k < i ==> s@[k] == prefix@[k],
        decreases n - i,
    {
        if s.get_char(i) != prefix.get_char(i) {
            assert(s@.subrange(0, n as int)[i as int] != prefix@[i as int]);
            return false;
        }
        i = i + 1;
    }
    assert(s@.subrange(0, n as int) =~= prefix@);
    true
}

/// The ownership marker of a tenant. Separator characters are removed from the tenant first,
/// so that a marker can always be read back unambiguously.
pub fn txt_record_string(tenant: &str) -> (r: String)
    ensures
        r@ == marker_of(tenant@),
{
    proof {
        reveal_strlit(";");
    }
    let stripped = remove_char(tenant, TXT_RECORD_SEP);
    let mut s = String::from_str(TXT_RECORD_IDENT);
    s.append(MARKER_JOIN);
    s.append(stripped.as_str());
    s.append(TXT_RECORD_SEP);
    s.append(MARKER_TAIL);
    s
}

/// Every tenant's marker is recognised as a marker.
pub proof fn lemma_marker_is_marker(tenant: Seq<char>)
    ensures
        is_marker(marker_of(tenant)),
{
    let m = marker_of(tenant);
    let rest = MARKER_JOIN@ + strip_sep(tenant) + TXT_RECORD_SEP@ + MARKER_TAIL@;
    assert(m =~= ident() + rest);
    assert(m.subrange(0, ident().len() as int) =~= ident());
}

/// Different tenant names give different markers, unless they differ only in separators.
pub proof fn lemma_marker_injective(t1: Seq<char>, t2: Seq<char>)
    requires
        marker_of(t1) == marker_of(t2),
    ensures
        strip_sep(t1) == strip_sep(t2),
{
    let head = ident() + MARKER_JOIN@;
    let tail = TXT_RECORD_SEP@ + MARKER_TAIL@;
    let s1 = strip_sep(t1);
    let s2 = strip_sep(t2);
    assert(marker_of(t1) =~= head + s1 + tail);
    assert(marker_of(t2) =~= head + s2 + tail);
    assert(s1.len() == s2.len());
    assert(s1 =~= marker_of(t1).subrange(head.len() as int, (head.len() + s1.len()) as int));
    assert(s2 =~= marker_of(t2).subrange(head.len() as int, (head.len() + s2.len()) as int));
}

/// A domain whose only marker is tenant `t`'s is owned for `t`. For any tenant `other` whose
/// name differs from `t`'s in more than separator characters, the same domain is taken.
pub proof fn lemma_marker_round_trip(a: Seq<Ipv4>, txt: Seq<Seq<char>>, t: Seq<char>, other: Seq<char>)
    requires
        txt.contains(marker_of(t)),
        forall|i: int| 0 <= i < txt.len() && is_marker(#[trigger] txt[i]) ==> txt[i] == marker_of(t),
    ensures
        ownership_of(a, txt, t) == Ownership::Owned,
        strip_sep(other) != strip_sep(t) ==> ownership_of(a, txt, other) == Ownership::Taken,
{
    lemma_marker_is_marker(t);
    lemma_marker_is_marker(other);
    let k = choose|k: int| 0 <= k < txt.len() && txt[k] == marker_of(t);
    assert(is_marker(txt[k]));
    if strip_sep(other) != strip_sep(t) {
        if marker_of(other) == marker_of(t) {
            lemma_marker_injective(other, t);
        }
        if txt.contains(marker_of(other)) {
            let j = choose|j: int| 0 <= j < txt.len() && txt[j] == marker_of(other);
            assert(is_marker(txt[j]));
        }
    }
}

/// Ownership depends on nothing but the set of A records, the set of TXT values and the
/// tenant: two domains that agree on those two sets are classified alike, whatever else is in
/// the registry.
pub proof fn lemma_ownership_depends_on_sets(
    a1: Seq<Ipv4>,
    txt1: Seq<Seq<char>>,
    a2: Seq<Ipv4>,
    txt2: Seq<Seq<char>>,
    tenant: Seq<char>,
)
    requires
        a1.to_set() == a2.to_set(),
        txt1.to_set() == txt2.to_set(),
    ensures
        ownership_of(a1, txt1, tenant) == ownership_of(a2, txt2, tenant),
{
    lemma_same_set_facts(a1, txt1, a2, txt2, tenant);
    lemma_same_set_facts(a2, txt2, a1, txt1, tenant);
}

proof fn lemma_same_set_facts(
    a1: Seq<Ipv4>,
    txt1: Seq<Seq<char>>,
    a2: Seq<Ipv4>,
    txt2: Seq<Seq<char>>,
    tenant: Seq<char>,
)
    requires
        a1.to_set() == a2.to_set(),
        txt1.to_set() == txt2.to_set(),
    ensures
        a1.len() == 0 ==> a2.len() == 0,
        txt1.contains(marker_of(tenant)) ==> txt2.contains(marker_of(tenant)),
        (forall|i: int| 0 <= i < txt1.len() && is_marker(#[trigger] txt1[i]) ==> txt1[i] == marker_of(tenant))
            ==> (forall|i: int| 0 <= i < txt2.len() && is_marker(#[trigger] txt2[i]) ==> txt2[i] == marker_of(tenant)),
        (forall|i: int| 0 <= i < txt1.len() ==> !is_marker(#[trigger] txt1[i]))
            ==> (forall|i: int| 0 <= i < txt2.len() ==> !is_marker(#[trigger] txt2[i])),
{
    if a2.len() > 0 {
        assert(a2.to_set().contains(a2[0]));
        assert(a1.to_set().contains(a2[0]));
    }
    if txt1.contains(marker_of(tenant)) {
        assert(txt1.to_set().contains(marker_of(tenant)));
        assert(txt2.to_set().contains(marker_of(tenant)));
    }
    assert forall|i: int| 0 <= i < txt2.len() implies #[trigger] txt1.contains(txt2[i]) by {
        assert(txt2.to_set().contains(txt2[i]));
        assert(txt1.to_set().contains(txt2[i]));
    }
    if forall|i: int| 0 <= i < txt1.len() && is_marker(#[trigger] txt1[i]) ==> txt1[i] == marker_of(tenant) {
        assert forall|i: int| 0 <= i < txt2.len() && is_marker(#[trigger] txt2[i]) implies txt2[i] == marker_of(tenant) by {
            assert(txt1.contains(txt2[i]));
            let j = choose|j: int| 0 <= j < txt1.len() && txt1[j] == txt2[i];
            assert(is_marker(txt1[j]));
        }
    }
    if forall|i: int| 0 <= i < txt1.len() ==> !is_marker(#[trigger] txt1[i]) {
        assert forall|i: int| 0 <= i < txt2.len() implies !is_marker(#[trigger] txt2[i]) by {
            assert(txt1.contains(txt2[i]));
            let j = choose|j: int| 0 <= j < txt1.len() && txt1[j] == txt2[i];
            assert(!is_marker(txt1[j]));
        }
    }
}

/// The ownership status of a domain for a tenant, from the domain's A records and TXT values.
pub fn determine_ownership(domain: &Domain, tenant: &str) -> (r: Ownership)
    ensures
        r == ownership_of(domain.a@, string_views(domain.txt@), tenant@),
{
    let ghost tv = string_views(domain.txt@);
    let mine = txt_record_string(tenant);
    let mut markers: Vec<String> = Vec::new();
    let mut i: usize = 0;
    while i < domain.txt.len()
        invariant
            0 <= i <= domain.txt.len(),
            tv == string_views(domain.txt@),
            forall|k: int|
                0 <= k < markers.len() ==> is_marker(#[trigger] string_views(markers@)[k])
                    && tv.contains(string_views(markers@)[k]),
            forall|j: int|
                0 <= j < i && is_marker(#[trigger] tv[j]) ==> string_views(markers@).contains(tv[j]),
        decreases domain.txt.len() - i,
    {
        assert(tv[i as int] == domain.txt@[i as int]@);
        let ghost before = string_views(markers@);
        if has_prefix(domain.txt[i].as_str(), TXT_RECORD_IDENT) {
            markers.push(domain.txt[i].clone());
            assert(string_views(markers@) =~= before.push(tv[i as int]));
            assert forall|j: int| 0 <= j <= i && is_marker(#[trigger] tv[j]) implies string_views(
                markers@,
            ).contains(tv[j]) by {
                if j < i {
                    let w = choose|w: int| 0 <= w < before.len() && before[w] == tv[j];
                    assert(string_views(markers@)[w] == tv[j]);
                } else {
                    assert(string_views(markers@)[before.len() as int] == tv[j]);
                }
            }
        }
        i = i + 1;
    }
    let ghost mv = string_views(markers@);
    let owners = unique_strings(markers);
    let ghost ov = string_views(owners@);
    proof {
        lemma_marker_is_marker(tenant@);
    }
    assert(forall|x: Seq<char>| ov.contains(x) <==> mv.contains(x)) by {
        assert forall|x: Seq<char>| ov.contains(x) <==> mv.contains(x) by {
            assert(ov.to_set().contains(x) == ov.contains(x));
            assert(mv.to_set().contains(x) == mv.contains(x));
        }
    }
    if owners.len() == 0 {
        assert forall|j: int| 0 <= j < tv.len() implies !is_marker(#[trigger] tv[j]) by {
            if is_marker(tv[j]) {
                assert(mv.contains(tv[j]));
                assert(ov.contains(tv[j]));
            }
        }
        if domain.a.len() == 0 {
            Ownership::Available
        } else {
            Ownership::Taken
        }
    } else if owners.len() == 1 {
        assert(ov.contains(ov[0]));
        assert(mv.contains(ov[0]));
        proof {
            if tv.contains(marker_of(tenant@)) {
                let j = choose|j: int| 0 <= j < tv.len() && tv[j] == marker_of(tenant@);
                assert(is_marker(tv[j]));
                assert(mv.contains(tv[j]));
            }
        }
        if owners[0] == mine {
            assert forall|j: int| 0 <= j < tv.len() && is_marker(#[trigger] tv[j]) implies tv[j]
                == marker_of(tenant@) by {
                assert(mv.contains(tv[j]));
                assert(ov.contains(tv[j]));
            }
            Ownership::Owned
        } else {
            Ownership::Taken
        }
    } else {
        assert(ov[0] != ov[1]);
        assert(ov.contains(ov[0]));
        assert(ov.contains(ov[1]));
        assert(mv.contains(ov[0]));
        assert(mv.contains(ov[1]));
        let ghost j0 = choose|j: int| 0 <= j < tv.len() && tv[j] == ov[0];
        let ghost j1 = choose|j: int| 0 <= j < tv.len() && tv[j] == ov[1];
        assert(is_marker(tv[j0]) && is_marker(tv[j1]));
        Ownership::Taken
    }
}

/// Whether the first `n` records hold an A record of `name` with address `ip`.
pub open spec fn lists_a(recs: Seq<DnsRecord>, n: int, name: Seq<char>, ip: Ipv4) -> bool {
    exists|k: int| 0 <= k < n && is_a_record(#[trigger] recs[k], name, ip)
}

/// Whether the first `n` records hold an AAAA record of `name` with address `ip`.
pub open spec fn lists_aaaa(recs: Seq<DnsRecord>, n: int, name: Seq<char>, ip: Ipv6) -> bool {
    exists|k: int| 0 <= k < n && is_aaaa_record(#[trigger] recs[k], name, ip)
}

/// Whether the first `n` records hold a TXT record of `name` with value `t`.
pub open spec fn lists_txt(recs: Seq<DnsRecord>, n: int, name: Seq<char>, t: Seq<char>) -> bool {
    exists|k: int| 0 <= k < n && is_txt_record(#[trigger] recs[k], name, t)
}

/// Whether a record is an A record of `name` with address `ip`.
pub open spec fn is_a_record(r: DnsRecord, name: Seq<char>, ip: Ipv4) -> bool {
    r.domain_name@ == name && r.content == RecordContent::A(ip)
}

/// Whether a record is an AAAA record of `name` with address `ip`.
pub open spec fn is_aaaa_record(r: DnsRecord, name: Seq<char>, ip: Ipv6) -> bool {
    r.domain_name@ == name && r.content == RecordContent::Aaaa(ip)
}

/// Whether a record is a TXT record of `name` with value `t`.
pub open spec fn is_txt_record(r: DnsRecord, name: Seq<char>, t: Seq<char>) -> bool {
    r.domain_name@ == name && r.content is Txt && r.content->Txt_0@ == t
}

/// The lists of a domain hold exactly the values of its records among the first `n` records.
pub open spec fn gathered_from(d: DomainView, recs: Seq<DnsRecord>, n: int) -> bool {
    &&& forall|ip: Ipv4| #[trigger] d.a.contains(ip) <==> lists_a(recs, n, d.name, ip)
    &&& forall|ip: Ipv6| #[trigger] d.aaaa.contains(ip) <==> lists_aaaa(recs, n, d.name, ip)
    &&& forall|t: Seq<char>| #[trigger] d.txt.contains(t) <==> lists_txt(recs, n, d.name, t)
}

/// Domain names are unique, and every list of a domain holds each value once.
pub open spec fn domains_wf(ds: Seq<DomainView>) -> bool {
    &&& forall|i: int, j: int|
        0 <= i < ds.len() && 0 <= j < ds.len() && i != j ==> #[trigger] ds[i].name != #[trigger] ds[j].name
    &&& forall|i: int|
        0 <= i < ds.len() ==> (#[trigger] ds[i]).a.no_duplicates() && ds[i].aaaa.no_duplicates()
            && ds[i].txt.no_duplicates()
}

/// The domains that a registry builds from records for a tenant: one per name found in the
/// records, holding that name's A, AAAA and TXT values, with the ownership they give.
pub open spec fn built_from(ds: Seq<DomainView>, recs: Seq<DnsRecord>, tenant: Seq<char>) -> bool {
    &&& gathered_upto(ds, recs, recs.len() as int)
    &&& forall|j: int|
        0 <= j < ds.len() ==> (#[trigger] ds[j]).ownership == ownership_of(ds[j].a, ds[j].txt, tenant)
}

/// A domain view with only its ownership changed.
pub open spec fn with_ownership(d: DomainView, o: Ownership) -> DomainView {
    DomainView { ownership: o, ..d }
}

/// The values of a sequence of domains.
pub open spec fn domain_views(v: Seq<Domain>) -> Seq<DomainView> {
    v.map_values(|d: Domain| d@)
}

fn contains_ipv4(v: &Vec<Ipv4>, x: Ipv4) -> (r: bool)
    ensures
        r == v@.contains(x),
{
    let mut i: usize = 0;
    while i < v.len()
        invariant
            0 <= i <= v.len(),
            forall|k: int| 0 <= k < i ==> v@[k] != x,
        decreases v.len() - i,
    {
        if v[i] == x {
            return true;
        }
        i = i + 1;
    }
    false
}

fn contains_ipv6(v: &Vec<Ipv6>, x: Ipv6) -> (r: bool)
    ensures
        r == v@.contains(x),
{
    let mut i: usize = 0;
    while i < v.len()
        invariant
            0 <= i <= v.len(),
            forall|k: int| 0 <= k < i ==> v@[k] != x,
        decreases v.len() - i,
    {
        if v[i] == x {
            return true;
        }
        i = i + 1;
    }
    false
}

fn contains_string(v: &Vec<String>, x: &String) -> (r: bool)
    ensures
        r == string_views(v@).contains(x@),
{
    let mut i: usize = 0;
    while i < v.len()
        invariant
            0 <= i <= v.len(),
            forall|k: int| 0 <= k < i ==> string_views(v@)[k] != x@,
        decreases v.len() - i,
    {
        if v[i] == *x {
            assert(string_views(v@)[i as int] == x@);
            return true;
        }
        i = i + 1;
    }
    false
}

proof fn lemma_push_contains<T>(s: Seq<T>, x: T)
    ensures
        forall|y: T| #[trigger] s.push(x).contains(y) <==> (s.contains(y) || y == x),
        s.no_duplicates() && !s.contains(x) ==> s.push(x).no_duplicates(),
{
    assert forall|y: T| #[trigger] s.push(x).contains(y) <==> (s.contains(y) || y == x) by {
        if s.contains(y) {
            let k = choose|k: int| 0 <= k < s.len() && s[k] == y;
            assert(s.push(x)[k] == y);
        }
        if y == x {
            assert(s.push(x)[s.len() as int] == y);
        }
    }
}

/// `new` is `old` with the value of a record added to the matching list.
pub open spec fn added(old: DomainView, new: DomainView, c: RecordContent) -> bool {
    &&& new.name == old.name
    &&& new.ownership == old.ownership
    &&& forall|ip: Ipv4| #[trigger] new.a.contains(ip) <==> (old.a.contains(ip) || c == RecordContent::A(ip))
    &&& forall|ip: Ipv6| #[trigger] new.aaaa.contains(ip) <==> (old.aaaa.contains(ip) || c == RecordContent::Aaaa(ip))
    &&& forall|t: Seq<char>| #[trigger] new.txt.contains(t) <==> (old.txt.contains(t) || (c is Txt && c->Txt_0@ == t))
}

/// The domains gathered from the first `n` records, before ownership is decided.
pub open spec fn gathered_upto(ds: Seq<DomainView>, recs: Seq<DnsRecord>, n: int) -> bool {
    &&& domains_wf(ds)
    &&& forall|j: int| 0 <= j < ds.len() ==> gathered_from(#[trigger] ds[j], recs, n)
    &&& names_covered(ds, recs, n)
    &&& names_sourced(ds, recs, n)
}

/// The names of a sequence of domains.
pub open spec fn names_of(ds: Seq<DomainView>) -> Seq<Seq<char>> {
    ds.map_values(|d: DomainView| d.name)
}

/// The names of the first `n` records.
pub open spec fn record_names(recs: Seq<DnsRecord>, n: int) -> Seq<Seq<char>> {
    recs.subrange(0, n).map_values(|r: DnsRecord| r.domain_name@)
}

/// Every name among the first `n` records is the name of a domain.
pub open spec fn names_covered(ds: Seq<DomainView>, recs: Seq<DnsRecord>, n: int) -> bool {
    forall|k: int| 0 <= k < n ==> names_of(ds).contains(#[trigger] recs[k].domain_name@)
}

/// Every domain is named by one of the first `n` records.
pub open spec fn names_sourced(ds: Seq<DomainView>, recs: Seq<DnsRecord>, n: int) -> bool {
    forall|j: int| 0 <= j < ds.len() ==> record_names(recs, n).contains(#[trigger] ds[j].name)
}

proof fn lemma_gather_other(d: DomainView, recs: Seq<DnsRecord>, i: int)
    requires
        0 <= i < recs.len(),
        gathered_from(d, recs, i),
        d.name != recs[i].domain_name@,
    ensures
        gathered_from(d, recs, i + 1),
{
    lemma_lists_step(recs, i, d.name);
}

proof fn lemma_gather_same(d: DomainView, nd: DomainView, recs: Seq<DnsRecord>, i: int)
    requires
        0 <= i < recs.len(),
        gathered_from(d, recs, i),
        d.name == recs[i].domain_name@,
        added(d, nd, recs[i].content),
    ensures
        gathered_from(nd, recs, i + 1),
{
    lemma_lists_step(recs, i, d.name);
}

/// A domain with the value of a record appended to the matching list, unless that list holds
/// it already; the other lists stay as they are.
pub open spec fn inserted(d: DomainView, c: RecordContent) -> DomainView {
    match c {
        RecordContent::A(ip) => if d.a.contains(ip) { d } else { DomainView { a: d.a.push(ip), ..d } },
        RecordContent::Aaaa(ip) => if d.aaaa.contains(ip) { d } else { DomainView { aaaa: d.aaaa.push(ip), ..d } },
        RecordContent::Txt(t) => if d.txt.contains(t@) { d } else { DomainView { txt: d.txt.push(t@), ..d } },
    }
}

/// Adds the value of a record to the matching list of a domain, unless it is there already.
/// The record's name is not looked at.
pub fn rec_into_d(rec: &DnsRecord, d: &mut Domain)
    ensures
        added(old(d)@, final(d)@, rec.content),
        final(d)@ == inserted(old(d)@, rec.content),
        old(d)@.a.no_duplicates() ==> final(d)@.a.no_duplicates(),
        old(d)@.aaaa.no_duplicates() ==> final(d)@.aaaa.no_duplicates(),
        old(d)@.txt.no_duplicates() ==> final(d)@.txt.no_duplicates(),
{
    let ghost old_txt = string_views(d.txt@);
    let ghost old_a = d.a@;
    let ghost old_aaaa = d.aaaa@;
    match &rec.content {
        RecordContent::A(ip) => {
            if !contains_ipv4(&d.a, *ip) {
                d.a.push(*ip);
            }
            proof {
                lemma_push_contains(old_a, *ip);
            }
        },
        RecordContent::Aaaa(ip) => {
            if !contains_ipv6(&d.aaaa, *ip) {
                d.aaaa.push(*ip);
            }
            proof {
                lemma_push_contains(old_aaaa, *ip);
            }
        },
        RecordContent::Txt(t) => {
            if !contains_string(&d.txt, t) {
                d.txt.push(t.clone());
                assert(string_views(d.txt@) =~= old_txt.push(t@));
            }
            proof {
                lemma_push_contains(old_txt, t@);
            }
        },
    }
}

/// The position of the domain called `name`, if there is one.
fn find_domain(domains: &Vec<Domain>, name: &str) -> (r: Option<usize>)
    ensures
        match r {
            Some(i) => i < domains.len() && domain_views(domains@)[i as int].name == name@,
            None => forall|i: int|
                0 <= i < domains.len() ==> #[trigger] domain_views(domains@)[i].name != name@,
        },
{
    let target = String::from_str(name);
    let mut i: usize = 0;
    while i < domains.len()
        invariant
            0 <= i <= domains.len(),
            target@ == name@,
            forall|k: int| 0 <= k < i ==> #[trigger] domain_views(domains@)[k].name != name@,
        decreases domains.len() - i,
    {
        assert(domain_views(domains@)[i as int] == domains@[i as int]@);
        if domains[i].name == target {
            return Some(i);
        }
        i = i + 1;
    }
    None
}

proof fn lemma_lists_step(recs: Seq<DnsRecord>, i: int, name: Seq<char>)
    requires
        0 <= i < recs.len(),
    ensures
        forall|ip: Ipv4|
            #[trigger] lists_a(recs, i + 1, name, ip) <==> (lists_a(recs, i, name, ip)
                || is_a_record(recs[i], name, ip)),
        forall|ip: Ipv6|
            #[trigger] lists_aaaa(recs, i + 1, name, ip) <==> (lists_aaaa(recs, i, name, ip)
                || is_aaaa_record(recs[i], name, ip)),
        forall|t: Seq<char>|
            #[trigger] lists_txt(recs, i + 1, name, t) <==> (lists_txt(recs, i, name, t)
                || is_txt_record(recs[i], name, t)),
{
    assert forall|ip: Ipv4| #[trigger] lists_a(recs, i + 1, name, ip) implies (lists_a(recs, i, name, ip)
        || is_a_record(recs[i], name, ip)) by {
        let k = choose|k: int| 0 <= k < i + 1 && is_a_record(#[trigger] recs[k], name, ip);
        if k < i {
            assert(lists_a(recs, i, name, ip));
        }
    }
    assert forall|ip: Ipv6| #[trigger] lists_aaaa(recs, i + 1, name, ip) implies (lists_aaaa(recs, i, name, ip)
        || is_aaaa_record(recs[i], name, ip)) by {
        let k = choose|k: int| 0 <= k < i + 1 && is_aaaa_record(#[trigger] recs[k], name, ip);
        if k < i {
            assert(lists_aaaa(recs, i, name, ip));
        }
    }
    assert forall|t: Seq<char>| #[trigger] lists_txt(recs, i + 1, name, t) implies (lists_txt(recs, i, name, t)
        || is_txt_record(recs[i], name, t)) by {
        let k = choose|k: int| 0 <= k < i + 1 && is_txt_record(#[trigger] recs[k], name, t);
        if k < i {
            assert(lists_txt(recs, i, name, t));
        }
    }
}

/// Adds record `i` to the domain of its name, or to a new domain at the end.
fn gather_record(domains: &mut Vec<Domain>, records: &Vec<DnsRecord>, i: usize)
    requires
        i < records.len(),
        gathered_upto(domain_views(old(domains)@), records@, i as int),
    ensures
        gathered_upto(domain_views(final(domains)@), records@, i + 1),
{
    let ghost recs = records@;
    let rec = &records[i];
    let ghost name = rec.domain_name@;
    let ghost before = domain_views(domains@);
    match find_domain(domains, rec.domain_name.as_str()) {
        Some(j) => {
            let ghost pre = domains@;
            assert(before[j as int] == pre[j as int]@);
            let mut d = domains.remove(j);
            rec_into_d(rec, &mut d);
            domains.insert(j, d);
            assert(domains@ =~= pre.update(j as int, d));
            let ghost after = domain_views(domains@);
            assert(after =~= before.update(j as int, d@));
            assert forall|x: int| 0 <= x < after.len() implies gathered_from(#[trigger] after[x], recs, i + 1) by {
                assert(gathered_from(before[x], recs, i as int));
                if x != j {
                    lemma_gather_other(before[x], recs, i as int);
                } else {
                    lemma_gather_same(before[x], d@, recs, i as int);
                }
            }
            assert(names_of(after) =~= names_of(before));
            assert(record_names(recs, i + 1) =~= record_names(recs, i as int).push(name));
            assert(names_of(after)[j as int] == name);
            assert forall|x: int| 0 <= x < after.len() implies record_names(recs, i + 1).contains(
                #[trigger] after[x].name,
            ) by {
                let w = choose|w: int| 0 <= w < i && record_names(recs, i as int)[w] == before[x].name;
                assert(record_names(recs, i + 1)[w] == after[x].name);
            }
        },
        None => {
            let mut d = Domain {
                name: rec.domain_name.clone(),
                a: Vec::new(),
                aaaa: Vec::new(),
                txt: Vec::new(),
                a_ownership: Ownership::Taken,
            };
            let ghost empty = d@;
            assert(empty.a =~= Seq::<Ipv4>::empty());
            assert(empty.aaaa =~= Seq::<Ipv6>::empty());
            assert(empty.txt =~= Seq::<Seq<char>>::empty());
            rec_into_d(rec, &mut d);
            domains.push(d);
            let ghost after = domain_views(domains@);
            assert(after =~= before.push(d@));
            assert forall|k: int| 0 <= k < i implies recs[k].domain_name@ != name by {
                let y = choose|y: int| 0 <= y < before.len() && names_of(before)[y] == recs[k].domain_name@;
                assert(before[y].name == names_of(before)[y]);
            }
            assert(gathered_from(empty, recs, i as int)) by {
                assert forall|ip: Ipv4| !lists_a(recs, i as int, name, ip) by {
                    if lists_a(recs, i as int, name, ip) {
                        let k = choose|k: int| 0 <= k < i && is_a_record(#[trigger] recs[k], name, ip);
                    }
                }
                assert forall|ip: Ipv6| !lists_aaaa(recs, i as int, name, ip) by {
                    if lists_aaaa(recs, i as int, name, ip) {
                        let k = choose|k: int| 0 <= k < i && is_aaaa_record(#[trigger] recs[k], name, ip);
                    }
                }
                assert forall|t: Seq<char>| !lists_txt(recs, i as int, name, t) by {
                    if lists_txt(recs, i as int, name, t) {
                        let k = choose|k: int| 0 <= k < i && is_txt_record(#[trigger] recs[k], name, t);
                    }
                }
            }
            assert forall|x: int| 0 <= x < after.len() implies gathered_from(#[trigger] after[x], recs, i + 1) by {
                if x < before.len() {
                    assert(gathered_from(before[x], recs, i as int));
                    lemma_gather_other(before[x], recs, i as int);
                } else {
                    lemma_gather_same(empty, d@, recs, i as int);
                }
            }
            assert(names_of(after) =~= names_of(before).push(name));
            assert(record_names(recs, i + 1) =~= record_names(recs, i as int).push(name));
            assert forall|k: int| 0 <= k < i + 1 implies names_of(after).contains(#[trigger] recs[k].domain_name@) by {
                if k < i {
                    let y = choose|y: int| 0 <= y < before.len() && names_of(before)[y] == recs[k].domain_name@;
                    assert(names_of(after)[y] == recs[k].domain_name@);
                } else {
                    assert(names_of(after)[before.len() as int] == recs[k].domain_name@);
                }
            }
            assert forall|x: int| 0 <= x < after.len() implies record_names(recs, i + 1).contains(
                #[trigger] after[x].name,
            ) by {
                if x < before.len() {
                    let w = choose|w: int| 0 <= w < i && record_names(recs, i as int)[w] == before[x].name;
                    assert(record_names(recs, i + 1)[w] == after[x].name);
                } else {
                    assert(record_names(recs, i + 1)[i as int] == after[x].name);
                }
            }
        },
    }
}

/// Gives every domain the ownership that its records give it for `tenant`.
fn assign_ownership(domains: &mut Vec<Domain>, tenant: &str)
    ensures
        final(domains).len() == old(domains).len(),
        forall|x: int|
            0 <= x < old(domains).len() ==> #[trigger] domain_views(final(domains)@)[x] == with_ownership(
                domain_views(old(domains)@)[x],
                ownership_of(domain_views(old(domains)@)[x].a, domain_views(old(domains)@)[x].txt, tenant@),
            ),
{
    let ghost gathered = domain_views(domains@);
    let mut j: usize = 0;
    while j < domains.len()
        invariant
            0 <= j <= domains.len(),
            domains.len() == gathered.len(),
            forall|x: int|
                0 <= x < domains.len() ==> #[trigger] domain_views(domains@)[x] == (if x < j {
                    with_ownership(gathered[x], ownership_of(gathered[x].a, gathered[x].txt, tenant@))
                } else {
                    gathered[x]
                }),
        decreases domains.len() - j,
    {
        let ghost pre = domains@;
        assert(domain_views(pre)[j as int] == pre[j as int]@);
        let mut d = domains.remove(j);
        assert(d@ == gathered[j as int]);
        d.a_ownership = determine_ownership(&d, tenant);
        domains.insert(j, d);
        assert(domains@ =~= pre.update(j as int, d));
        assert forall|x: int| 0 <= x < domains.len() implies #[trigger] domain_views(domains@)[x] == (if x < j + 1 {
            with_ownership(gathered[x], ownership_of(gathered[x].a, gathered[x].txt, tenant@))
        } else {
            gathered[x]
        }) by {
            assert(domain_views(domains@)[x] == domains@[x]@);
            assert(domain_views(pre)[x] == pre[x]@);
        }
        j = j + 1;
    }
}

/// Domains with the same names and lists as gathered domains are gathered domains too.
proof fn lemma_regathered(gathered: Seq<DomainView>, rv: Seq<DomainView>, recs: Seq<DnsRecord>)
    requires
        gathered_upto(gathered, recs, recs.len() as int),
        rv.len() == gathered.len(),
        forall|x: int|
            0 <= x < gathered.len() ==> #[trigger] rv[x] == with_ownership(gathered[x], rv[x].ownership),
    ensures
        gathered_upto(rv, recs, recs.len() as int),
{
    let n = recs.len() as int;
    assert forall|x: int| 0 <= x < rv.len() implies gathered_from(#[trigger] rv[x], recs, n) by {
        assert(rv[x] == with_ownership(gathered[x], rv[x].ownership));
        assert(gathered_from(gathered[x], recs, n));
    }
    assert(domains_wf(rv)) by {
        assert forall|x: int, y: int| 0 <= x < rv.len() && 0 <= y < rv.len() && x != y implies #[trigger] rv[x].name
            != #[trigger] rv[y].name by {
            assert(rv[x] == with_ownership(gathered[x], rv[x].ownership));
            assert(rv[y] == with_ownership(gathered[y], rv[y].ownership));
        }
        assert forall|x: int| 0 <= x < rv.len() implies (#[trigger] rv[x]).a.no_duplicates()
            && rv[x].aaaa.no_duplicates() && rv[x].txt.no_duplicates() by {
            assert(rv[x] == with_ownership(gathered[x], rv[x].ownership));
        }
    }
    assert forall|x: int| 0 <= x < rv.len() implies #[trigger] rv[x].name == gathered[x].name by {
        assert(rv[x] == with_ownership(gathered[x], rv[x].ownership));
    }
    assert(names_of(rv) =~= names_of(gathered));
}

/// The reason given when a domain is not in the registry.
pub const NOT_IN_REGISTRY: &'static str = "Not in registry";

/// The reason given when a domain belongs to someone else.
pub const OWNED_ELSEWHERE: &'static str = "Owned by other instance";

/// The reason given when the provider failed to write a marker.
pub open spec fn provider_reason_text(e: ProviderError) -> Seq<char> {
    "Provider Error: "@ + provider_error_text(e)
}

fn provider_reason(e: &ProviderError) -> (r: String)
    ensures
        r@ == provider_reason_text(*e),
{
    let mut s = String::from_str("Provider Error: ");
    let m = e.message();
    s.append(m.as_str());
    s
}

/// Whether a reason carries the text of the provider error that caused it.
pub open spec fn provider_caused(reason: Seq<char>) -> bool {
    exists|e: ProviderError| reason == #[trigger] provider_reason_text(e)
}

/// The domains of a sequence that have the given ownership, in order.
pub open spec fn with_status(ds: Seq<DomainView>, o: Ownership) -> Seq<DomainView> {
    ds.filter(|d: DomainView| d.ownership == o)
}

/// Whether `r` is a claim error for `name` with the given reason.
pub open spec fn is_claim_error(r: Result<(), RegistryError>, name: Seq<char>) -> bool {
    r is Err && r->Err_0 is ClaimError && r->Err_0->ClaimError_domain@ == name
}

/// Whether `r` is a release error for `name`.
pub open spec fn is_release_error(r: Result<(), RegistryError>, name: Seq<char>) -> bool {
    r is Err && r->Err_0 is ReleaseError && r->Err_0->ReleaseError_domain@ == name
}

/// What claiming `name` does: `old` is the registry before, `new` after, `r` the result.
pub open spec fn claimed(
    old: Seq<DomainView>,
    new: Seq<DomainView>,
    name: Seq<char>,
    r: Result<(), RegistryError>,
    dry_run: bool,
) -> bool {
    &&& (forall|i: int| 0 <= i < old.len() ==> #[trigger] old[i].name != name) ==> {
        &&& is_claim_error(r, name)
        &&& r->Err_0->ClaimError_reason@ == NOT_IN_REGISTRY@
        &&& new == old
    }
    &&& forall|i: int|
        0 <= i < old.len() && #[trigger] old[i].name == name ==> match old[i].ownership {
            Ownership::Owned => r is Ok && new == old,
            Ownership::Taken => is_claim_error(r, name) && r->Err_0->ClaimError_reason@
                == OWNED_ELSEWHERE@ && new == old,
            Ownership::Available => {
                &&& r is Ok ==> new == old.update(i, with_ownership(old[i], Ownership::Owned))
                &&& r is Err ==> is_claim_error(r, name) && new == old
                    && provider_caused(r->Err_0->ClaimError_reason@)
                &&& dry_run ==> r is Ok
            },
        }
}

/// What releasing `name` does: `old` is the registry before, `new` after, `r` the result.
pub open spec fn released(
    old: Seq<DomainView>,
    new: Seq<DomainView>,
    name: Seq<char>,
    r: Result<(), RegistryError>,
    dry_run: bool,
) -> bool {
    &&& (forall|i: int| 0 <= i < old.len() ==> #[trigger] old[i].name != name) ==> {
        &&& is_release_error(r, name)
        &&& r->Err_0->ReleaseError_reason@ == NOT_IN_REGISTRY@
        &&& new == old
    }
    &&& forall|i: int|
        0 <= i < old.len() && #[trigger] old[i].name == name ==> match old[i].ownership {
            Ownership::Available => r is Ok && new == old,
            Ownership::Taken => is_release_error(r, name) && r->Err_0->ReleaseError_reason@
                == OWNED_ELSEWHERE@ && new == old,
            Ownership::Owned => {
                &&& r is Ok ==> new == old.update(i, with_ownership(old[i], Ownership::Available))
                &&& r is Err ==> is_release_error(r, name) && new == old
                    && provider_caused(r->Err_0->ReleaseError_reason@)
                &&& dry_run ==> r is Ok
            },
        }
}

/// Claiming never makes a taken domain owned, and releasing never makes a taken domain
/// available: whatever the outcome, a taken domain stays taken.
pub proof fn lemma_taken_stays_taken(
    old: Seq<DomainView>,
    new: Seq<DomainView>,
    name: Seq<char>,
    r: Result<(), RegistryError>,
    dry_run: bool,
    i: int,
)
    requires
        domains_wf(old),
        0 <= i < old.len(),
        old[i].ownership == Ownership::Taken,
        claimed(old, new, name, r, dry_run) || released(old, new, name, r, dry_run),
    ensures
        new.len() == old.len(),
        new[i].ownership == Ownership::Taken,
{
    if old[i].name == name {
        assert(new == old);
    } else if exists|j: int| 0 <= j < old.len() && old[j].name == name {
        let j = choose|j: int| 0 <= j < old.len() && old[j].name == name;
        assert(j != i);
        assert(new[i] == old[i]);
    } else {
        assert(new == old);
    }
}

/// A domain's ownership depends only on the records of its own name: two registries built for
/// the same tenant from record lists that hold the same A and TXT values for a name give the
/// domain of that name the same ownership, whatever records other names have.
pub proof fn lemma_ownership_ignores_other_domains(
    ds1: Seq<DomainView>,
    recs1: Seq<DnsRecord>,
    ds2: Seq<DomainView>,
    recs2: Seq<DnsRecord>,
    tenant: Seq<char>,
    i: int,
    j: int,
)
    requires
        built_from(ds1, recs1, tenant),
        built_from(ds2, recs2, tenant),
        0 <= i < ds1.len(),
        0 <= j < ds2.len(),
        ds1[i].name == ds2[j].name,
        forall|ip: Ipv4|
            #[trigger] lists_a(recs1, recs1.len() as int, ds1[i].name, ip) <==> lists_a(
                recs2,
                recs2.len() as int,
                ds1[i].name,
                ip,
            ),
        forall|t: Seq<char>|
            #[trigger] lists_txt(recs1, recs1.len() as int, ds1[i].name, t) <==> lists_txt(
                recs2,
                recs2.len() as int,
                ds1[i].name,
                t,
            ),
    ensures
        ds1[i].ownership == ds2[j].ownership,
{
    let d1 = ds1[i];
    let d2 = ds2[j];
    assert(gathered_from(d1, recs1, recs1.len() as int));
    assert(gathered_from(d2, recs2, recs2.len() as int));
    assert(d1.a.to_set() =~= d2.a.to_set());
    assert(d1.txt.to_set() =~= d2.txt.to_set());
    lemma_ownership_depends_on_sets(d1.a, d1.txt, d2.a, d2.txt, tenant);
}

/// A copy of a vector of addresses.
fn copy_ipv4s(v: &Vec<Ipv4>) -> (r: Vec<Ipv4>)
    ensures
        r@ == v@,
{
    let mut out: Vec<Ipv4> = Vec::new();
    let mut i: usize = 0;
    while i < v.len()
        invariant
            0 <= i <= v.len(),
            out@ == v@.subrange(0, i as int),
        decreases v.len() - i,
    {
        out.push(v[i]);
        assert(out@ =~= v@.subrange(0, i + 1));
        i = i + 1;
    }
    assert(out@ =~= v@);
    out
}

/// A copy of a vector of addresses.
fn copy_ipv6s(v: &Vec<Ipv6>) -> (r: Vec<Ipv6>)
    ensures
        r@ == v@,
{
    let mut out: Vec<Ipv6> = Vec::new();
    let mut i: usize = 0;
    while i < v.len()
        invariant
            0 <= i <= v.len(),
            out@ == v@.subrange(0, i as int),
        decreases v.len() - i,
    {
        out.push(v[i]);
        assert(out@ =~= v@.subrange(0, i + 1));
        i = i + 1;
    }
    assert(out@ =~= v@);
    out
}

/// A copy of a vector of strings.
fn copy_strings(v: &Vec<String>) -> (r: Vec<String>)
    ensures
        string_views(r@) == string_views(v@),
{
    let mut out: Vec<String> = Vec::new();
    let mut i: usize = 0;
    while i < v.len()
        invariant
            0 <= i <= v.len(),
            string_views(out@) == string_views(v@).subrange(0, i as int),
        decreases v.len() - i,
    {
        let ghost before = string_views(out@);
        out.push(v[i].clone());
        assert(string_views(out@) =~= before.push(v@[i as int]@));
        assert(string_views(out@) =~= string_views(v@).subrange(0, i + 1));
        i = i + 1;
    }
    assert(string_views(out@) =~= string_views(v@));
    out
}

/// A copy of a domain.
fn copy_domain(d: &Domain) -> (r: Domain)
    ensures
        r@ == d@,
{
    Domain {
        name: d.name.clone(),
        a: copy_ipv4s(&d.a),
        aaaa: copy_ipv6s(&d.aaaa),
        txt: copy_strings(&d.txt),
        a_ownership: d.a_ownership,
    }
}

/// Tracks which domains may have their A records changed by this instance, through TXT
/// ownership markers kept with the provider.
///
/// Domains are listed in the order in which their first record was read.
pub struct TxtRegistry<P> {
    domains: Vec<Domain>,
    tenant: String,
    provider: P,
    dry_run: bool,
}

impl<P> View for TxtRegistry<P> {
    type V = Seq<DomainView>;

    closed spec fn view(&self) -> Seq<DomainView> {
        domain_views(self.domains@)
    }
}

impl<P: DnsProvider + TxTRegistryProvider> TxtRegistry<P> {
    /// The tenant whose marker gives ownership.
    pub closed spec fn tenant_view(&self) -> Seq<char> {
        self.tenant@
    }

    /// Whether claims and releases leave the provider's records alone.
    pub closed spec fn in_dry_run(&self) -> bool {
        self.dry_run
    }

    /// Domain names are unique and every list holds each value once.
    pub open spec fn wf(&self) -> bool {
        domains_wf(self@)
    }

    /// Builds a registry for `tenant` from every record a provider serves. Each domain gets the
    /// ownership that its A and TXT records give it.
    pub fn from_records(tenant: String, records: &Vec<DnsRecord>, provider: P) -> (r: Self)
        ensures
            r.wf(),
            built_from(r@, records@, tenant@),
            r.tenant_view() == tenant@,
            !r.in_dry_run(),
    {
        let ghost recs = records@;
        let mut domains: Vec<Domain> = Vec::new();
        let mut i: usize = 0;
        while i < records.len()
            invariant
                0 <= i <= records.len(),
                recs == records@,
                gathered_upto(domain_views(domains@), recs, i as int),
            decreases records.len() - i,
        {
            gather_record(&mut domains, records, i);
            i = i + 1;
        }
        let ghost gathered = domain_views(domains@);
        assign_ownership(&mut domains, tenant.as_str());
        proof {
            let rv = domain_views(domains@);
            assert forall|x: int| 0 <= x < gathered.len() implies #[trigger] rv[x] == with_ownership(
                gathered[x],
                rv[x].ownership,
            ) by {
                assert(rv[x] == with_ownership(
                    gathered[x],
                    ownership_of(gathered[x].a, gathered[x].txt, tenant@),
                ));
            }
            lemma_regathered(gathered, rv, recs);
        }
        TxtRegistry { domains, tenant, provider, dry_run: false }
    }

    fn find(&self, name: &str) -> (r: Option<usize>)
        ensures
            match r {
                Some(i) => i < self@.len() && self@[i as int].name == name@,
                None => forall|i: int| 0 <= i < self@.len() ==> #[trigger] self@[i].name != name@,
            },
    {
        find_domain(&self.domains, name)
    }

    /// Reads every record from the provider and builds a registry for `tenant` from them.
    /// Fails only when the provider cannot list its records.
    pub fn from_provider(tenant: String, provider: P) -> (r: Result<Self, RegistryError>)
        ensures
            match r {
                Ok(reg) => reg.wf() && reg.tenant_view() == tenant@ && !reg.in_dry_run()
                    && exists|recs: Seq<DnsRecord>| built_from(reg@, recs, tenant@),
                Err(e) => e is Internal && exists|pe: ProviderError| e->Internal_0@ == #[trigger] provider_error_text(pe),
            },
    {
        match provider.records() {
            Ok(records) => {
                let reg = Self::from_records(tenant, &records, provider);
                assert(built_from(reg@, records@, tenant@));
                Ok(reg)
            },
            Err(e) => {
                let m = e.message();
                assert(m@ == provider_error_text(e));
                Err(RegistryError::Internal(m))
            },
        }
    }

    /// Claims and releases from now on change only the registry's own view, not the provider.
    pub fn enable_dry_run(&mut self) -> (r: Result<(), RegistryError>)
        ensures
            r is Ok,
            final(self)@ == old(self)@,
            final(self).in_dry_run(),
            final(self).tenant_view() == old(self).tenant_view(),
    {
        self.dry_run = true;
        Ok(())
    }

    /// Use another tenant's marker for later claims and releases. Ownership already derived is
    /// kept.
    pub fn set_tenant(&mut self, tenant: String)
        ensures
            final(self)@ == old(self)@,
            final(self).in_dry_run() == old(self).in_dry_run(),
            final(self).tenant_view() == tenant@,
    {
        self.tenant = tenant;
    }

    /// The number of domains known to the registry.
    pub fn domain_count(&self) -> (r: usize)
        ensures
            r == self@.len(),
    {
        self.domains.len()
    }

    /// The domain at position `i`.
    pub fn domain(&self, i: usize) -> (r: &Domain)
        requires
            i < self@.len(),
        ensures
            r@ == self@[i as int],
    {
        &self.domains[i]
    }

    /// All domains the registry knows about, in registry order.
    pub fn all_domains(&self) -> (r: Vec<Domain>)
        ensures
            domain_views(r@) == self@,
    {
        let mut out: Vec<Domain> = Vec::new();
        let mut i: usize = 0;
        while i < self.domains.len()
            invariant
                0 <= i <= self.domains.len(),
                domain_views(out@) == self@.subrange(0, i as int),
            decreases self.domains.len() - i,
        {
            let ghost before = domain_views(out@);
            out.push(copy_domain(&self.domains[i]));
            assert(domain_views(out@) =~= before.push(self@[i as int]));
            assert(self@.subrange(0, i + 1) =~= self@.subrange(0, i as int).push(self@[i as int]));
            i = i + 1;
        }
        assert(self@.subrange(0, i as int) =~= self@);
        out
    }

    /// The domains with the given ownership, in registry order.
    fn domains_with(&self, o: Ownership) -> (r: Vec<Domain>)
        ensures
            domain_views(r@) == with_status(self@, o),
    {
        let mut out: Vec<Domain> = Vec::new();
        let mut i: usize = 0;
        while i < self.domains.len()
            invariant
                0 <= i <= self.domains.len(),
                domain_views(out@) == with_status(self@.subrange(0, i as int), o),
            decreases self.domains.len() - i,
        {
            let ghost before = domain_views(out@);
            let ghost next = self@.subrange(0, i + 1);
            assert(next.drop_last() =~= self@.subrange(0, i as int));
            assert(next.last() == self@[i as int]);
            assert(self@[i as int] == self.domains@[i as int]@);
            reveal(Seq::filter);
            assert(with_status(next, o) == (if self@[i as int].ownership == o {
                with_status(self@.subrange(0, i as int), o).push(self@[i as int])
            } else {
                with_status(self@.subrange(0, i as int), o)
            }));
            if self.domains[i].a_ownership == o {
                out.push(copy_domain(&self.domains[i]));
                assert(domain_views(out@) =~= before.push(self@[i as int]));
            } else {
                assert(domain_views(out@) =~= before);
            }
            i = i + 1;
        }
        assert(self@.subrange(0, i as int) =~= self@);
        out
    }

    /// The domains owned by this instance.
    pub fn owned_domains(&self) -> (r: Vec<Domain>)
        ensures
            domain_views(r@) == with_status(self@, Ownership::Owned),
    {
        self.domains_with(Ownership::Owned)
    }

    /// The domains owned by someone else.
    pub fn taken_domains(&self) -> (r: Vec<Domain>)
        ensures
            domain_views(r@) == with_status(self@, Ownership::Taken),
    {
        self.domains_with(Ownership::Taken)
    }

    /// The domains not owned by anyone.
    pub fn available_domains(&self) -> (r: Vec<Domain>)
        ensures
            domain_views(r@) == with_status(self@, Ownership::Available),
    {
        self.domains_with(Ownership::Available)
    }

    fn set_ownership(&mut self, i: usize, o: Ownership)
        requires
            old(self).wf(),
            i < old(self)@.len(),
        ensures
            final(self).wf(),
            final(self)@ == old(self)@.update(i as int, with_ownership(old(self)@[i as int], o)),
            final(self).in_dry_run() == old(self).in_dry_run(),
            final(self).tenant_view() == old(self).tenant_view(),
    {
        let ghost pre = self.domains@;
        let ghost before = self@;
        assert(before[i as int] == pre[i as int]@);
        let mut d = self.domains.remove(i);
        d.a_ownership = o;
        self.domains.insert(i, d);
        assert(self.domains@ =~= pre.update(i as int, d));
        assert(self@ =~= before.update(i as int, with_ownership(before[i as int], o)));
        let ghost after = self@;
        assert forall|x: int, y: int| 0 <= x < after.len() && 0 <= y < after.len() && x != y implies #[trigger] after[x].name
            != #[trigger] after[y].name by {
            assert(after[x].name == before[x].name);
            assert(after[y].name == before[y].name);
        }
        assert forall|x: int| 0 <= x < after.len() implies (#[trigger] after[x]).a.no_duplicates()
            && after[x].aaaa.no_duplicates() && after[x].txt.no_duplicates() by {
            assert(after[x].a == before[x].a && after[x].aaaa == before[x].aaaa && after[x].txt == before[x].txt);
        }
    }

    /// Claims the domain called `name` for this instance.
    ///
    /// An owned domain stays owned and a taken one cannot be claimed. An available domain
    /// becomes owned once the provider has stored this tenant's marker for it (in dry-run mode
    /// without asking the provider); if the provider fails, nothing changes.
    pub fn claim(&mut self, name: &str) -> (r: Result<(), RegistryError>)
        requires
            old(self).wf(),
        ensures
            final(self).wf(),
            final(self).in_dry_run() == old(self).in_dry_run(),
            final(self).tenant_view() == old(self).tenant_view(),
            claimed(old(self)@, final(self)@, name@, r, old(self).in_dry_run()),
    {
        match self.find(name) {
            None => Err(RegistryError::ClaimError {
                domain: String::from_str(name),
                reason: String::from_str(NOT_IN_REGISTRY),
            }),
            Some(i) => {
                assert(self@[i as int] == self.domains@[i as int]@);
                match self.domains[i].a_ownership {
                    Ownership::Owned => Ok(()),
                    Ownership::Taken => Err(RegistryError::ClaimError {
                        domain: String::from_str(name),
                        reason: String::from_str(OWNED_ELSEWHERE),
                    }),
                    Ownership::Available => {
                        if !self.dry_run {
                            let marker = txt_record_string(self.tenant.as_str());
                            let res = self.provider.create_txt_record(self.domains[i].name.clone(), marker);
                            if let Err(e) = res {
                                let reason = provider_reason(&e);
                                assert(provider_caused(reason@));
                                return Err(RegistryError::ClaimError { domain: String::from_str(name), reason });
                            }
                        }
                        self.set_ownership(i, Ownership::Owned);
                        Ok(())
                    },
                }
            },
        }
    }

    /// Releases the domain called `name`.
    ///
    /// An available domain stays available and a taken one cannot be released. An owned domain
    /// becomes available once the provider has deleted this tenant's marker (in dry-run mode
    /// without asking the provider); if the provider fails, nothing changes.
    pub fn release(&mut self, name: &str) -> (r: Result<(), RegistryError>)
        requires
            old(self).wf(),
        ensures
            final(self).wf(),
            final(self).in_dry_run() == old(self).in_dry_run(),
            final(self).tenant_view() == old(self).tenant_view(),
            released(old(self)@, final(self)@, name@, r, old(self).in_dry_run()),
    {
        match self.find(name) {
            None => Err(RegistryError::ReleaseError {
                domain: String::from_str(name),
                reason: String::from_str(NOT_IN_REGISTRY),
            }),
            Some(i) => {
                assert(self@[i as int] == self.domains@[i as int]@);
                match self.domains[i].a_ownership {
                    Ownership::Available => Ok(()),
                    Ownership::Taken => Err(RegistryError::ReleaseError {
                        domain: String::from_str(name),
                        reason: String::from_str(OWNED_ELSEWHERE),
                    }),
                    Ownership::Owned => {
                        if !self.dry_run {
                            let marker = txt_record_string(self.tenant.as_str());
                            let res = self.provider.delete_txt_record(self.domains[i].name.clone(), marker);
                            if let Err(e) = res {
                                let reason = provider_reason(&e);
                                assert(provider_caused(reason@));
                                return Err(RegistryError::ReleaseError { domain: String::from_str(name), reason });
                            }
                        }
                        self.set_ownership(i, Ownership::Available);
                        Ok(())
                    },
                }
            },
        }
    }
}

/// Tracks the ownership of the A records of domains. A records are changed only on domains
/// the registry owns.
pub trait ARegistry {
    /// The domains the registry knows about, in registry order.
    spec fn domains_view(&self) -> Seq<DomainView>;

    /// Whether claims and releases leave the provider alone.
    spec fn is_dry_run(&self) -> bool;

    /// The tenant whose marker gives ownership.
    spec fn tenant_of(&self) -> Seq<char>;

    /// Claims and releases from now on change only the registry's own view. Fails where the
    /// registry cannot do so.
    fn enable_dry_run(&mut self) -> (r: Result<(), RegistryError>)
        ensures
            final(self).domains_view() == old(self).domains_view(),
            final(self).tenant_of() == old(self).tenant_of(),
            r is Ok ==> final(self).is_dry_run(),
            r is Err ==> final(self).is_dry_run() == old(self).is_dry_run(),
    ;

    /// Use another tenant's marker for later claims and releases.
    fn set_tenant(&mut self, tenant: String)
        ensures
            final(self).domains_view() == old(self).domains_view(),
            final(self).is_dry_run() == old(self).is_dry_run(),
            final(self).tenant_of() == tenant@,
    ;

    /// The number of domains.
    fn domain_count(&self) -> (r: usize)
        ensures
            r == self.domains_view().len(),
    ;

    /// The domain at position `i`.
    fn domain(&self, i: usize) -> (r: &Domain)
        requires
            i < self.domains_view().len(),
        ensures
            r@ == self.domains_view()[i as int],
    ;

    /// All domains, in registry order.
    fn all_domains(&self) -> (r: Vec<Domain>)
        ensures
            domain_views(r@) == self.domains_view(),
    ;

    /// The domains owned by this instance.
    fn owned_domains(&self) -> (r: Vec<Domain>)
        ensures
            domain_views(r@) == with_status(self.domains_view(), Ownership::Owned),
    ;

    /// The domains owned by someone else.
    fn taken_domains(&self) -> (r: Vec<Domain>)
        ensures
            domain_views(r@) == with_status(self.domains_view(), Ownership::Taken),
    ;

    /// The domains not owned by anyone.
    fn available_domains(&self) -> (r: Vec<Domain>)
        ensures
            domain_views(r@) == with_status(self.domains_view(), Ownership::Available),
    ;

    /// Claims the domain called `name`.
    fn claim(&mut self, name: &str) -> (r: Result<(), RegistryError>)
        requires
            domains_wf(old(self).domains_view()),
        ensures
            domains_wf(final(self).domains_view()),
            final(self).is_dry_run() == old(self).is_dry_run(),
            final(self).tenant_of() == old(self).tenant_of(),
            claimed(old(self).domains_view(), final(self).domains_view(), name@, r, old(self).is_dry_run()),
    ;

    /// Releases the domain called `name`.
    fn release(&mut self, name: &str) -> (r: Result<(), RegistryError>)
        requires
            domains_wf(old(self).domains_view()),
        ensures
            domains_wf(final(self).domains_view()),
            final(self).is_dry_run() == old(self).is_dry_run(),
            final(self).tenant_of() == old(self).tenant_of(),
            released(old(self).domains_view(), final(self).domains_view(), name@, r, old(self).is_dry_run()),
    ;
}

impl<P: DnsProvider + TxTRegistryProvider> ARegistry for TxtRegistry<P> {
    open spec fn domains_view(&self) -> Seq<DomainView> {
        self@
    }

    open spec fn is_dry_run(&self) -> bool {
        self.in_dry_run()
    }

    open spec fn tenant_of(&self) -> Seq<char> {
        self.tenant_view()
    }

    fn enable_dry_run(&mut self) -> (r: Result<(), RegistryError>) {
        TxtRegistry::enable_dry_run(self)
    }

    fn set_tenant(&mut self, tenant: String) {
        TxtRegistry::set_tenant(self, tenant)
    }

    fn domain_count(&self) -> (r: usize) {
        TxtRegistry::domain_count(self)
    }

    fn domain(&self, i: usize) -> (r: &Domain) {
        TxtRegistry::domain(self, i)
    }

    fn all_domains(&self) -> (r: Vec<Domain>) {
        TxtRegistry::all_domains(self)
    }

    fn owned_domains(&self) -> (r: Vec<Domain>) {
        TxtRegistry::owned_domains(self)
    }

    fn taken_domains(&self) -> (r: Vec<Domain>) {
        TxtRegistry::taken_domains(self)
    }

    fn available_domains(&self) -> (r: Vec<Domain>) {
        TxtRegistry::available_domains(self)
    }

    fn claim(&mut self, name: &str) -> (r: Result<(), RegistryError>) {
        TxtRegistry::claim(self, name)
    }

    fn release(&mut self, name: &str) -> (r: Result<(), RegistryError>) {
        TxtRegistry::release(self, name)
    }
}

} // verus!
