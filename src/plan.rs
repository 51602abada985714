//! Decide which record changes bring the zone to the wanted state.
use vstd::prelude::*;

use crate::net::Ipv4;
use crate::registry::{domains_wf, with_ownership, ARegistry, DomainView, Ownership};

verus! {

/// One change for one domain. An action may stand for several record operations.
#[derive(Clone, Debug, PartialEq, Eq, Hash)]
pub enum Action {
    /// The domain is not owned by anyone: claim it, then create its A record.
    ClaimAndUpdate(String, Ipv4),
    /// The domain is owned but its A records are missing or out of date: replace them.
    Update(String, Ipv4),
    /// The domain is owned but has no AAAA record any more: delete its A records, then release it.
    DeleteAndRelease(String),
}

/// The mathematical value of an [`Action`].
pub enum ActionView {
    ClaimAndUpdate(Seq<char>, Ipv4),
    Update(Seq<char>, Ipv4),
    DeleteAndRelease(Seq<char>),
}

impl View for Action {
    type V = ActionView;

    open spec fn view(&self) -> ActionView {
        match self {
            Action::ClaimAndUpdate(d, ip) => ActionView::ClaimAndUpdate(d@, *ip),
            Action::Update(d, ip) => ActionView::Update(d@, *ip),
            Action::DeleteAndRelease(d) => ActionView::DeleteAndRelease(d@),
        }
    }
}

/// The values of a sequence of actions.
pub open spec fn action_views(v: Seq<Action>) -> Seq<ActionView> {
    v.map_values(|a: Action| a@)
}

/// Which kinds of action a plan may hold.
#[derive(Clone, Copy, Debug, PartialEq, Eq, Structural, Hash)]
pub enum Policy {
    /// Only give A records to domains that have none; never change or delete existing ones.
    CreateOnly,
    /// Also replace out-of-date A records of owned domains; never delete.
    Upsert,
    /// Also delete the A records of owned domains that lost their AAAA records, and release them.
    Sync,
}

/// An ordered list of actions, generated fresh on every run.
#[derive(Clone, Debug, PartialEq, Eq, Hash)]
pub struct Plan(Vec<Action>);

impl View for Plan {
    type V = Seq<ActionView>;

    closed spec fn view(&self) -> Seq<ActionView> {
        action_views(self.0@)
    }
}

/// Whether an owned domain's A records are exactly the desired address.
pub open spec fn is_current(d: DomainView, desired: Ipv4) -> bool {
    d.a.len() == 1 && d.a[0] == desired
}

/// Whether a domain may be claimed for a new A record: nobody owns it, it has an AAAA record
/// and no A record.
pub open spec fn claimable(d: DomainView) -> bool {
    d.ownership == Ownership::Available && d.aaaa.len() > 0 && d.a.len() == 0
}

/// The actions planned for one domain; `claimed` tells whether claiming it succeeded.
pub open spec fn domain_actions(d: DomainView, claimed: bool, desired: Ipv4, policy: Policy) -> Seq<ActionView> {
    match d.ownership {
        Ownership::Owned => if d.aaaa.len() > 0 {
            if is_current(d, desired) {
                seq![]
            } else if d.a.len() == 0 || policy != Policy::CreateOnly {
                seq![ActionView::Update(d.name, desired)]
            } else {
                seq![]
            }
        } else if policy == Policy::Sync {
            seq![ActionView::DeleteAndRelease(d.name)]
        } else {
            seq![]
        },
        Ownership::Available => if claimable(d) && claimed {
            seq![ActionView::ClaimAndUpdate(d.name, desired)]
        } else {
            seq![]
        },
        Ownership::Taken => seq![],
    }
}

/// The actions planned for the first `n` domains of `old`, in order; `new` holds the domains
/// after planning, which tells which claims succeeded.
pub open spec fn planned_upto(
    old: Seq<DomainView>,
    new: Seq<DomainView>,
    n: int,
    desired: Ipv4,
    policy: Policy,
) -> Seq<ActionView>
    decreases n,
{
    if n <= 0 {
        seq![]
    } else {
        planned_upto(old, new, n - 1, desired, policy) + domain_actions(
            old[n - 1],
            new[n - 1].ownership == Ownership::Owned,
            desired,
            policy,
        )
    }
}

/// The plan for the domains `old`, where `new` are the domains after the claims made while
/// planning.
pub open spec fn planned(old: Seq<DomainView>, new: Seq<DomainView>, desired: Ipv4, policy: Policy) -> Seq<ActionView> {
    planned_upto(old, new, old.len() as int, desired, policy)
}

/// How planning changes the registry's domains: only claimable domains change, and only by
/// becoming owned.
pub open spec fn claims_only(old: Seq<DomainView>, new: Seq<DomainView>) -> bool {
    &&& new.len() == old.len()
    &&& forall|i: int|
        0 <= i < old.len() ==> #[trigger] new[i] == old[i] || (claimable(old[i]) && new[i] == with_ownership(
            old[i],
            Ownership::Owned,
        ))
}

proof fn lemma_planned_prefix(old: Seq<DomainView>, n1: Seq<DomainView>, n2: Seq<DomainView>, n: int, desired: Ipv4, policy: Policy)
    requires
        0 <= n <= old.len(),
        n <= n1.len(),
        n <= n2.len(),
        forall|j: int| 0 <= j < n ==> #[trigger] n1[j].ownership == n2[j].ownership,
    ensures
        planned_upto(old, n1, n, desired, policy) == planned_upto(old, n2, n, desired, policy),
    decreases n,
{
    if n > 0 {
        lemma_planned_prefix(old, n1, n2, n - 1, desired, policy);
    }
}

impl Plan {
    /// The actions of the plan, in order.
    pub fn actions(&self) -> (r: &Vec<Action>)
        ensures
            action_views(r@) == self@,
    {
        &self.0
    }

    /// Plans the actions that bring every domain of the registry to the desired address under
    /// the given policy.
    ///
    /// Owned domains with an AAAA record get their A records set to exactly the desired
    /// address (replacing wrong ones only under [`Policy::Upsert`] and [`Policy::Sync`]); owned
    /// domains without one lose their A records under [`Policy::Sync`]. Claimable domains are
    /// claimed on the spot, and get an A record when the claim succeeds. Domains owned by
    /// someone else are left alone.
    pub fn generate<R: ARegistry>(
        registry: &mut R,
        desired_address: Ipv4,
        policy: Policy,
    ) -> (r: Plan)
        requires
            domains_wf(old(registry).domains_view()),
        ensures
            domains_wf(final(registry).domains_view()),
            final(registry).tenant_of() == old(registry).tenant_of(),
            final(registry).is_dry_run() == old(registry).is_dry_run(),
            claims_only(old(registry).domains_view(), final(registry).domains_view()),
            old(registry).is_dry_run() ==> forall|i: int|
                0 <= i < old(registry).domains_view().len() && claimable(#[trigger] old(registry).domains_view()[i])
                    ==> final(registry).domains_view()[i].ownership == Ownership::Owned,
            r@ == planned(old(registry).domains_view(), final(registry).domains_view(), desired_address, policy),
    {
        let ghost start = registry.domains_view();
        let n = registry.domain_count();
        let mut actions: Vec<Action> = Vec::new();
        let mut i: usize = 0;
        while i < n
            invariant
                0 <= i <= n,
                n == start.len(),
                domains_wf(registry.domains_view()),
                registry.domains_view().len() == n,
                registry.tenant_of() == old(registry).tenant_of(),
                registry.is_dry_run() == old(registry).is_dry_run(),
                start == old(registry).domains_view(),
                forall|j: int| i <= j < n ==> #[trigger] registry.domains_view()[j] == start[j],
                forall|j: int|
                    0 <= j < i ==> #[trigger] registry.domains_view()[j] == start[j] || (claimable(start[j])
                        && registry.domains_view()[j] == with_ownership(start[j], Ownership::Owned)),
                registry.is_dry_run() ==> forall|j: int|
                    0 <= j < i && claimable(#[trigger] start[j]) ==> registry.domains_view()[j].ownership
                        == Ownership::Owned,
                action_views(actions@) == planned_upto(start, registry.domains_view(), i as int, desired_address, policy),
            decreases n - i,
        {
            let ghost before = registry.domains_view();
            let ghost acts = action_views(actions@);
            let d = registry.domain(i);
            let own = d.ownership();
            let has_aaaa = d.aaaa.len() > 0;
            let no_a = d.a.len() == 0;
            let current = d.a.len() == 1 && d.a[0] == desired_address;
            let name = d.name.clone();
            assert(d@ == start[i as int]);
            match own {
                Ownership::Owned => {
                    if has_aaaa {
                        if current {
                        } else if no_a || policy != Policy::CreateOnly {
                            actions.push(Action::Update(name, desired_address));
                        }
                    } else if policy == Policy::Sync {
                        actions.push(Action::DeleteAndRelease(name));
                    }
                },
                Ownership::Available => {
                    if has_aaaa && no_a {
                        let res = registry.claim(name.as_str());
                        assert(before[i as int].name == name@);
                        if res.is_ok() {
                            actions.push(Action::ClaimAndUpdate(name, desired_address));
                        }
                    }
                },
                Ownership::Taken => {},
            }
            proof {
                let after = registry.domains_view();
                assert forall|j: int| 0 <= j < i implies #[trigger] after[j].ownership == before[j].ownership by {
                    assert(before[j].name != before[i as int].name);
                }
                lemma_planned_prefix(start, before, after, i as int, desired_address, policy);
                assert(action_views(actions@) =~= acts + domain_actions(
                    start[i as int],
                    after[i as int].ownership == Ownership::Owned,
                    desired_address,
                    policy,
                ));
            }
            i = i + 1;
        }
        Plan(actions)
    }
}

/// A registry already in the desired end state gets an empty plan: every domain with an AAAA
/// record is owned and has exactly the desired address as its A record, and no domain without
/// an AAAA record is owned. This holds under every policy and whatever the claims return.
pub proof fn lemma_settled_registry_plans_nothing(
    old: Seq<DomainView>,
    new: Seq<DomainView>,
    desired: Ipv4,
    policy: Policy,
)
    requires
        new.len() == old.len(),
        forall|i: int|
            0 <= i < old.len() && (#[trigger] old[i]).aaaa.len() > 0 ==> old[i].ownership == Ownership::Owned
                && old[i].a == seq![desired],
        forall|i: int|
            0 <= i < old.len() && (#[trigger] old[i]).aaaa.len() == 0 ==> old[i].ownership != Ownership::Owned,
    ensures
        planned(old, new, desired, policy) == Seq::<ActionView>::empty(),
{
    lemma_settled_prefix(old, new, old.len() as int, desired, policy);
}

proof fn lemma_settled_prefix(old: Seq<DomainView>, new: Seq<DomainView>, n: int, desired: Ipv4, policy: Policy)
    requires
        0 <= n <= old.len(),
        new.len() == old.len(),
        forall|i: int|
            0 <= i < old.len() && (#[trigger] old[i]).aaaa.len() > 0 ==> old[i].ownership == Ownership::Owned
                && old[i].a == seq![desired],
        forall|i: int|
            0 <= i < old.len() && (#[trigger] old[i]).aaaa.len() == 0 ==> old[i].ownership != Ownership::Owned,
    ensures
        planned_upto(old, new, n, desired, policy) == Seq::<ActionView>::empty(),
    decreases n,
{
    if n > 0 {
        lemma_settled_prefix(old, new, n - 1, desired, policy);
        let d = old[n - 1];
        if d.aaaa.len() > 0 {
            assert(d.a == seq![desired]);
            assert(is_current(d, desired));
        }
        assert(domain_actions(d, new[n - 1].ownership == Ownership::Owned, desired, policy) =~= seq![]);
        assert(planned_upto(old, new, n, desired, policy) =~= Seq::<ActionView>::empty());
    }
}

/// Every action planned under `weaker` is planned under `stronger` too, when each policy is at
/// least as permissive as the other on every domain.
proof fn lemma_planned_grows(
    old: Seq<DomainView>,
    new: Seq<DomainView>,
    n: int,
    desired: Ipv4,
    weaker: Policy,
    stronger: Policy,
)
    requires
        0 <= n <= old.len(),
        n <= new.len(),
        forall|d: DomainView, c: bool, a: ActionView|
            #[trigger] domain_actions(d, c, desired, weaker).contains(a) ==> #[trigger] domain_actions(
                d,
                c,
                desired,
                stronger,
            ).contains(a),
    ensures
        forall|a: ActionView|
            #[trigger] planned_upto(old, new, n, desired, weaker).contains(a) ==> planned_upto(
                old,
                new,
                n,
                desired,
                stronger,
            ).contains(a),
    decreases n,
{
    if n > 0 {
        lemma_planned_grows(old, new, n - 1, desired, weaker, stronger);
        let pw = planned_upto(old, new, n - 1, desired, weaker);
        let ps = planned_upto(old, new, n - 1, desired, stronger);
        let c = new[n - 1].ownership == Ownership::Owned;
        let sw = domain_actions(old[n - 1], c, desired, weaker);
        let ss = domain_actions(old[n - 1], c, desired, stronger);
        assert forall|a: ActionView| #[trigger] (pw + sw).contains(a) implies (ps + ss).contains(a) by {
            let k = choose|k: int| 0 <= k < (pw + sw).len() && (pw + sw)[k] == a;
            if k < pw.len() {
                assert(pw[k] == a);
                assert(pw.contains(a));
                let m = choose|m: int| 0 <= m < ps.len() && ps[m] == a;
                assert((ps + ss)[m] == a);
            } else {
                assert(sw[k - pw.len()] == a);
                assert(sw.contains(a));
                assert(ss.contains(a));
                let m = choose|m: int| 0 <= m < ss.len() && ss[m] == a;
                assert((ps + ss)[ps.len() + m] == a);
            }
        }
    }
}

/// For the same domains, the same claim outcomes and the same desired address, every action
/// planned under [`Policy::CreateOnly`] is planned under [`Policy::Upsert`], and every action
/// planned under [`Policy::Upsert`] is planned under [`Policy::Sync`].
pub proof fn lemma_policies_are_monotone(old: Seq<DomainView>, new: Seq<DomainView>, desired: Ipv4)
    requires
        new.len() == old.len(),
    ensures
        forall|a: ActionView|
            #[trigger] planned(old, new, desired, Policy::CreateOnly).contains(a) ==> planned(
                old,
                new,
                desired,
                Policy::Upsert,
            ).contains(a),
        forall|a: ActionView|
            #[trigger] planned(old, new, desired, Policy::Upsert).contains(a) ==> planned(
                old,
                new,
                desired,
                Policy::Sync,
            ).contains(a),
{
    assert forall|d: DomainView, c: bool, a: ActionView|
        #[trigger] domain_actions(d, c, desired, Policy::CreateOnly).contains(a) implies #[trigger] domain_actions(
            d,
            c,
            desired,
            Policy::Upsert,
        ).contains(a) by {
        assert(domain_actions(d, c, desired, Policy::CreateOnly).len() > 0);
        assert(domain_actions(d, c, desired, Policy::CreateOnly) == domain_actions(d, c, desired, Policy::Upsert));
    }
    assert forall|d: DomainView, c: bool, a: ActionView|
        #[trigger] domain_actions(d, c, desired, Policy::Upsert).contains(a) implies #[trigger] domain_actions(
            d,
            c,
            desired,
            Policy::Sync,
        ).contains(a) by {
        assert(domain_actions(d, c, desired, Policy::Upsert).len() > 0);
        assert(domain_actions(d, c, desired, Policy::Upsert) == domain_actions(d, c, desired, Policy::Sync));
    }
    lemma_planned_grows(old, new, old.len() as int, desired, Policy::CreateOnly, Policy::Upsert);
    lemma_planned_grows(old, new, old.len() as int, desired, Policy::Upsert, Policy::Sync);
}

proof fn lemma_planned_keeps_non_deletes(old: Seq<DomainView>, new: Seq<DomainView>, n: int, desired: Ipv4)
    requires
        0 <= n <= old.len(),
        n <= new.len(),
    ensures
        forall|a: ActionView|
            #[trigger] planned_upto(old, new, n, desired, Policy::Sync).contains(a) && !(a is DeleteAndRelease)
                ==> planned_upto(old, new, n, desired, Policy::Upsert).contains(a),
    decreases n,
{
    if n > 0 {
        lemma_planned_keeps_non_deletes(old, new, n - 1, desired);
        let pw = planned_upto(old, new, n - 1, desired, Policy::Sync);
        let ps = planned_upto(old, new, n - 1, desired, Policy::Upsert);
        let c = new[n - 1].ownership == Ownership::Owned;
        let sw = domain_actions(old[n - 1], c, desired, Policy::Sync);
        let ss = domain_actions(old[n - 1], c, desired, Policy::Upsert);
        assert forall|a: ActionView| #[trigger] (pw + sw).contains(a) && !(a is DeleteAndRelease) implies (ps + ss).contains(a) by {
            let k = choose|k: int| 0 <= k < (pw + sw).len() && (pw + sw)[k] == a;
            if k < pw.len() {
                assert(pw[k] == a);
                assert(pw.contains(a));
                let m = choose|m: int| 0 <= m < ps.len() && ps[m] == a;
                assert((ps + ss)[m] == a);
            } else {
                assert(sw[k - pw.len()] == a);
                assert(sw.contains(a));
                assert(sw.len() > 0);
                assert(sw == ss);
                assert(ss.contains(a));
                let m = choose|m: int| 0 <= m < ss.len() && ss[m] == a;
                assert((ps + ss)[ps.len() + m] == a);
            }
        }
    }
}

/// The actions that [`Policy::Sync`] plans beyond [`Policy::Upsert`] are all deletions: for the
/// same domains, claim outcomes and desired address, every action of the Sync plan that is not
/// a delete and release is in the Upsert plan.
pub proof fn lemma_sync_adds_only_deletes(old: Seq<DomainView>, new: Seq<DomainView>, desired: Ipv4)
    requires
        new.len() == old.len(),
    ensures
        forall|a: ActionView|
            #[trigger] planned(old, new, desired, Policy::Sync).contains(a) && !(a is DeleteAndRelease)
                ==> planned(old, new, desired, Policy::Upsert).contains(a),
{
    lemma_planned_keeps_non_deletes(old, new, old.len() as int, desired);
}

/// Policy monotonicity for two planning runs over the same domains: when the claims made while
/// planning came out alike (the domains after the two runs have the same ownership), every
/// action of the [`Policy::CreateOnly`] plan is in the [`Policy::Upsert`] plan, every action of
/// the Upsert plan is in the [`Policy::Sync`] plan, and what the Sync plan adds beyond Upsert
/// are deletions.
pub proof fn lemma_policies_are_monotone_across_runs(
    old: Seq<DomainView>,
    new1: Seq<DomainView>,
    new2: Seq<DomainView>,
    desired: Ipv4,
)
    requires
        new1.len() == old.len(),
        new2.len() == old.len(),
        forall|i: int| 0 <= i < old.len() ==> #[trigger] new1[i].ownership == new2[i].ownership,
    ensures
        forall|a: ActionView|
            #[trigger] planned(old, new1, desired, Policy::CreateOnly).contains(a) ==> planned(
                old,
                new2,
                desired,
                Policy::Upsert,
            ).contains(a),
        forall|a: ActionView|
            #[trigger] planned(old, new1, desired, Policy::Upsert).contains(a) ==> planned(
                old,
                new2,
                desired,
                Policy::Sync,
            ).contains(a),
        forall|a: ActionView|
            #[trigger] planned(old, new2, desired, Policy::Sync).contains(a) && !(a is DeleteAndRelease)
                ==> planned(old, new1, desired, Policy::Upsert).contains(a),
{
    let n = old.len() as int;
    lemma_planned_prefix(old, new1, new2, n, desired, Policy::CreateOnly);
    lemma_planned_prefix(old, new1, new2, n, desired, Policy::Upsert);
    lemma_planned_prefix(old, new1, new2, n, desired, Policy::Sync);
    assert(planned(old, new1, desired, Policy::CreateOnly) == planned(old, new2, desired, Policy::CreateOnly));
    assert(planned(old, new1, desired, Policy::Upsert) == planned(old, new2, desired, Policy::Upsert));
    assert(planned(old, new1, desired, Policy::Sync) == planned(old, new2, desired, Policy::Sync));
    lemma_policies_are_monotone(old, new2, desired);
    lemma_sync_adds_only_deletes(old, new1, desired);
}

} // verus!
