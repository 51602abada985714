//! Applies a plan through a provider and a registry.
use vstd::prelude::*;

use crate::ipv4source::{Ipv4Source, SourceError};
use crate::net::Ipv4;
use crate::plan::{action_views, claims_only, planned, Action, ActionView, Plan, Policy};
use crate::provider::{DnsProvider, ProviderError};
use crate::registry::{claimed, domains_wf, released, ARegistry, DomainView, RegistryError};

verus! {

/// A failure of one of the collaborators of an executor.
#[derive(Clone, Debug, PartialEq, Eq)]
pub enum ExecutorError {
    Provider(ProviderError),
    Registry(RegistryError),
    Source(SourceError),
}

impl From<ProviderError> for ExecutorError {
    fn from(e: ProviderError) -> (r: ExecutorError) {
        ExecutorError::Provider(e)
    }
}

impl vstd::std_specs::convert::FromSpecImpl<ProviderError> for ExecutorError {
    open spec fn obeys_from_spec() -> bool {
        true
    }

    open spec fn from_spec(v: ProviderError) -> ExecutorError {
        ExecutorError::Provider(v)
    }
}

impl From<RegistryError> for ExecutorError {
    fn from(e: RegistryError) -> (r: ExecutorError) {
        ExecutorError::Registry(e)
    }
}

impl vstd::std_specs::convert::FromSpecImpl<RegistryError> for ExecutorError {
    open spec fn obeys_from_spec() -> bool {
        true
    }

    open spec fn from_spec(v: RegistryError) -> ExecutorError {
        ExecutorError::Registry(v)
    }
}

impl From<SourceError> for ExecutorError {
    fn from(e: SourceError) -> (r: ExecutorError) {
        ExecutorError::Source(e)
    }
}

impl vstd::std_specs::convert::FromSpecImpl<SourceError> for ExecutorError {
    open spec fn obeys_from_spec() -> bool {
        true
    }

    open spec fn from_spec(v: SourceError) -> ExecutorError {
        ExecutorError::Source(v)
    }
}

/// The outcome of one run: the actions that were applied, and those that failed with why.
/// A delete whose record deletion failed but whose release succeeded is listed in both.
#[derive(Clone, Debug, PartialEq, Eq)]
pub struct RunResult {
    pub successes: Vec<Action>,
    pub failures: Vec<(Action, ExecutorError)>,
}

/// The actions and errors of a list of failures.
pub open spec fn failure_views(f: Seq<(Action, ExecutorError)>) -> Seq<(ActionView, ExecutorError)> {
    f.map_values(|p: (Action, ExecutorError)| (p.0@, p.1))
}

/// What the two steps of applying an action returned. For a claim and update these are the
/// claim and the record write; for an update only `first`, the record write, matters; for a
/// delete and release they are the record deletion and the release.
pub struct StepOutcome {
    pub first: Result<(), ExecutorError>,
    pub second: Result<(), ExecutorError>,
}

/// A registry result as the executor reports it.
pub open spec fn as_registry(reg: Result<(), RegistryError>) -> Result<(), ExecutorError> {
    match reg {
        Ok(_) => Ok(()),
        Err(e) => Err(ExecutorError::Registry(e)),
    }
}

/// Whether a step result is a provider's: a failure is a provider error.
pub open spec fn from_provider_call(x: Result<(), ExecutorError>) -> bool {
    x is Err ==> x->Err_0 is Provider
}

/// The failure listed for a step result, if it failed.
pub open spec fn failure_of(a: ActionView, x: Result<(), ExecutorError>) -> Seq<(ActionView, ExecutorError)> {
    match x {
        Ok(_) => seq![],
        Err(e) => seq![(a, e)],
    }
}

/// The actions listed as successes after applying `a` with outcome `o`.
pub open spec fn step_successes(a: ActionView, o: StepOutcome) -> Seq<ActionView> {
    match a {
        ActionView::ClaimAndUpdate(_, _) => if o.first is Ok && o.second is Ok { seq![a] } else { seq![] },
        ActionView::Update(_, _) => if o.first is Ok { seq![a] } else { seq![] },
        ActionView::DeleteAndRelease(_) => if o.second is Ok { seq![a] } else { seq![] },
    }
}

/// The failures listed after applying `a` with outcome `o`.
pub open spec fn step_failures(a: ActionView, o: StepOutcome) -> Seq<(ActionView, ExecutorError)> {
    match a {
        ActionView::ClaimAndUpdate(_, _) => if o.first is Err {
            failure_of(a, o.first)
        } else {
            failure_of(a, o.second)
        },
        ActionView::Update(_, _) => failure_of(a, o.first),
        ActionView::DeleteAndRelease(_) => failure_of(a, o.first) + failure_of(a, o.second),
    }
}

/// The successes listed after applying the actions `p` with outcomes `outs`, in order.
pub open spec fn successes_of(p: Seq<ActionView>, outs: Seq<StepOutcome>) -> Seq<ActionView>
    decreases p.len(),
{
    if p.len() == 0 || outs.len() == 0 {
        seq![]
    } else {
        successes_of(p.drop_last(), outs.drop_last()) + step_successes(p.last(), outs.last())
    }
}

/// The failures listed after applying the actions `p` with outcomes `outs`, in order.
pub open spec fn failures_of(p: Seq<ActionView>, outs: Seq<StepOutcome>) -> Seq<(ActionView, ExecutorError)>
    decreases p.len(),
{
    if p.len() == 0 || outs.len() == 0 {
        seq![]
    } else {
        failures_of(p.drop_last(), outs.drop_last()) + step_failures(p.last(), outs.last())
    }
}

/// Whether `res` is what applying the plan for the domains `old` gives: `mid` are the
/// domains after planning, `addr` the target address and `outs` the outcome of each action.
pub open spec fn run_reports(
    old: Seq<DomainView>,
    mid: Seq<DomainView>,
    addr: Ipv4,
    policy: Policy,
    outs: Seq<StepOutcome>,
    res: RunResult,
) -> bool {
    let p = planned(old, mid, addr, policy);
    &&& claims_only(old, mid)
    &&& outs.len() == p.len()
    &&& action_views(res.successes@) == successes_of(p, outs)
    &&& failure_views(res.failures@) == failures_of(p, outs)
}

/// How one action changes the registry: `before` and `after` are the domains around the
/// action, `reg` the result of its claim or release. A claim and update's claim gives `first`,
/// a delete and release's release gives `second`; the other step results are the provider's.
/// An update leaves the registry alone.
pub open spec fn step_registry(
    a: ActionView,
    o: StepOutcome,
    before: Seq<DomainView>,
    after: Seq<DomainView>,
    reg: Result<(), RegistryError>,
    dry_run: bool,
) -> bool {
    match a {
        ActionView::ClaimAndUpdate(n, _) => claimed(before, after, n, reg, dry_run) && o.first == as_registry(reg)
            && from_provider_call(o.second),
        ActionView::Update(_, _) => after == before && from_provider_call(o.first),
        ActionView::DeleteAndRelease(n) => released(before, after, n, reg, dry_run) && o.second == as_registry(reg)
            && from_provider_call(o.first),
    }
}

/// The registry goes through `views` while the actions `p` are applied with outcomes `outs`
/// and registry results `regs`.
pub open spec fn registry_steps(
    p: Seq<ActionView>,
    outs: Seq<StepOutcome>,
    views: Seq<Seq<DomainView>>,
    regs: Seq<Result<(), RegistryError>>,
    dry_run: bool,
) -> bool {
    &&& outs.len() == p.len()
    &&& regs.len() == p.len()
    &&& views.len() == p.len() + 1
    &&& forall|k: int|
        0 <= k < p.len() ==> #[trigger] step_registry(p[k], outs[k], views[k], views[k + 1], regs[k], dry_run)
}

/// One way of applying the plan for `old` that ends with the domains `fin` and the report `res`:
/// planning leaves `mid`, and each action's claim, release and record change give `outs`,
/// `views` and `regs`.
pub open spec fn plan_steps(
    old: Seq<DomainView>,
    mid: Seq<DomainView>,
    fin: Seq<DomainView>,
    addr: Ipv4,
    policy: Policy,
    dry_run: bool,
    outs: Seq<StepOutcome>,
    views: Seq<Seq<DomainView>>,
    regs: Seq<Result<(), RegistryError>>,
    res: RunResult,
) -> bool {
    &&& run_reports(old, mid, addr, policy, outs, res)
    &&& registry_steps(planned(old, mid, addr, policy), outs, views, regs, dry_run)
    &&& views[0] == mid
    &&& views.last() == fin
}

/// Whether applying the plan for the domains `old`, the address `addr` and `policy` can end with
/// the domains `fin` and the report `res`.
pub open spec fn plan_applied(
    old: Seq<DomainView>,
    fin: Seq<DomainView>,
    addr: Ipv4,
    policy: Policy,
    dry_run: bool,
    res: RunResult,
) -> bool {
    exists|mid: Seq<DomainView>, outs: Seq<StepOutcome>, views: Seq<Seq<DomainView>>, regs: Seq<Result<(), RegistryError>>|
        #[trigger] plan_steps(old, mid, fin, addr, policy, dry_run, outs, views, regs, res)
}

/// Whether `res` and `fin` are what [`Executor::apply_plan_for`] gives for the address the
/// source returned.
pub open spec fn applied_for_some_address(
    old: Seq<DomainView>,
    fin: Seq<DomainView>,
    policy: Policy,
    dry_run: bool,
    res: RunResult,
) -> bool {
    exists|addr: Ipv4| #[trigger] plan_applied(old, fin, addr, policy, dry_run, res)
}

fn copy_action(a: &Action) -> (r: Action)
    ensures
        r@ == a@,
{
    match a {
        Action::ClaimAndUpdate(d, ip) => Action::ClaimAndUpdate(d.clone(), *ip),
        Action::Update(d, ip) => Action::Update(d.clone(), *ip),
        Action::DeleteAndRelease(d) => Action::DeleteAndRelease(d.clone()),
    }
}

/// Performs the complete set of actions that brings the records up to date.
pub struct Executor<S, P, R> {
    source: S,
    provider: P,
    registry: R,
    policy: Policy,
}

impl<S: Ipv4Source, P: DnsProvider, R: ARegistry> Executor<S, P, R> {
    /// The domains of the executor's registry.
    pub closed spec fn registry_view(&self) -> Seq<DomainView> {
        self.registry.domains_view()
    }

    /// Whether the registry only pretends to claim and release.
    pub closed spec fn registry_dry_run(&self) -> bool {
        self.registry.is_dry_run()
    }

    /// The policy plans are made under.
    pub closed spec fn policy_view(&self) -> Policy {
        self.policy
    }

    /// The registry is well formed.
    pub closed spec fn wf(&self) -> bool {
        domains_wf(self.registry.domains_view())
    }

    /// An executor over the given collaborators. With `dry_run`, the provider and then the
    /// registry are told to only pretend; a provider that cannot do so makes this fail.
    pub fn try_new(
        source: S,
        provider: P,
        registry: R,
        policy: Policy,
        dry_run: bool,
    ) -> (r: Result<Self, ExecutorError>)
        requires
            domains_wf(registry.domains_view()),
        ensures
            match r {
                Ok(e) => e.wf() && e.registry_view() == registry.domains_view() && e.policy_view() == policy
                    && (dry_run ==> e.registry_dry_run()) && (!dry_run ==> e.registry_dry_run()
                    == registry.is_dry_run()),
                Err(e) => dry_run && (e is Provider || e is Registry),
            },
    {
        let mut provider = provider;
        let mut registry = registry;
        if dry_run {
            if let Err(e) = provider.enable_dry_run() {
                return Err(ExecutorError::Provider(e));
            }
            if let Err(e) = registry.enable_dry_run() {
                return Err(ExecutorError::Registry(e));
            }
        }
        Ok(Executor { source, provider, registry, policy })
    }

    /// Plans for the target address `addr` and applies every action of the plan in order,
    /// collecting what succeeded and what failed.
    ///
    /// A claim and update is claimed again (the registry may have changed), and written only
    /// if that claim succeeds. An update is written. A delete and release is deleted, then
    /// released whether or not the deletion succeeded.
    pub fn apply_plan_for(&mut self, addr: Ipv4) -> (r: RunResult)
        requires
            old(self).wf(),
        ensures
            final(self).wf(),
            final(self).policy_view() == old(self).policy_view(),
            final(self).registry_dry_run() == old(self).registry_dry_run(),
            plan_applied(
                old(self).registry_view(),
                final(self).registry_view(),
                addr,
                old(self).policy_view(),
                old(self).registry_dry_run(),
                r,
            ),
    {
        let ghost start = self.registry.domains_view();
        let ghost dry = self.registry.is_dry_run();
        let plan = Plan::generate(&mut self.registry, addr, self.policy);
        let ghost mid = self.registry.domains_view();
        let ghost p = planned(start, mid, addr, self.policy);
        let actions = plan.actions();
        let mut successes: Vec<Action> = Vec::new();
        let mut failures: Vec<(Action, ExecutorError)> = Vec::new();
        let ghost mut outs: Seq<StepOutcome> = Seq::empty();
        let ghost mut views: Seq<Seq<DomainView>> = seq![mid];
        let ghost mut regs: Seq<Result<(), RegistryError>> = Seq::empty();
        let mut i: usize = 0;
        while i < actions.len()
            invariant
                0 <= i <= actions.len(),
                action_views(actions@) == p,
                domains_wf(self.registry.domains_view()),
                self.registry.is_dry_run() == dry,
                self.policy == old(self).policy,
                outs.len() == i,
                regs.len() == i,
                views.len() == i + 1,
                views[0] == mid,
                views[i as int] == self.registry.domains_view(),
                forall|k: int|
                    0 <= k < i ==> #[trigger] step_registry(p[k], outs[k], views[k], views[k + 1], regs[k], dry),
                action_views(successes@) == successes_of(p.subrange(0, i as int), outs),
                failure_views(failures@) == failures_of(p.subrange(0, i as int), outs),
            decreases actions.len() - i,
        {
            let action = &actions[i];
            assert(action@ == p[i as int]);
            let ghost s0 = action_views(successes@);
            let ghost f0 = failure_views(failures@);
            let ghost before = self.registry.domains_view();
            let ghost o: StepOutcome;
            let ghost reg: Result<(), RegistryError> = Ok(());
            match action {
                Action::ClaimAndUpdate(domain, _) => {
                    let claim = self.registry.claim(domain.as_str());
                    proof { reg = claim; }
                    match claim {
                        Err(e) => {
                            let err = ExecutorError::Registry(e);
                            proof { o = StepOutcome { first: Err(err), second: Ok(()) }; }
                            failures.push((copy_action(action), err));
                        },
                        Ok(_) => match self.provider.apply(action) {
                            Ok(_) => {
                                successes.push(copy_action(action));
                                proof { o = StepOutcome { first: Ok(()), second: Ok(()) }; }
                            },
                            Err(e) => {
                                let err = ExecutorError::Provider(e);
                                proof { o = StepOutcome { first: Ok(()), second: Err(err) }; }
                                failures.push((copy_action(action), err));
                            },
                        },
                    }
                },
                Action::Update(_, _) => match self.provider.apply(action) {
                    Ok(_) => {
                        successes.push(copy_action(action));
                        proof { o = StepOutcome { first: Ok(()), second: Ok(()) }; }
                    },
                    Err(e) => {
                        let err = ExecutorError::Provider(e);
                        proof { o = StepOutcome { first: Err(err), second: Ok(()) }; }
                        failures.push((copy_action(action), err));
                    },
                },
                Action::DeleteAndRelease(domain) => {
                    let ghost first: Result<(), ExecutorError> = Ok(());
                    match self.provider.apply(action) {
                        Ok(_) => {},
                        Err(e) => {
                            let err = ExecutorError::Provider(e);
                            proof { first = Err(err); }
                            failures.push((copy_action(action), err));
                        },
                    }
                    let release = self.registry.release(domain.as_str());
                    proof { reg = release; }
                    match release {
                        Ok(_) => {
                            successes.push(copy_action(action));
                            proof { o = StepOutcome { first: first, second: Ok(()) }; }
                        },
                        Err(e) => {
                            let err = ExecutorError::Registry(e);
                            proof { o = StepOutcome { first: first, second: Err(err) }; }
                            failures.push((copy_action(action), err));
                        },
                    }
                },
            }
            proof {
                assert(step_registry(p[i as int], o, before, self.registry.domains_view(), reg, dry));
                let sub = p.subrange(0, i + 1);
                assert(sub.drop_last() =~= p.subrange(0, i as int));
                assert(sub.last() == p[i as int]);
                let outs2 = outs.push(o);
                assert(outs2.drop_last() =~= outs);
                assert(outs2.last() == o);
                assert(action_views(successes@) =~= s0 + step_successes(p[i as int], o));
                assert(failure_views(failures@) =~= f0 + step_failures(p[i as int], o));
                let views2 = views.push(self.registry.domains_view());
                let regs2 = regs.push(reg);
                assert forall|k: int| 0 <= k < i + 1 implies #[trigger] step_registry(
                    p[k],
                    outs2[k],
                    views2[k],
                    views2[k + 1],
                    regs2[k],
                    dry,
                ) by {
                    if k < i {
                        assert(step_registry(p[k], outs[k], views[k], views[k + 1], regs[k], dry));
                    }
                }
                outs = outs2;
                views = views2;
                regs = regs2;
            }
            i = i + 1;
        }
        let res = RunResult { successes, failures };
        proof {
            assert(p.subrange(0, i as int) =~= p);
            assert(run_reports(start, mid, addr, self.policy, outs, res));
            assert(registry_steps(p, outs, views, regs, dry));
            assert(plan_steps(start, mid, self.registry.domains_view(), addr, self.policy, dry, outs, views, regs, res));
        }
        res
    }

    /// Gets the target address from the source and applies the plan for it. A failing source
    /// fails the run with its error, before anything is planned; otherwise the run succeeds,
    /// whatever happens to the single actions.
    pub fn run(&mut self) -> (r: Result<RunResult, ExecutorError>)
        requires
            old(self).wf(),
        ensures
            final(self).wf(),
            final(self).policy_view() == old(self).policy_view(),
            r is Err ==> r->Err_0 is Source && final(self).registry_view() == old(self).registry_view(),
            r is Ok ==> applied_for_some_address(
                old(self).registry_view(),
                final(self).registry_view(),
                old(self).policy_view(),
                old(self).registry_dry_run(),
                r->Ok_0,
            ),
    {
        match self.source.addr() {
            Ok(a) => {
                let res = self.apply_plan_for(a);
                assert(applied_for_some_address(
                    old(self).registry_view(),
                    self.registry_view(),
                    old(self).policy_view(),
                    old(self).registry_dry_run(),
                    res,
                ));
                Ok(res)
            },
            Err(e) => Err(ExecutorError::Source(e)),
        }
    }
}

} // verus!
