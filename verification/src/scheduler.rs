//! The tick over a registry snapshot: which probes to issue and which
//! notifications their outcomes produce.
//!
//! A tick is driven from outside: the snapshot is planned into probe
//! jobs, each job's probe runs at the network edge, and the raw outcomes
//! come back here to be classified and routed.  Every pair is handled
//! independently, so one failing link never stalls the rest, and the
//! notifications keep job order, so reports for one owner arrive in a
//! stable order.

use vstd::prelude::*;
use crate::checker::Checker;
use crate::checker::urls_view;
use crate::classifier::ProbeOutcome;
use crate::classifier::Verdict;
use crate::classifier::classify;
use crate::classifier::classify_spec;

verus! {

/// One probe to issue: an owner and one of their links.
pub struct ProbeJob {
    pub owner: u64,
    pub url: String,
}

impl View for ProbeJob {
    type V = (u64, Seq<char>);

    open spec fn view(&self) -> (u64, Seq<char>) {
        (self.owner, self.url@)
    }
}

/// One report owed to an owner: the link probed and the verdict on it.
pub struct Notification {
    pub owner: u64,
    pub url: String,
    pub verdict: Verdict,
}

impl View for Notification {
    type V = (u64, Seq<char>, Verdict);

    open spec fn view(&self) -> (u64, Seq<char>, Verdict) {
        (self.owner, self.url@, self.verdict)
    }
}

/// The denotations of a list of probe jobs, in order.
pub open spec fn jobs_view(jobs: Seq<ProbeJob>) -> Seq<(u64, Seq<char>)> {
    jobs.map_values(|j: ProbeJob| j@)
}

/// The denotations of a list of notifications, in order.
pub open spec fn notes_view(notes: Seq<Notification>) -> Seq<(u64, Seq<char>, Verdict)> {
    notes.map_values(|n: Notification| n@)
}

/// The jobs for one owner: each of their links, in order.
pub open spec fn owner_jobs(owner: u64, urls: Seq<Seq<char>>) -> Seq<(u64, Seq<char>)> {
    urls.map_values(|u: Seq<char>| (owner, u))
}

/// Every (owner, link) pair of a snapshot, owner by owner, each owner's
/// links in order.
pub open spec fn jobs_of(entries: Seq<Checker>) -> Seq<(u64, Seq<char>)>
    decreases entries.len(),
{
    if entries.len() == 0 {
        Seq::empty()
    } else {
        jobs_of(entries.drop_last()) + owner_jobs(
            entries.last().user_id,
            urls_view(entries.last().links@),
        )
    }
}

/// The notifications a tick owes, given the probed jobs and their raw
/// outcomes, position for position: exactly the pairs whose outcome does
/// not classify as silent, in job order, each carrying its verdict.
pub open spec fn notifications_of(
    jobs: Seq<(u64, Seq<char>)>,
    outcomes: Seq<ProbeOutcome>,
) -> Seq<(u64, Seq<char>, Verdict)>
    decreases jobs.len(),
{
    if jobs.len() == 0 {
        Seq::empty()
    } else {
        let prefix = notifications_of(jobs.drop_last(), outcomes.drop_last());
        let v = classify_spec(outcomes.last());
        if v == Verdict::Silent {
            prefix
        } else {
            prefix.push((jobs.last().0, jobs.last().1, v))
        }
    }
}

/// Flattens a snapshot into the probe jobs of one tick.
pub fn plan_tick(snapshot: &Vec<Checker>) -> (r: Vec<ProbeJob>)
    ensures
        jobs_view(r@) == jobs_of(snapshot@),
{
    let mut out: Vec<ProbeJob> = Vec::new();
    let mut i: usize = 0;
    proof {
        assert(snapshot@.subrange(0, 0) =~= Seq::<Checker>::empty());
        assert(jobs_view(out@) =~= jobs_of(snapshot@.subrange(0, 0)));
    }
    while i < snapshot.len()
        invariant
            i <= snapshot@.len(),
            jobs_view(out@) == jobs_of(snapshot@.subrange(0, i as int)),
        decreases snapshot@.len() - i,
    {
        let owner = snapshot[i].user_id;
        let ghost urls = urls_view(snapshot@[i as int].links@);
        let mut j: usize = 0;
        proof {
            assert(urls.subrange(0, 0) =~= Seq::<Seq<char>>::empty());
            assert(jobs_view(out@) + owner_jobs(owner, urls.subrange(0, 0)) =~= jobs_view(
                out@,
            ));
        }
        while j < snapshot[i].links.len()
            invariant
                i < snapshot@.len(),
                j <= urls.len(),
                owner == snapshot@[i as int].user_id,
                urls == urls_view(snapshot@[i as int].links@),
                urls.len() == snapshot@[i as int].links@.len(),
                jobs_view(out@) == jobs_of(snapshot@.subrange(0, i as int)) + owner_jobs(
                    owner,
                    urls.subrange(0, j as int),
                ),
            decreases urls.len() - j,
        {
            let url = snapshot[i].links[j].clone();
            out.push(ProbeJob { owner, url });
            proof {
                assert(url@ == snapshot@[i as int].links@[j as int]@);
                assert(urls[j as int] == snapshot@[i as int].links@[j as int]@);
                assert(urls.subrange(0, j as int + 1) =~= urls.subrange(0, j as int).push(
                    urls[j as int],
                ));
                assert(owner_jobs(owner, urls.subrange(0, j as int).push(urls[j as int])) =~=
                    owner_jobs(owner, urls.subrange(0, j as int)).push((owner, urls[j as int])));
                assert(jobs_view(out@) =~= (jobs_of(snapshot@.subrange(0, i as int))
                    + owner_jobs(owner, urls.subrange(0, j as int))).push((owner, urls[j as int])));
                assert(jobs_view(out@) =~= jobs_of(snapshot@.subrange(0, i as int))
                    + owner_jobs(owner, urls.subrange(0, j as int + 1)));
            }
            j = j + 1;
        }
        proof {
            assert(urls.subrange(0, urls.len() as int) =~= urls);
            assert(snapshot@.subrange(0, i as int + 1).drop_last() =~= snapshot@.subrange(
                0,
                i as int,
            ));
            assert(snapshot@.subrange(0, i as int + 1).last() == snapshot@[i as int]);
        }
        i = i + 1;
    }
    proof {
        assert(snapshot@.subrange(0, snapshot@.len() as int) =~= snapshot@);
    }
    out
}

/// Routes one probed pair: silence for a healthy link, otherwise the
/// notification owed for it.
pub fn process_outcome(owner: u64, url: String, outcome: &ProbeOutcome) -> (r: Option<
    Notification,
>)
    ensures
        classify_spec(*outcome) == Verdict::Silent <==> r is None,
        r matches Some(n) ==> n.owner == owner && n.url == url && n.verdict == classify_spec(
            *outcome,
        ),
{
    let verdict = classify(outcome);
    match verdict {
        Verdict::Silent => None,
        _ => Some(Notification { owner, url, verdict }),
    }
}

/// Turns the raw outcomes of one tick's jobs, position for position, into
/// the notifications owed: exactly the non-silent pairs, in job order.
pub fn run_tick(jobs: &Vec<ProbeJob>, outcomes: &Vec<ProbeOutcome>) -> (r: Vec<Notification>)
    requires
        jobs@.len() == outcomes@.len(),
    ensures
        notes_view(r@) == notifications_of(jobs_view(jobs@), outcomes@),
{
    let mut out: Vec<Notification> = Vec::new();
    let mut k: usize = 0;
    proof {
        assert(jobs_view(jobs@).subrange(0, 0) =~= Seq::<(u64, Seq<char>)>::empty());
        assert(notes_view(out@) =~= notifications_of(
            jobs_view(jobs@).subrange(0, 0),
            outcomes@.subrange(0, 0),
        ));
    }
    while k < jobs.len()
        invariant
            k <= jobs@.len(),
            jobs@.len() == outcomes@.len(),
            notes_view(out@) == notifications_of(
                jobs_view(jobs@).subrange(0, k as int),
                outcomes@.subrange(0, k as int),
            ),
        decreases jobs@.len() - k,
    {
        let owner = jobs[k].owner;
        let url = jobs[k].url.clone();
        let routed = process_outcome(owner, url, &outcomes[k]);
        match routed {
            Some(n) => {
                out.push(n);
            },
            None => {},
        }
        proof {
            let jv = jobs_view(jobs@);
            assert(jv.subrange(0, k as int + 1).drop_last() =~= jv.subrange(0, k as int));
            assert(outcomes@.subrange(0, k as int + 1).drop_last() =~= outcomes@.subrange(
                0,
                k as int,
            ));
            assert(jv.subrange(0, k as int + 1).last() == jv[k as int]);
            assert(outcomes@.subrange(0, k as int + 1).last() == outcomes@[k as int]);
            assert(notes_view(out@) =~= notifications_of(
                jv.subrange(0, k as int + 1),
                outcomes@.subrange(0, k as int + 1),
            ));
        }
        k = k + 1;
    }
    proof {
        assert(jobs_view(jobs@).subrange(0, jobs@.len() as int) =~= jobs_view(jobs@));
        assert(outcomes@.subrange(0, outcomes@.len() as int) =~= outcomes@);
    }
    out
}

/// No job of a snapshot belongs to an owner absent from it.
proof fn lemma_jobs_owners(entries: Seq<Checker>, owner: u64)
    requires
        forall|i: int| 0 <= i < entries.len() ==> #[trigger] entries[i].user_id != owner,
    ensures
        forall|k: int| 0 <= k < jobs_of(entries).len() ==> (#[trigger] jobs_of(entries)[k]).0
            != owner,
    decreases entries.len(),
{
    if entries.len() > 0 {
        assert forall|i: int| 0 <= i < entries.drop_last().len()
            implies #[trigger] entries.drop_last()[i].user_id != owner by {
            assert(entries[i].user_id != owner);
        }
        lemma_jobs_owners(entries.drop_last(), owner);
        assert(entries.last().user_id != owner);
        let pre = jobs_of(entries.drop_last());
        let suf = owner_jobs(entries.last().user_id, urls_view(entries.last().links@));
        assert forall|k: int| 0 <= k < jobs_of(entries).len() implies (#[trigger] jobs_of(
            entries,
        )[k]).0 != owner by {
            if k < pre.len() {
                assert(jobs_of(entries)[k] == pre[k]);
            } else {
                assert(jobs_of(entries)[k] == suf[k - pre.len()]);
                assert(suf[k - pre.len()].0 == entries.last().user_id);
            }
        }
    }
}

/// Every notification of a tick comes from one of its jobs: an owner with
/// no job receives no notification.
proof fn lemma_notifications_owners(
    jobs: Seq<(u64, Seq<char>)>,
    outcomes: Seq<ProbeOutcome>,
    owner: u64,
)
    requires
        jobs.len() == outcomes.len(),
        forall|k: int| 0 <= k < jobs.len() ==> (#[trigger] jobs[k]).0 != owner,
    ensures
        forall|k: int| 0 <= k < notifications_of(jobs, outcomes).len() ==> (
        #[trigger] notifications_of(jobs, outcomes)[k]).0 != owner,
    decreases jobs.len(),
{
    if jobs.len() > 0 {
        assert forall|k: int| 0 <= k < jobs.drop_last().len()
            implies (#[trigger] jobs.drop_last()[k]).0 != owner by {
            assert(jobs[k].0 != owner);
        }
        lemma_notifications_owners(jobs.drop_last(), outcomes.drop_last(), owner);
        assert(jobs.last().0 != owner);
        let pre = notifications_of(jobs.drop_last(), outcomes.drop_last());
        let v = classify_spec(outcomes.last());
        assert forall|k: int| 0 <= k < notifications_of(jobs, outcomes).len() implies (
        #[trigger] notifications_of(jobs, outcomes)[k]).0 != owner by {
            if v == Verdict::Silent {
                assert(notifications_of(jobs, outcomes) == pre);
                assert(pre[k].0 != owner);
            } else if k < pre.len() {
                assert(notifications_of(jobs, outcomes)[k] == pre[k]);
                assert(pre[k].0 != owner);
            } else {
                assert(notifications_of(jobs, outcomes)[k] == (jobs.last().0, jobs.last().1, v));
            }
        }
    }
}

/// A snapshot's entries denote the registry it was taken from: same
/// owners in the same order, each with the links the registry holds for
/// them.
pub open spec fn snapshot_of(snap: Seq<Checker>, r: crate::registry::WatchRegistry) -> bool {
    &&& snap.len() == r.owners().len()
    &&& forall|i: int|
        0 <= i < snap.len() ==> #[trigger] snap[i].user_id == r.owners()[i] && urls_view(
            snap[i].links@,
        ) == r.links_for(r.owners()[i])
}

/// Removed links are no longer probed or notified: after a whole-owner
/// removal, a tick over a snapshot of the registry produces no
/// notification for that owner, whatever the probes returned.
pub proof fn lemma_removed_owner_not_notified(
    pre: crate::registry::WatchRegistry,
    post: crate::registry::WatchRegistry,
    owner: u64,
    snap: Seq<Checker>,
    outcomes: Seq<ProbeOutcome>,
)
    requires
        crate::registry::owner_removed(pre, post, owner),
        snapshot_of(snap, post),
        outcomes.len() == jobs_of(snap).len(),
    ensures
        forall|k: int| 0 <= k < notifications_of(jobs_of(snap), outcomes).len() ==> (
        #[trigger] notifications_of(jobs_of(snap), outcomes)[k]).0 != owner,
{
    assert forall|i: int| 0 <= i < snap.len() implies #[trigger] snap[i].user_id != owner by {
        if snap[i].user_id == owner {
            assert(post.owners()[i] == owner);
            assert(post.has_owner(owner));
        }
    }
    lemma_jobs_owners(snap, owner);
    lemma_notifications_owners(jobs_of(snap), outcomes, owner);
}

} // verus!
