//! Laws of the ledger that relate several operations: what a resubmission
//! of an existing tag does, and that repository averages stay exactly the
//! floor of their running sum over their count under any sequence of
//! submissions.

use vstd::prelude::*;

use crate::atom::AtomView;
use crate::atom::valid_atom;
use crate::engine::VortexView;
use crate::engine::repo_before;
use crate::engine::repo_step;
use crate::engine::submit_step;
use crate::engine::trail_of;
use crate::engine::wf;
use crate::state::RepoStateView;
use crate::store::has_key;
use crate::store::idx_of;
use crate::store::lemma_lookup_props;
use crate::store::lemma_upsert;
use crate::store::lookup;

verus! {

/// Resubmitting a tag that is already stored overwrites the stored record
/// in place — the record store does not grow — while the contributor's
/// trail still gains one more entry for that tag: storage is idempotent,
/// the trail is not.
pub proof fn lemma_resubmission(v: VortexView, a: AtomView, now: Seq<char>)
    requires
        wf(v),
        valid_atom(a),
        has_key(v.atoms, a.atom_tag),
    ensures
        submit_step(v, a, now).atoms.len() == v.atoms.len(),
        lookup(submit_step(v, a, now).atoms, a.atom_tag) == a,
        trail_of(submit_step(v, a, now), a.contributor) == trail_of(v, a.contributor).push(
            a.atom_tag,
        ),
{
    lemma_upsert(v.atoms, a.atom_tag, a);
    lemma_upsert(v.trails, a.contributor, trail_of(v, a.contributor).push(a.atom_tag));
}

/// The cumulative snap-in counter counts exactly the submissions whose
/// score met or exceeded the threshold at submission time, so it never
/// decreases. It is distinct from the point-in-time question whether the
/// current global average lies above the threshold.
pub proof fn lemma_snap_in_counter(v: VortexView, a: AtomView, now: Seq<char>)
    ensures
        submit_step(v, a, now).global.snap_in_count == v.global.snap_in_count + if a.coherence_score
            >= v.threshold {
            1 as int
        } else {
            0 as int
        },
        submit_step(v, a, now).global.snap_in_count >= v.global.snap_in_count,
{
}

/// Every repository aggregate shows the floor of its exact score sum over
/// its record count.
pub open spec fn repo_averages_exact(repos: Seq<(Seq<char>, RepoStateView)>) -> bool {
    forall|i: int|
        0 <= i < repos.len() ==> (#[trigger] repos[i]).1.average_coherence
            == repos[i].1.total_coherence / repos[i].1.atom_count
}

/// A freshly constructed ledger has no repository aggregates, so they are
/// exact.
pub proof fn lemma_initial_exact(owner: Seq<char>, now: Seq<char>)
    ensures
        repo_averages_exact(crate::engine::initial_state(owner, now).repos),
{
}

/// One submission always leaves the submitted-to repository exact and
/// every exact ledger exact: with `lemma_initial_exact` as the base, under
/// any sequence of submissions every repository average equals the floor
/// of its exact running sum over its count.
pub proof fn lemma_repo_average_exact(v: VortexView, a: AtomView, now: Seq<char>)
    requires
        wf(v),
        valid_atom(a),
    ensures
        has_key(submit_step(v, a, now).repos, a.repo),
        ({
            let st = lookup(submit_step(v, a, now).repos, a.repo);
            st.average_coherence == st.total_coherence / st.atom_count
        }),
        repo_averages_exact(v.repos) ==> repo_averages_exact(submit_step(v, a, now).repos),
{
    let stepped = repo_step(repo_before(v, a.repo), a, v.threshold);
    lemma_upsert(v.repos, a.repo, stepped);
    let r2 = submit_step(v, a, now).repos;
    if repo_averages_exact(v.repos) {
        assert forall|i: int| 0 <= i < r2.len() implies (#[trigger] r2[i]).1.average_coherence
            == r2[i].1.total_coherence / r2[i].1.atom_count by {
            if has_key(v.repos, a.repo) {
                let j = idx_of(v.repos, a.repo);
                lemma_lookup_props(v.repos, a.repo);
                if i != j {
                    assert(r2[i] == v.repos[i]);
                }
            } else {
                if i < v.repos.len() {
                    assert(r2[i] == v.repos[i]);
                }
            }
        }
    }
}

} // verus!
