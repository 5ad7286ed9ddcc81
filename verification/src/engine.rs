//! The ledger engine: record ingestion with validation, the two
//! incremental-average algorithms, the secondary indices, governance, and
//! the snap-in detector. The host environment supplies caller identity,
//! timestamps and the call-sequence marker as plain arguments; the engine
//! is a bounded, synchronous state transition on its own state.

use vstd::prelude::*;

use crate::atom::ATOMOnChain;
use crate::atom::AtomView;
use crate::atom::valid_atom;
use crate::atom::atom_views;
use crate::receipt::make_receipt;
use crate::receipt::receipt_seq;
use crate::state::RepoState;
use crate::state::RepoStateView;
use crate::state::VortexError;
use crate::state::VortexState;
use crate::state::VortexStateView;
use crate::store::find_entry;
use crate::store::has_key;
use crate::store::idx_of;
use crate::store::lemma_lookup_at;
use crate::store::lemma_lookup_props;
use crate::store::lemma_upsert;
use crate::store::lookup;
use crate::store::unique_keys;
use crate::store::upsert;

verus! {

/// The most records the ledger accepts: enough headroom that every sum
/// and product in the two average computations fits in a `u64`
/// (101 times this value stays below `u64::MAX`).
pub const MAX_RECORDS: u64 = 184467440737095515;

/// The mathematical value of the whole ledger.
#[verifier::ext_equal]
pub struct VortexView {
    /// Record store: tag to record, keys unique, insertion order kept.
    pub atoms: Seq<(Seq<char>, AtomView)>,
    /// Repository aggregate index: repository name to aggregate.
    pub repos: Seq<(Seq<char>, RepoStateView)>,
    /// Contributor trail index: contributor to the tags it submitted,
    /// in submission order, duplicates kept.
    pub trails: Seq<(Seq<char>, Seq<Seq<char>>)>,
    /// Global ecosystem aggregate.
    pub global: VortexStateView,
    /// Governance: the one identity allowed privileged mutations.
    pub owner: Seq<char>,
    /// Scores at or above this value count as snap-in events.
    pub threshold: int,
}

/// The ledger engine.
pub struct SpiralSafeVortex {
    atoms: Vec<(String, ATOMOnChain)>,
    repos: Vec<(String, RepoState)>,
    contributor_atoms: Vec<(String, Vec<String>)>,
    vortex_state: VortexState,
    owner: String,
    snap_in_threshold: u8,
}

impl View for SpiralSafeVortex {
    type V = VortexView;

    closed spec fn view(&self) -> VortexView {
        VortexView {
            atoms: Seq::new(
                self.atoms@.len(),
                |i: int| (self.atoms@[i].0@, self.atoms@[i].1@),
            ),
            repos: Seq::new(
                self.repos@.len(),
                |i: int| (self.repos@[i].0@, self.repos@[i].1@),
            ),
            trails: Seq::new(
                self.contributor_atoms@.len(),
                |i: int| (self.contributor_atoms@[i].0@, self.contributor_atoms@[i].1.deep_view()),
            ),
            global: self.vortex_state@,
            owner: self.owner@,
            threshold: self.snap_in_threshold as int,
        }
    }
}

/// The record store is well formed: unique tags, each entry keyed by its
/// record's own tag, every stored record valid.
pub open spec fn atoms_wf(atoms: Seq<(Seq<char>, AtomView)>) -> bool {
    &&& unique_keys(atoms)
    &&& forall|i: int|
        0 <= i < atoms.len() ==> (#[trigger] atoms[i]).1.atom_tag == atoms[i].0 && valid_atom(
            atoms[i].1,
        )
}

/// The repository index is well formed: unique names, each aggregate keyed
/// by its own repository name, counts at least one and bounded by the
/// global record count, sums exact for scores of at most 100, the stored
/// average a `u8`.
pub open spec fn repos_wf(repos: Seq<(Seq<char>, RepoStateView)>, total: int) -> bool {
    &&& unique_keys(repos)
    &&& forall|i: int|
        0 <= i < repos.len() ==> {
            let e = #[trigger] repos[i];
            &&& e.1.repo == e.0
            &&& 1 <= e.1.atom_count <= total
            &&& 0 <= e.1.total_coherence <= 100 * e.1.atom_count
            &&& 0 <= e.1.average_coherence <= 255
        }
}

/// The trail index is well formed: unique contributors, no trail longer
/// than the global record count.
pub open spec fn trails_wf(trails: Seq<(Seq<char>, Seq<Seq<char>>)>, total: int) -> bool {
    &&& unique_keys(trails)
    &&& forall|i: int| 0 <= i < trails.len() ==> (#[trigger] trails[i]).1.len() <= total
}

/// The global aggregate is well formed: the average in 0..=100, the
/// snap-in counter at most the record count, the record count capped.
pub open spec fn global_wf(g: VortexStateView) -> bool {
    &&& 0 <= g.average_coherence <= 100
    &&& 0 <= g.snap_in_count <= g.total_atoms
    &&& 0 <= g.total_atoms <= MAX_RECORDS as int
}

/// The whole ledger is well formed.
pub open spec fn wf(v: VortexView) -> bool {
    &&& atoms_wf(v.atoms)
    &&& repos_wf(v.repos, v.global.total_atoms)
    &&& trails_wf(v.trails, v.global.total_atoms)
    &&& global_wf(v.global)
    &&& 0 <= v.threshold <= 100
}

/// The repository aggregate after one accepted record: count and exact sum
/// grow, the average is recomputed by floor division from the exact sum,
/// and a snap-in overwrites the last snap-in timestamp.
pub open spec fn repo_step(prev: RepoStateView, a: AtomView, threshold: int) -> RepoStateView {
    RepoStateView {
        repo: a.repo,
        atom_count: prev.atom_count + 1,
        total_coherence: prev.total_coherence + a.coherence_score,
        average_coherence: (prev.total_coherence + a.coherence_score) / (prev.atom_count + 1),
        last_snap_in: if a.coherence_score >= threshold {
            Some(a.timestamp)
        } else {
            prev.last_snap_in
        },
    }
}

/// The repository aggregate a record meets: the stored one, or a fresh
/// zero aggregate on first contact.
pub open spec fn repo_before(v: VortexView, repo: Seq<char>) -> RepoStateView {
    if has_key(v.repos, repo) {
        lookup(v.repos, repo)
    } else {
        RepoStateView {
            repo: repo,
            atom_count: 0,
            total_coherence: 0,
            average_coherence: 0,
            last_snap_in: None,
        }
    }
}

/// The trail a contributor has so far, empty before the first record.
pub open spec fn trail_of(v: VortexView, contributor: Seq<char>) -> Seq<Seq<char>> {
    if has_key(v.trails, contributor) {
        lookup(v.trails, contributor)
    } else {
        Seq::empty()
    }
}

/// The global aggregate after one accepted record. The previous total is
/// reconstructed from the previously *rounded* average, so repeated
/// updates may drift from an exact-sum recomputation; that behaviour is
/// kept deliberately.
pub open spec fn global_step(g: VortexStateView, a: AtomView, threshold: int, now: Seq<char>) -> VortexStateView {
    VortexStateView {
        total_atoms: g.total_atoms + 1,
        average_coherence: (g.total_atoms * g.average_coherence + a.coherence_score) / (
        g.total_atoms + 1),
        snap_in_count: g.snap_in_count + if a.coherence_score >= threshold {
            1 as int
        } else {
            0 as int
        },
        last_update: now,
    }
}

/// The whole ledger after one accepted record: the record stored under
/// its tag (replacing any prior record there), the repository aggregate
/// stepped, the tag appended to the contributor's trail, the global
/// aggregate stepped; governance unchanged.
pub open spec fn submit_step(v: VortexView, a: AtomView, now: Seq<char>) -> VortexView {
    VortexView {
        atoms: upsert(v.atoms, a.atom_tag, a),
        repos: upsert(v.repos, a.repo, repo_step(repo_before(v, a.repo), a, v.threshold)),
        trails: upsert(v.trails, a.contributor, trail_of(v, a.contributor).push(a.atom_tag)),
        global: global_step(v.global, a, v.threshold, now),
        owner: v.owner,
        threshold: v.threshold,
    }
}

/// The ledger after a whole sequence of accepted records, applied in
/// input order.
pub open spec fn submit_all(v: VortexView, s: Seq<AtomView>, now: Seq<char>) -> VortexView
    decreases s.len(),
{
    if s.len() == 0 {
        v
    } else {
        submit_step(submit_all(v, s.drop_last(), now), s.last(), now)
    }
}

/// Every record of the sequence is valid.
pub open spec fn all_valid(s: Seq<AtomView>) -> bool {
    forall|i: int| 0 <= i < s.len() ==> valid_atom(#[trigger] s[i])
}

/// The ledger as construction leaves it: empty stores, zeroed global
/// aggregate, threshold 70.
pub open spec fn initial_state(owner: Seq<char>, now: Seq<char>) -> VortexView {
    VortexView {
        atoms: Seq::empty(),
        repos: Seq::empty(),
        trails: Seq::empty(),
        global: VortexStateView {
            total_atoms: 0,
            average_coherence: 0,
            snap_in_count: 0,
            last_update: now,
        },
        owner: owner,
        threshold: 70,
    }
}

/// One accepted record keeps the ledger well formed.
pub proof fn lemma_submit_step_wf(v: VortexView, a: AtomView, now: Seq<char>)
    requires
        wf(v),
        valid_atom(a),
        v.global.total_atoms < MAX_RECORDS as int,
    ensures
        wf(submit_step(v, a, now)),
{
    let v2 = submit_step(v, a, now);
    let total2 = v.global.total_atoms + 1;
    lemma_upsert(v.atoms, a.atom_tag, a);
    assert forall|i: int|
        0 <= i < v2.atoms.len() implies (#[trigger] v2.atoms[i]).1.atom_tag == v2.atoms[i].0
        && valid_atom(v2.atoms[i].1) by {
        if has_key(v.atoms, a.atom_tag) {
            let j = idx_of(v.atoms, a.atom_tag);
            lemma_lookup_props(v.atoms, a.atom_tag);
            if i != j {
                assert(v2.atoms[i] == v.atoms[i]);
            }
        } else {
            if i < v.atoms.len() {
                assert(v2.atoms[i] == v.atoms[i]);
            }
        }
    }

    let prev = repo_before(v, a.repo);
    let stepped = repo_step(prev, a, v.threshold);
    if has_key(v.repos, a.repo) {
        lemma_lookup_props(v.repos, a.repo);
    }
    assert(1 <= stepped.atom_count <= total2);
    assert(0 <= stepped.total_coherence <= 100 * stepped.atom_count) by {
        assert(prev.total_coherence <= 100 * prev.atom_count);
        assert(100 * stepped.atom_count == 100 * prev.atom_count + 100) by (nonlinear_arith)
            requires
                stepped.atom_count == prev.atom_count + 1,
        ;
    }
    assert(0 <= stepped.average_coherence <= 255) by {
        assert(stepped.total_coherence <= 100 * stepped.atom_count);
        assert(stepped.average_coherence <= 100) by (nonlinear_arith)
            requires
                stepped.average_coherence == stepped.total_coherence / stepped.atom_count,
                0 <= stepped.total_coherence <= 100 * stepped.atom_count,
                stepped.atom_count >= 1,
        ;
    }
    lemma_upsert(v.repos, a.repo, stepped);
    assert forall|i: int|
        0 <= i < v2.repos.len() implies {
            let e = #[trigger] v2.repos[i];
            &&& e.1.repo == e.0
            &&& 1 <= e.1.atom_count <= total2
            &&& 0 <= e.1.total_coherence <= 100 * e.1.atom_count
            &&& 0 <= e.1.average_coherence <= 255
        } by {
        if has_key(v.repos, a.repo) {
            let j = idx_of(v.repos, a.repo);
            lemma_lookup_props(v.repos, a.repo);
            if i != j {
                assert(v2.repos[i] == v.repos[i]);
            }
        } else {
            if i < v.repos.len() {
                assert(v2.repos[i] == v.repos[i]);
            }
        }
    }

    let tr = trail_of(v, a.contributor).push(a.atom_tag);
    if has_key(v.trails, a.contributor) {
        lemma_lookup_props(v.trails, a.contributor);
    }
    assert(tr.len() <= total2);
    lemma_upsert(v.trails, a.contributor, tr);
    assert forall|i: int| 0 <= i < v2.trails.len() implies (#[trigger] v2.trails[i]).1.len()
        <= total2 by {
        if has_key(v.trails, a.contributor) {
            let j = idx_of(v.trails, a.contributor);
            lemma_lookup_props(v.trails, a.contributor);
            if i != j {
                assert(v2.trails[i] == v.trails[i]);
            }
        } else {
            if i < v.trails.len() {
                assert(v2.trails[i] == v.trails[i]);
            }
        }
    }

    assert(global_wf(v2.global)) by {
        let g = v.global;
        assert(0 <= g.total_atoms * g.average_coherence <= 100 * g.total_atoms) by (
        nonlinear_arith)
            requires
                0 <= g.average_coherence <= 100,
                0 <= g.total_atoms,
        ;
        assert(v2.global.average_coherence <= 100) by (nonlinear_arith)
            requires
                v2.global.average_coherence == (g.total_atoms * g.average_coherence
                    + a.coherence_score) / (g.total_atoms + 1),
                0 <= g.total_atoms * g.average_coherence <= 100 * g.total_atoms,
                0 <= a.coherence_score <= 100,
                g.total_atoms >= 0,
        ;
        assert(v2.global.average_coherence >= 0) by (nonlinear_arith)
            requires
                v2.global.average_coherence == (g.total_atoms * g.average_coherence
                    + a.coherence_score) / (g.total_atoms + 1),
                0 <= g.total_atoms * g.average_coherence,
                0 <= a.coherence_score,
                g.total_atoms >= 0,
        ;
    }
}

impl SpiralSafeVortex {
    /// The ledger is well formed.
    pub open spec fn wf(&self) -> bool {
        wf(self@)
    }

    /// Constructs an empty ledger owned by `owner`, with `now` as the
    /// initial last-update marker and the default threshold of 70.
    pub fn new(owner: String, now: String) -> (r: Self)
        ensures
            r.wf(),
            r@ == initial_state(owner@, now@),
    {
        let r = SpiralSafeVortex {
            atoms: Vec::new(),
            repos: Vec::new(),
            contributor_atoms: Vec::new(),
            vortex_state: VortexState {
                total_atoms: 0,
                average_coherence: 0,
                snap_in_count: 0,
                last_update: now,
            },
            owner: owner,
            snap_in_threshold: 70,
        };
        proof {
            assert(r@ =~~= initial_state(r.owner@, r.vortex_state.last_update@));
        }
        r
    }

    /// Writes the record into the record store under its tag, replacing
    /// any prior record there.
    fn store_atom(&mut self, atom: &ATOMOnChain)
        requires
            unique_keys(old(self)@.atoms),
        ensures
            final(self)@.atoms == upsert(old(self)@.atoms, atom@.atom_tag, atom@),
            final(self)@.repos == old(self)@.repos,
            final(self)@.trails == old(self)@.trails,
            final(self)@.global == old(self)@.global,
            final(self)@.owner == old(self)@.owner,
            final(self)@.threshold == old(self)@.threshold,
    {
        let entry = (atom.atom_tag.clone(), atom.clone());
        match find_entry(&self.atoms, &atom.atom_tag) {
            Some(i) => {
                proof {
                    lemma_lookup_at(old(self)@.atoms, atom@.atom_tag, i as int);
                }
                self.atoms[i] = entry;
                proof {
                    assert(final(self)@.atoms =~= upsert(
                        old(self)@.atoms,
                        atom@.atom_tag,
                        atom@,
                    ));
                }
            },
            None => {
                proof {
                    assert(!has_key(old(self)@.atoms, atom@.atom_tag));
                }
                self.atoms.push(entry);
                proof {
                    assert(final(self)@.atoms =~= upsert(
                        old(self)@.atoms,
                        atom@.atom_tag,
                        atom@,
                    ));
                }
            },
        }
        proof {
            assert(final(self)@.repos =~= old(self)@.repos);
            assert(final(self)@.trails =~= old(self)@.trails);
        }
    }

    /// Steps the repository aggregate of the record's repository: count and
    /// exact sum grow, the average is recomputed from the exact sum by
    /// floor division, and a snap-in overwrites the last snap-in marker.
    fn update_repo_state(&mut self, atom: &ATOMOnChain)
        requires
            valid_atom(atom@),
            repos_wf(old(self)@.repos, old(self)@.global.total_atoms),
            old(self)@.global.total_atoms < MAX_RECORDS as int,
        ensures
            final(self)@.repos == upsert(
                old(self)@.repos,
                atom@.repo,
                repo_step(repo_before(old(self)@, atom@.repo), atom@, old(self)@.threshold),
            ),
            final(self)@.atoms == old(self)@.atoms,
            final(self)@.trails == old(self)@.trails,
            final(self)@.global == old(self)@.global,
            final(self)@.owner == old(self)@.owner,
            final(self)@.threshold == old(self)@.threshold,
    {
        let ghost prev = repo_before(old(self)@, atom@.repo);
        let ghost stepped = repo_step(prev, atom@, old(self)@.threshold);
        let found = find_entry(&self.repos, &atom.repo);
        let mut st: RepoState = match found {
            Some(i) => {
                proof {
                    lemma_lookup_at(old(self)@.repos, atom@.repo, i as int);
                }
                self.repos[i].1.clone()
            },
            None => {
                proof {
                    assert(!has_key(old(self)@.repos, atom@.repo));
                }
                RepoState {
                    repo: atom.repo.clone(),
                    atom_count: 0,
                    total_coherence: 0,
                    average_coherence: 0,
                    last_snap_in: None,
                }
            },
        };
        proof {
            assert(st@.atom_count == prev.atom_count);
            assert(st@.total_coherence == prev.total_coherence);
            assert(100 * (prev.atom_count + 1) <= 100 * MAX_RECORDS as int) by (nonlinear_arith)
                requires
                    prev.atom_count + 1 <= MAX_RECORDS as int,
            ;
        }
        st.atom_count = st.atom_count + 1;
        st.total_coherence = st.total_coherence + atom.coherence_score as u64;
        proof {
            assert(st.total_coherence as int <= 100 * st.atom_count as int);
            assert(st.total_coherence as int / st.atom_count as int <= 100) by (nonlinear_arith)
                requires
                    0 <= st.total_coherence as int <= 100 * st.atom_count as int,
                    st.atom_count >= 1,
            ;
        }
        st.average_coherence = (st.total_coherence / st.atom_count) as u8;
        if atom.coherence_score >= self.snap_in_threshold {
            st.last_snap_in = Some(atom.timestamp.clone());
        }
        proof {
            assert(st@ == stepped);
        }
        match found {
            Some(i) => {
                self.repos[i] = (atom.repo.clone(), st);
                proof {
                    assert(final(self)@.repos =~= upsert(old(self)@.repos, atom@.repo, stepped));
                }
            },
            None => {
                self.repos.push((atom.repo.clone(), st));
                proof {
                    assert(final(self)@.repos =~= upsert(old(self)@.repos, atom@.repo, stepped));
                }
            },
        }
        proof {
            assert(final(self)@.atoms =~= old(self)@.atoms);
            assert(final(self)@.trails =~= old(self)@.trails);
        }
    }

    /// Appends the record's tag to its contributor's trail, creating the
    /// trail on first use. Duplicate tags are kept.
    fn add_to_contributor_trail(&mut self, atom: &ATOMOnChain)
        requires
            unique_keys(old(self)@.trails),
        ensures
            final(self)@.trails == upsert(
                old(self)@.trails,
                atom@.contributor,
                trail_of(old(self)@, atom@.contributor).push(atom@.atom_tag),
            ),
            final(self)@.atoms == old(self)@.atoms,
            final(self)@.repos == old(self)@.repos,
            final(self)@.global == old(self)@.global,
            final(self)@.owner == old(self)@.owner,
            final(self)@.threshold == old(self)@.threshold,
    {
        let found = find_entry(&self.contributor_atoms, &atom.contributor);
        let mut trail: Vec<String> = match found {
            Some(i) => {
                proof {
                    lemma_lookup_at(old(self)@.trails, atom@.contributor, i as int);
                }
                crate::atom::clone_strings(&self.contributor_atoms[i].1)
            },
            None => {
                proof {
                    assert(!has_key(old(self)@.trails, atom@.contributor));
                }
                Vec::new()
            },
        };
        proof {
            assert(trail.deep_view() =~= trail_of(old(self)@, atom@.contributor));
        }
        trail.push(atom.atom_tag.clone());
        proof {
            assert(trail.deep_view() =~= trail_of(old(self)@, atom@.contributor).push(
                atom@.atom_tag,
            ));
        }
        match found {
            Some(i) => {
                self.contributor_atoms[i] = (atom.contributor.clone(), trail);
                proof {
                    assert(final(self)@.trails =~= upsert(
                        old(self)@.trails,
                        atom@.contributor,
                        trail_of(old(self)@, atom@.contributor).push(atom@.atom_tag),
                    ));
                }
            },
            None => {
                self.contributor_atoms.push((atom.contributor.clone(), trail));
                proof {
                    assert(final(self)@.trails =~= upsert(
                        old(self)@.trails,
                        atom@.contributor,
                        trail_of(old(self)@, atom@.contributor).push(atom@.atom_tag),
                    ));
                }
            },
        }
        proof {
            assert(final(self)@.atoms =~= old(self)@.atoms);
            assert(final(self)@.repos =~= old(self)@.repos);
        }
    }

    /// Steps the global aggregate: reconstructs the implied previous total
    /// from the previously rounded average, adds the new score, and divides
    /// by the new count. The snap-in counter is not touched here.
    fn update_vortex_state(&mut self, atom: &ATOMOnChain, now: String)
        requires
            valid_atom(atom@),
            global_wf(old(self)@.global),
            old(self)@.global.total_atoms < MAX_RECORDS as int,
        ensures
            final(self)@.global.total_atoms == old(self)@.global.total_atoms + 1,
            final(self)@.global.average_coherence == (old(self)@.global.total_atoms * old(
                self,
            )@.global.average_coherence + atom@.coherence_score) / (old(self)@.global.total_atoms
                + 1),
            final(self)@.global.snap_in_count == old(self)@.global.snap_in_count,
            final(self)@.global.last_update == now@,
            final(self)@.atoms == old(self)@.atoms,
            final(self)@.repos == old(self)@.repos,
            final(self)@.trails == old(self)@.trails,
            final(self)@.owner == old(self)@.owner,
            final(self)@.threshold == old(self)@.threshold,
    {
        proof {
            let g = old(self)@.global;
            assert(0 <= g.total_atoms * g.average_coherence <= 100 * g.total_atoms) by (
            nonlinear_arith)
                requires
                    0 <= g.average_coherence <= 100,
                    0 <= g.total_atoms,
            ;
            assert(100 * g.total_atoms + 100 <= 100 * MAX_RECORDS as int) by (nonlinear_arith)
                requires
                    g.total_atoms + 1 <= MAX_RECORDS as int,
            ;
        }
        let prev_total = self.vortex_state.total_atoms * self.vortex_state.average_coherence
            as u64;
        self.vortex_state.total_atoms = self.vortex_state.total_atoms + 1;
        let summed = prev_total + atom.coherence_score as u64;
        proof {
            let g = old(self)@.global;
            assert(summed as int / self.vortex_state.total_atoms as int <= 100) by (
            nonlinear_arith)
                requires
                    0 <= summed as int <= 100 * (g.total_atoms + 1),
                    self.vortex_state.total_atoms as int == g.total_atoms + 1,
                    g.total_atoms >= 0,
            ;
        }
        let new_avg = summed / self.vortex_state.total_atoms;
        self.vortex_state.average_coherence = new_avg as u8;
        self.vortex_state.last_update = now;
        proof {
            assert(final(self)@.atoms =~= old(self)@.atoms);
            assert(final(self)@.repos =~= old(self)@.repos);
            assert(final(self)@.trails =~= old(self)@.trails);
        }
    }

    /// Records one attestation. A score above 100 or an empty tag is
    /// rejected with a validation error and the ledger is left unchanged;
    /// an accepted record performs the whole submission step and returns
    /// the receipt token built from the call-sequence marker and the tag.
    pub fn record_atom(&mut self, atom: ATOMOnChain, block_height: u64, now: String) -> (r:
        Result<String, VortexError>)
        requires
            old(self).wf(),
            old(self)@.global.total_atoms < MAX_RECORDS as int,
        ensures
            final(self).wf(),
            valid_atom(atom@) ==> ({
                &&& final(self)@ == submit_step(old(self)@, atom@, now@)
                &&& r matches Ok(receipt) && receipt@ == receipt_seq(
                    block_height as int,
                    atom@.atom_tag,
                )
            }),
            !valid_atom(atom@) ==> r == Err::<String, VortexError>(VortexError::Validation)
                && *final(self) == *old(self),
    {
        let ghost now_v = now@;
        if atom.coherence_score > 100 {
            return Err(VortexError::Validation);
        }
        if atom.atom_tag.as_str().is_empty() {
            return Err(VortexError::Validation);
        }
        let tag = atom.atom_tag.clone();
        self.store_atom(&atom);
        self.update_repo_state(&atom);
        self.add_to_contributor_trail(&atom);
        self.update_vortex_state(&atom, now);
        if atom.coherence_score >= self.snap_in_threshold {
            proof {
                assert(self@.global.snap_in_count < MAX_RECORDS as int);
            }
            self.vortex_state.snap_in_count = self.vortex_state.snap_in_count + 1;
        }
        proof {
            lemma_submit_step_wf(old(self)@, atom@, now_v);
            assert(final(self)@.global =~= global_step(
                old(self)@.global,
                atom@,
                old(self)@.threshold,
                now_v,
            ));
            assert(final(self)@ =~~= submit_step(old(self)@, atom@, now_v));
        }
        Ok(make_receipt(block_height, &tag))
    }

    /// Records a whole batch, strictly in input order, all or nothing: one
    /// invalid record anywhere aborts the call with a validation error and
    /// no record of the batch is stored.
    pub fn batch_record_atoms(&mut self, atoms: Vec<ATOMOnChain>, block_height: u64, now: String)
        -> (r: Result<Vec<String>, VortexError>)
        requires
            old(self).wf(),
            old(self)@.global.total_atoms + atoms@.len() <= MAX_RECORDS as int,
        ensures
            final(self).wf(),
            all_valid(atom_views(atoms@)) ==> ({
                &&& final(self)@ == submit_all(old(self)@, atom_views(atoms@), now@)
                &&& r matches Ok(receipts) && receipts@.len() == atoms@.len() && forall|i: int|
                    0 <= i < atoms@.len() ==> (#[trigger] receipts@[i])@ == receipt_seq(
                        block_height as int,
                        atoms@[i]@.atom_tag,
                    )
            }),
            !all_valid(atom_views(atoms@)) ==> r == Err::<Vec<String>, VortexError>(
                VortexError::Validation,
            ) && *final(self) == *old(self),
    {
        let ghost avs = atom_views(atoms@);
        let ghost now_v = now@;
        let mut i: usize = 0;
        while i < atoms.len()
            invariant
                i <= atoms@.len(),
                avs == atom_views(atoms@),
                forall|j: int| 0 <= j < i ==> valid_atom(#[trigger] avs[j]),
                *self == *old(self),
                old(self).wf(),
            decreases atoms@.len() - i,
        {
            if atoms[i].coherence_score > 100 || atoms[i].atom_tag.as_str().is_empty() {
                proof {
                    assert(!valid_atom(avs[i as int]));
                }
                return Err(VortexError::Validation);
            }
            i = i + 1;
        }
        assert(all_valid(avs));
        let mut receipts: Vec<String> = Vec::new();
        let mut k: usize = 0;
        proof {
            assert(avs.take(0) =~= Seq::<AtomView>::empty());
        }
        while k < atoms.len()
            invariant
                k <= atoms@.len(),
                avs == atom_views(atoms@),
                all_valid(avs),
                self.wf(),
                old(self)@.global.total_atoms + atoms@.len() <= MAX_RECORDS as int,
                self@ == submit_all(old(self)@, avs.take(k as int), now_v),
                self@.global.total_atoms == old(self)@.global.total_atoms + k,
                receipts@.len() == k,
                forall|j: int| 0 <= j < k ==> (#[trigger] receipts@[j])@ == receipt_seq(
                    block_height as int,
                    avs[j].atom_tag,
                ),
                now_v == now@,
            decreases atoms@.len() - k,
        {
            let a = atoms[k].clone();
            proof {
                assert(a@ == avs[k as int]);
            }
            let res = self.record_atom(a, block_height, now.clone());
            match res {
                Ok(rc) => {
                    receipts.push(rc);
                },
                Err(_) => {
                    return unreached();
                },
            }
            proof {
                assert(avs.take(k + 1).drop_last() =~= avs.take(k as int));
                assert(avs.take(k + 1).last() == avs[k as int]);
                assert(self@ == submit_all(old(self)@, avs.take(k + 1), now_v));
            }
            k = k + 1;
        }
        proof {
            assert(avs.take(atoms@.len() as int) =~= avs);
        }
        Ok(receipts)
    }

    /// Replaces the snap-in threshold. Only the owner may call; a value
    /// above 100 is rejected with a validation error. A rejected call
    /// leaves the ledger unchanged.
    pub fn set_snap_in_threshold(&mut self, caller: String, threshold: u8) -> (r: Result<
        (),
        VortexError,
    >)
        requires
            old(self).wf(),
        ensures
            final(self).wf(),
            caller@ != old(self)@.owner ==> r == Err::<(), VortexError>(
                VortexError::Authorization,
            ) && *final(self) == *old(self),
            caller@ == old(self)@.owner && threshold > 100 ==> r == Err::<(), VortexError>(
                VortexError::Validation,
            ) && *final(self) == *old(self),
            caller@ == old(self)@.owner && threshold <= 100 ==> r == Ok::<(), VortexError>(())
                && final(self)@ == (VortexView { threshold: threshold as int, ..old(self)@ }),
    {
        if !(self.owner == caller) {
            return Err(VortexError::Authorization);
        }
        if threshold > 100 {
            return Err(VortexError::Validation);
        }
        self.snap_in_threshold = threshold;
        proof {
            assert(final(self)@ =~~= (VortexView { threshold: threshold as int, ..old(self)@ }));
        }
        Ok(())
    }

    /// Directly overwrites the displayed average of one repository. Only
    /// the owner may call; a repository the ledger has never seen is left
    /// alone. The exact sum and count are not touched, so the next
    /// submission to that repository recomputes the average from the stale
    /// sum and the override is discarded — deliberately.
    pub fn update_coherence(&mut self, caller: String, repo: String, coherence: u8) -> (r: Result<
        (),
        VortexError,
    >)
        requires
            old(self).wf(),
        ensures
            final(self).wf(),
            caller@ != old(self)@.owner ==> r == Err::<(), VortexError>(
                VortexError::Authorization,
            ) && *final(self) == *old(self),
            caller@ == old(self)@.owner && !has_key(old(self)@.repos, repo@) ==> r == Ok::<
                (),
                VortexError,
            >(()) && *final(self) == *old(self),
            caller@ == old(self)@.owner && has_key(old(self)@.repos, repo@) ==> r == Ok::<
                (),
                VortexError,
            >(()) && final(self)@ == (VortexView {
                repos: old(self)@.repos.update(
                    idx_of(old(self)@.repos, repo@),
                    (repo@, override_avg(lookup(old(self)@.repos, repo@), coherence as int)),
                ),
                ..old(self)@
            }),
    {
        if !(self.owner == caller) {
            return Err(VortexError::Authorization);
        }
        match find_entry(&self.repos, &repo) {
            Some(i) => {
                proof {
                    lemma_lookup_at(old(self)@.repos, repo@, i as int);
                }
                let mut st = self.repos[i].1.clone();
                st.average_coherence = coherence;
                self.repos[i] = (repo.clone(), st);
                proof {
                    assert(final(self)@.repos =~= old(self)@.repos.update(
                        i as int,
                        (repo@, override_avg(lookup(old(self)@.repos, repo@), coherence as int)),
                    ));
                    assert(final(self)@ =~~= (VortexView {
                        repos: old(self)@.repos.update(
                            idx_of(old(self)@.repos, repo@),
                            (
                                repo@,
                                override_avg(lookup(old(self)@.repos, repo@), coherence as int),
                            ),
                        ),
                        ..old(self)@
                    }));
                    let v2 = final(self)@;
                    assert forall|a: int, b: int| 0 <= a < b < v2.repos.len() implies v2.repos[a].0
                        != v2.repos[b].0 by {
                        assert(old(self)@.repos[a].0 != old(self)@.repos[b].0);
                    }
                }
                Ok(())
            },
            None => {
                proof {
                    assert(!has_key(old(self)@.repos, repo@));
                }
                Ok(())
            },
        }
    }
}

/// A repository aggregate with only its displayed average replaced.
pub open spec fn override_avg(st: RepoStateView, avg: int) -> RepoStateView {
    RepoStateView { average_coherence: avg, ..st }
}

/// The stored records whose repository is `repo`, in store order.
pub open spec fn filter_repo(s: Seq<(Seq<char>, AtomView)>, repo: Seq<char>) -> Seq<AtomView>
    decreases s.len(),
{
    if s.len() == 0 {
        Seq::empty()
    } else {
        let rest = filter_repo(s.drop_last(), repo);
        if s.last().1.repo == repo {
            rest.push(s.last().1)
        } else {
            rest
        }
    }
}

/// Every record `filter_repo` keeps belongs to the repository, and no more
/// records are kept than the store holds.
pub proof fn lemma_filter_repo_elems(s: Seq<(Seq<char>, AtomView)>, repo: Seq<char>)
    ensures
        filter_repo(s, repo).len() <= s.len(),
        forall|j: int|
            0 <= j < filter_repo(s, repo).len() ==> (#[trigger] filter_repo(s, repo)[j]).repo
                == repo,
    decreases s.len(),
{
    if s.len() > 0 {
        lemma_filter_repo_elems(s.drop_last(), repo);
    }
}

/// The records a sequence of tags resolves to through the record store;
/// tags without a stored record are skipped.
pub open spec fn resolve_tags(atoms: Seq<(Seq<char>, AtomView)>, tags: Seq<Seq<char>>) -> Seq<
    AtomView,
>
    decreases tags.len(),
{
    if tags.len() == 0 {
        Seq::empty()
    } else {
        let rest = resolve_tags(atoms, tags.drop_last());
        if has_key(atoms, tags.last()) {
            rest.push(lookup(atoms, tags.last()))
        } else {
            rest
        }
    }
}

/// Resolution through a well-formed store yields only valid records, and
/// no more of them than there were tags.
pub proof fn lemma_resolve_valid(atoms: Seq<(Seq<char>, AtomView)>, tags: Seq<Seq<char>>)
    requires
        atoms_wf(atoms),
    ensures
        resolve_tags(atoms, tags).len() <= tags.len(),
        forall|j: int|
            0 <= j < resolve_tags(atoms, tags).len() ==> valid_atom(
                #[trigger] resolve_tags(atoms, tags)[j],
            ),
    decreases tags.len(),
{
    if tags.len() > 0 {
        lemma_resolve_valid(atoms, tags.drop_last());
        if has_key(atoms, tags.last()) {
            lemma_lookup_props(atoms, tags.last());
        }
    }
}

/// The sum of the coherence scores of a sequence of records.
pub open spec fn sum_scores(s: Seq<AtomView>) -> int
    decreases s.len(),
{
    if s.len() == 0 {
        0
    } else {
        sum_scores(s.drop_last()) + s.last().coherence_score
    }
}

/// The attribution markers of a sequence of records, flattened in order.
pub open spec fn flat_markers(s: Seq<AtomView>) -> Seq<Seq<char>>
    decreases s.len(),
{
    if s.len() == 0 {
        Seq::empty()
    } else {
        flat_markers(s.drop_last()) + s.last().markers
    }
}

impl SpiralSafeVortex {
    /// Reads one record by tag.
    pub fn get_atom(&self, atom_tag: String) -> (r: Option<ATOMOnChain>)
        requires
            self.wf(),
        ensures
            match r {
                Some(a) => has_key(self@.atoms, atom_tag@) && a@ == lookup(
                    self@.atoms,
                    atom_tag@,
                ),
                None => !has_key(self@.atoms, atom_tag@),
            },
    {
        match find_entry(&self.atoms, &atom_tag) {
            Some(i) => {
                proof {
                    lemma_lookup_at(self@.atoms, atom_tag@, i as int);
                }
                Some(self.atoms[i].1.clone())
            },
            None => {
                proof {
                    assert(!has_key(self@.atoms, atom_tag@));
                }
                None
            },
        }
    }

    /// Reads the global ecosystem aggregate.
    pub fn get_vortex_state(&self) -> (r: VortexState)
        ensures
            r@ == self@.global,
    {
        self.vortex_state.clone()
    }

    /// Reads one repository aggregate by name.
    pub fn get_repo_state(&self, repo: String) -> (r: Option<RepoState>)
        requires
            self.wf(),
        ensures
            match r {
                Some(st) => has_key(self@.repos, repo@) && st@ == lookup(self@.repos, repo@),
                None => !has_key(self@.repos, repo@),
            },
    {
        match find_entry(&self.repos, &repo) {
            Some(i) => {
                proof {
                    lemma_lookup_at(self@.repos, repo@, i as int);
                }
                Some(self.repos[i].1.clone())
            },
            None => {
                proof {
                    assert(!has_key(self@.repos, repo@));
                }
                None
            },
        }
    }

    /// Lists every repository with its displayed average, in the order the
    /// repositories were first seen.
    pub fn get_repo_coherence(&self) -> (r: Vec<(String, u8)>)
        ensures
            r@.len() == self@.repos.len(),
            forall|i: int|
                0 <= i < r@.len() ==> (#[trigger] r@[i]).0@ == self@.repos[i].0 && r@[i].1 as int
                    == self@.repos[i].1.average_coherence,
    {
        let mut out: Vec<(String, u8)> = Vec::new();
        let mut i: usize = 0;
        while i < self.repos.len()
            invariant
                i <= self@.repos.len(),
                out@.len() == i,
                forall|j: int|
                    0 <= j < i ==> (#[trigger] out@[j]).0@ == self@.repos[j].0 && out@[j].1 as int
                        == self@.repos[j].1.average_coherence,
            decreases self@.repos.len() - i,
        {
            out.push((self.repos[i].0.clone(), self.repos[i].1.average_coherence));
            i = i + 1;
        }
        out
    }

    /// Lists up to `limit` records of one repository: the first matches of
    /// a scan of the record store, in store order.
    pub fn get_repo_atoms(&self, repo: String, limit: u32) -> (r: Vec<ATOMOnChain>)
        ensures
            ({
                let all = filter_repo(self@.atoms, repo@);
                &&& atom_views(r@) == if all.len() <= limit as int {
                    all
                } else {
                    all.take(limit as int)
                }
                &&& r@.len() == if all.len() <= limit as int {
                    all.len() as int
                } else {
                    limit as int
                }
                &&& forall|j: int| 0 <= j < r@.len() ==> (#[trigger] r@[j])@.repo == repo@
            }),
    {
        let ghost s = self@.atoms;
        let mut out: Vec<ATOMOnChain> = Vec::new();
        let mut i: usize = 0;
        proof {
            assert(s.take(0) =~= Seq::<(Seq<char>, AtomView)>::empty());
            assert(atom_views(out@) =~= filter_repo(s.take(0), repo@));
        }
        while i < self.atoms.len()
            invariant
                i <= self@.atoms.len(),
                s == self@.atoms,
                out@.len() <= limit as int,
                ({
                    let all = filter_repo(s.take(i as int), repo@);
                    atom_views(out@) == if all.len() <= limit as int {
                        all
                    } else {
                        all.take(limit as int)
                    }
                }),
            decreases self@.atoms.len() - i,
        {
            let ghost all_i = filter_repo(s.take(i as int), repo@);
            proof {
                assert(s.take(i + 1).drop_last() =~= s.take(i as int));
                assert(s.take(i + 1).last() == s[i as int]);
                lemma_filter_repo_elems(s.take(i as int), repo@);
                assert(atom_views(out@).len() == out@.len());
                if all_i.len() > limit as int {
                    assert(atom_views(out@) == all_i.take(limit as int));
                    assert(out@.len() == limit as int);
                }
            }
            let ghost all_i1 = filter_repo(s.take(i + 1), repo@);
            if out.len() < limit as usize && self.atoms[i].1.repo == repo {
                let a = self.atoms[i].1.clone();
                out.push(a);
                proof {
                    assert(all_i1 == all_i.push(s[i as int].1));
                    assert(all_i.len() < limit as int);
                    assert(atom_views(out@) =~= all_i1);
                }
            } else {
                proof {
                    if s[i as int].1.repo == repo@ {
                        assert(all_i1 == all_i.push(s[i as int].1));
                        assert(out@.len() == limit as int);
                        assert(all_i.len() >= limit as int);
                        if all_i.len() == limit as int {
                            assert(atom_views(out@) == all_i);
                            assert(all_i1.take(limit as int) =~= all_i);
                        } else {
                            assert(all_i1.take(limit as int) =~= all_i.take(limit as int));
                        }
                    } else {
                        assert(all_i1 == all_i);
                    }
                }
            }
            i = i + 1;
        }
        proof {
            assert(s.take(s.len() as int) =~= s);
            lemma_filter_repo_elems(s, repo@);
            assert(atom_views(out@).len() == out@.len());
            assert forall|j: int| 0 <= j < out@.len() implies (#[trigger] out@[j])@.repo
                == repo@ by {
                let all = filter_repo(s, repo@);
                assert(atom_views(out@)[j] == out@[j]@);
                if all.len() <= limit as int {
                    assert(atom_views(out@)[j] == all[j]);
                } else {
                    assert(atom_views(out@)[j] == all.take(limit as int)[j]);
                    assert(all.take(limit as int)[j] == all[j]);
                }
            }
        }
        out
    }

    /// Lists the records of one contributor: the trail's tags resolved
    /// through the record store, in trail order; tags without a stored
    /// record are silently skipped.
    pub fn get_contributor_atoms(&self, contributor: String) -> (r: Vec<ATOMOnChain>)
        requires
            self.wf(),
        ensures
            atom_views(r@) == resolve_tags(self@.atoms, trail_of(self@, contributor@)),
    {
        match find_entry(&self.contributor_atoms, &contributor) {
            None => {
                proof {
                    assert(!has_key(self@.trails, contributor@));
                    assert(atom_views(Seq::<ATOMOnChain>::empty()) =~= resolve_tags(
                        self@.atoms,
                        trail_of(self@, contributor@),
                    ));
                }
                Vec::new()
            },
            Some(ti) => {
                proof {
                    lemma_lookup_at(self@.trails, contributor@, ti as int);
                }
                let tags = &self.contributor_atoms[ti].1;
                let ghost tgs = trail_of(self@, contributor@);
                proof {
                    assert(tags.deep_view() == tgs);
                }
                let mut out: Vec<ATOMOnChain> = Vec::new();
                let mut i: usize = 0;
                proof {
                    assert(tgs.take(0) =~= Seq::<Seq<char>>::empty());
                    assert(atom_views(out@) =~= resolve_tags(self@.atoms, tgs.take(0)));
                }
                while i < tags.len()
                    invariant
                        self.wf(),
                        i <= tags@.len(),
                        tags.deep_view() == tgs,
                        atom_views(out@) == resolve_tags(self@.atoms, tgs.take(i as int)),
                    decreases tags@.len() - i,
                {
                    proof {
                        assert(tgs.take(i + 1).drop_last() =~= tgs.take(i as int));
                        assert(tgs.take(i + 1).last() == tgs[i as int]);
                        assert(tags@[i as int]@ == tgs[i as int]);
                    }
                    match find_entry(&self.atoms, &tags[i]) {
                        Some(j) => {
                            proof {
                                lemma_lookup_at(self@.atoms, tgs[i as int], j as int);
                            }
                            out.push(self.atoms[j].1.clone());
                            proof {
                                assert(atom_views(out@) =~= resolve_tags(
                                    self@.atoms,
                                    tgs.take(i + 1),
                                ));
                            }
                        },
                        None => {
                            proof {
                                assert(!has_key(self@.atoms, tgs[i as int]));
                                assert(atom_views(out@) =~= resolve_tags(
                                    self@.atoms,
                                    tgs.take(i + 1),
                                ));
                            }
                        },
                    }
                    i = i + 1;
                }
                proof {
                    assert(tgs.take(tgs.len() as int) =~= tgs);
                }
                out
            },
        }
    }

    /// Whether the ecosystem as a whole has reached the snap-in threshold,
    /// together with the current global average. A pure point-in-time read,
    /// distinct from the cumulative snap-in counter.
    pub fn check_ecosystem_snap_in(&self) -> (r: (bool, u8))
        ensures
            r.0 == (self@.global.average_coherence >= self@.threshold),
            r.1 as int == self@.global.average_coherence,
    {
        (
            self.vortex_state.average_coherence >= self.snap_in_threshold,
            self.vortex_state.average_coherence,
        )
    }

    /// Attribution summary for one contributor: how many records the trail
    /// resolves to, the floor of their mean score (zero without records),
    /// and their markers flattened in order. Recomputed fresh from the
    /// resolved records, not from any cached aggregate.
    pub fn get_attribution(&self, contributor: String) -> (r: (u64, u8, Vec<String>))
        requires
            self.wf(),
        ensures
            ({
                let resolved = resolve_tags(self@.atoms, trail_of(self@, contributor@));
                &&& r.0 as int == resolved.len()
                &&& r.1 as int == if resolved.len() == 0 {
                    0
                } else {
                    sum_scores(resolved) / resolved.len() as int
                }
                &&& r.2.deep_view() == flat_markers(resolved)
            }),
    {
        let ghost c = contributor@;
        let ghost resolved = resolve_tags(self@.atoms, trail_of(self@, c));
        proof {
            lemma_resolve_valid(self@.atoms, trail_of(self@, c));
            if has_key(self@.trails, c) {
                lemma_lookup_props(self@.trails, c);
            }
            assert(resolved.len() <= MAX_RECORDS as int);
        }
        let found = self.get_contributor_atoms(contributor);
        let count = found.len() as u64;
        let mut sum: u64 = 0;
        let mut markers: Vec<String> = Vec::new();
        let mut i: usize = 0;
        proof {
            assert(resolved.take(0) =~= Seq::<AtomView>::empty());
            assert(markers.deep_view() =~= flat_markers(resolved.take(0)));
        }
        while i < found.len()
            invariant
                i <= found@.len(),
                atom_views(found@) == resolved,
                resolved.len() <= MAX_RECORDS as int,
                forall|j: int| 0 <= j < resolved.len() ==> valid_atom(#[trigger] resolved[j]),
                sum as int == sum_scores(resolved.take(i as int)),
                sum as int <= 100 * i,
                markers.deep_view() == flat_markers(resolved.take(i as int)),
            decreases found@.len() - i,
        {
            proof {
                assert(resolved.take(i + 1).drop_last() =~= resolved.take(i as int));
                assert(resolved.take(i + 1).last() == resolved[i as int]);
                assert(found@[i as int]@ == resolved[i as int]);
                assert(100 * (i + 1) <= 100 * MAX_RECORDS as int) by (nonlinear_arith)
                    requires
                        0 <= i,
                        i + 1 <= MAX_RECORDS as int,
                ;
            }
            sum = sum + found[i].coherence_score as u64;
            let mut ms = crate::atom::clone_strings(&found[i].markers);
            markers.append(&mut ms);
            proof {
                assert(markers.deep_view() =~= flat_markers(resolved.take(i + 1)));
            }
            i = i + 1;
        }
        proof {
            assert(resolved.take(resolved.len() as int) =~= resolved);
        }
        let mean: u8 = if count == 0 {
            0
        } else {
            proof {
                assert(sum as int / count as int <= 100) by (nonlinear_arith)
                    requires
                        0 <= sum as int <= 100 * count as int,
                        count as int >= 1,
                ;
            }
            (sum / count) as u8
        };
        (count, mean, markers)
    }
}

} // verus!
