//! Aggregate state types: the global ecosystem aggregate and the
//! per-repository aggregate, with their mathematical views.

use vstd::prelude::*;

verus! {

/// Global ecosystem aggregate: total record count, running average kept
/// from the previously rounded average, cumulative snap-in counter, and
/// the last-update marker.
#[derive(Debug)]
pub struct VortexState {
    pub total_atoms: u64,
    pub average_coherence: u8,
    pub snap_in_count: u64,
    pub last_update: String,
}

/// The mathematical value of the global aggregate.
#[verifier::ext_equal]
pub struct VortexStateView {
    pub total_atoms: int,
    pub average_coherence: int,
    pub snap_in_count: int,
    pub last_update: Seq<char>,
}

impl View for VortexState {
    type V = VortexStateView;

    open spec fn view(&self) -> VortexStateView {
        VortexStateView {
            total_atoms: self.total_atoms as int,
            average_coherence: self.average_coherence as int,
            snap_in_count: self.snap_in_count as int,
            last_update: self.last_update@,
        }
    }
}

impl Clone for VortexState {
    /// The copy equals the source value.
    fn clone(&self) -> (r: Self)
        ensures
            r == *self,
    {
        VortexState {
            total_atoms: self.total_atoms,
            average_coherence: self.average_coherence,
            snap_in_count: self.snap_in_count,
            last_update: self.last_update.clone(),
        }
    }
}

/// Per-repository aggregate: record count, exact running score sum, the
/// floor-divided average, and the timestamp of the most recent snap-in.
#[derive(Debug)]
pub struct RepoState {
    pub repo: String,
    pub atom_count: u64,
    pub total_coherence: u64,
    pub average_coherence: u8,
    pub last_snap_in: Option<String>,
}

/// The mathematical value of a repository aggregate.
#[verifier::ext_equal]
pub struct RepoStateView {
    pub repo: Seq<char>,
    pub atom_count: int,
    pub total_coherence: int,
    pub average_coherence: int,
    pub last_snap_in: Option<Seq<char>>,
}

/// The view of an optional string: the characters, when present.
pub open spec fn opt_str_view(o: Option<String>) -> Option<Seq<char>> {
    match o {
        Some(s) => Some(s@),
        None => None,
    }
}

impl View for RepoState {
    type V = RepoStateView;

    open spec fn view(&self) -> RepoStateView {
        RepoStateView {
            repo: self.repo@,
            atom_count: self.atom_count as int,
            total_coherence: self.total_coherence as int,
            average_coherence: self.average_coherence as int,
            last_snap_in: opt_str_view(self.last_snap_in),
        }
    }
}

impl Clone for RepoState {
    /// The copy equals the source value.
    fn clone(&self) -> (r: Self)
        ensures
            r == *self,
    {
        RepoState {
            repo: self.repo.clone(),
            atom_count: self.atom_count,
            total_coherence: self.total_coherence,
            average_coherence: self.average_coherence,
            last_snap_in: match &self.last_snap_in {
                Some(s) => Some(s.clone()),
                None => None,
            },
        }
    }
}

/// Why a call was rejected. Every rejected call leaves the ledger unchanged.
#[derive(Debug, PartialEq, Eq, Structural, Clone, Copy)]
pub enum VortexError {
    /// The input broke a validation rule: a score above 100, an empty
    /// record tag, or a threshold above 100.
    Validation,
    /// A governance call came from a caller other than the owner.
    Authorization,
}

} // verus!
