//! The attestation record ("ATOM") and its mathematical view.

use vstd::prelude::*;

verus! {

/// One attestation record: the unit the ledger stores, keyed by `atom_tag`.
#[derive(Debug)]
pub struct ATOMOnChain {
    pub atom_tag: String,
    pub repo: String,
    /// Coherence quality metric; valid records hold values in 0..=100.
    pub coherence_score: u8,
    pub phases_passed: Vec<String>,
    pub markers: Vec<String>,
    pub contributor: String,
    pub timestamp: String,
    pub commit_hash: String,
    pub pr_number: Option<u32>,
}

/// The mathematical value of a record: every string as a sequence of
/// characters, the score as an unbounded integer.
pub struct AtomView {
    pub atom_tag: Seq<char>,
    pub repo: Seq<char>,
    pub coherence_score: int,
    pub phases_passed: Seq<Seq<char>>,
    pub markers: Seq<Seq<char>>,
    pub contributor: Seq<char>,
    pub timestamp: Seq<char>,
    pub commit_hash: Seq<char>,
    pub pr_number: Option<u32>,
}

impl View for ATOMOnChain {
    type V = AtomView;

    open spec fn view(&self) -> AtomView {
        AtomView {
            atom_tag: self.atom_tag@,
            repo: self.repo@,
            coherence_score: self.coherence_score as int,
            phases_passed: self.phases_passed.deep_view(),
            markers: self.markers.deep_view(),
            contributor: self.contributor@,
            timestamp: self.timestamp@,
            commit_hash: self.commit_hash@,
            pr_number: self.pr_number,
        }
    }
}

/// The views of a sequence of records, in order.
pub open spec fn atom_views(s: Seq<ATOMOnChain>) -> Seq<AtomView> {
    s.map_values(|a: ATOMOnChain| a@)
}

/// A record is accepted only when its score is in 0..=100 and its tag is
/// non-empty.
pub open spec fn valid_atom(a: AtomView) -> bool {
    0 <= a.coherence_score <= 100 && a.atom_tag.len() > 0
}

/// Copies a vector of strings element by element, so that the copy provably
/// holds the same character sequences.
pub fn clone_strings(v: &Vec<String>) -> (r: Vec<String>)
    ensures
        r.deep_view() == v.deep_view(),
{
    let mut out: Vec<String> = Vec::new();
    let mut i: usize = 0;
    while i < v.len()
        invariant
            i <= v.len(),
            out@.len() == i,
            forall|j: int| 0 <= j < i ==> out@[j]@ == v@[j]@,
        decreases v.len() - i,
    {
        let s = v[i].clone();
        out.push(s);
        i = i + 1;
    }
    proof {
        assert(out.deep_view() =~= v.deep_view());
    }
    out
}

impl Clone for ATOMOnChain {
    /// The copy has the same view as the source value.
    fn clone(&self) -> (r: Self)
        ensures
            r@ == self@,
    {
        ATOMOnChain {
            atom_tag: self.atom_tag.clone(),
            repo: self.repo.clone(),
            coherence_score: self.coherence_score,
            phases_passed: clone_strings(&self.phases_passed),
            markers: clone_strings(&self.markers),
            contributor: self.contributor.clone(),
            timestamp: self.timestamp.clone(),
            commit_hash: self.commit_hash.clone(),
            pr_number: self.pr_number,
        }
    }
}

} // verus!
