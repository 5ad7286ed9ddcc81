use spiralsafe_vortex::atom::ATOMOnChain;
use spiralsafe_vortex::engine::SpiralSafeVortex;
use spiralsafe_vortex::state::VortexError;

fn owner_engine() -> SpiralSafeVortex {
    SpiralSafeVortex::new("owner.near".to_string(), "0".to_string())
}

fn atom(tag: &str, repo: &str, score: u8, contributor: &str) -> ATOMOnChain {
    ATOMOnChain {
        atom_tag: tag.to_string(),
        repo: repo.to_string(),
        coherence_score: score,
        phases_passed: vec![],
        markers: vec!["WAVE".to_string()],
        contributor: contributor.to_string(),
        timestamp: "2026-01-17".to_string(),
        commit_hash: "abc".to_string(),
        pr_number: None,
    }
}

#[test]
fn test_record_atom() {
    let mut contract = owner_engine();

    let atom = ATOMOnChain {
        atom_tag: "ATOM-TEST-001".to_string(),
        repo: "QDI".to_string(),
        coherence_score: 75,
        phases_passed: vec!["KENL".to_string(), "AWI".to_string()],
        markers: vec!["WAVE".to_string(), "PASS".to_string()],
        contributor: "toolate28".to_string(),
        timestamp: "2026-01-17T00:00:00Z".to_string(),
        commit_hash: "abc123".to_string(),
        pr_number: Some(42),
    };

    let result = contract.record_atom(atom.clone(), 0, "0".to_string()).unwrap();
    assert!(!result.is_empty());

    let retrieved = contract.get_atom("ATOM-TEST-001".to_string());
    assert!(retrieved.is_some());
    assert_eq!(retrieved.unwrap().coherence_score, 75);
}

#[test]
fn test_snap_in_detection() {
    let mut contract = owner_engine();

    // Record atoms until snap-in
    for i in 0..5 {
        let atom = ATOMOnChain {
            atom_tag: format!("ATOM-TEST-{}", i),
            repo: "QDI".to_string(),
            coherence_score: 80,  // Above threshold
            phases_passed: vec![],
            markers: vec!["WAVE".to_string()],
            contributor: "test".to_string(),
            timestamp: "2026-01-17".to_string(),
            commit_hash: "abc".to_string(),
            pr_number: None,
        };
        contract.record_atom(atom, 0, "0".to_string()).unwrap();
    }

    let (snap_in, coherence) = contract.check_ecosystem_snap_in();
    assert!(snap_in);
    assert_eq!(coherence, 80);
}

#[test]
fn receipt_combines_marker_and_tag() {
    let mut e = owner_engine();
    let r = e
        .record_atom(atom("ATOM-1", "repo", 50, "c"), 7, "1".to_string())
        .unwrap();
    assert_eq!(r, "7:ATOM-1");
    let r2 = e
        .record_atom(atom("ATOM-2", "repo", 50, "c"), 123456, "2".to_string())
        .unwrap();
    assert_eq!(r2, "123456:ATOM-2");
}

#[test]
fn invalid_score_rejected_and_state_unchanged() {
    let mut e = owner_engine();
    e.record_atom(atom("A", "r", 60, "c"), 1, "1".to_string()).unwrap();
    let before = e.get_vortex_state();

    let err = e.record_atom(atom("B", "r", 101, "c"), 2, "2".to_string());
    assert_eq!(err, Err(VortexError::Validation));

    let after = e.get_vortex_state();
    assert_eq!(after.total_atoms, before.total_atoms);
    assert_eq!(after.average_coherence, before.average_coherence);
    assert_eq!(after.snap_in_count, before.snap_in_count);
    assert_eq!(after.last_update, before.last_update);
    assert!(e.get_atom("B".to_string()).is_none());
    let repo = e.get_repo_state("r".to_string()).unwrap();
    assert_eq!(repo.atom_count, 1);
    assert_eq!(repo.total_coherence, 60);
}

#[test]
fn empty_tag_rejected() {
    let mut e = owner_engine();
    let err = e.record_atom(atom("", "r", 50, "c"), 1, "1".to_string());
    assert_eq!(err, Err(VortexError::Validation));
    assert_eq!(e.get_vortex_state().total_atoms, 0);
}

#[test]
fn resubmission_overwrites_store_but_extends_trail() {
    let mut e = owner_engine();
    e.record_atom(atom("TAG", "r", 40, "alice"), 1, "1".to_string()).unwrap();
    let mut second = atom("TAG", "r", 90, "alice");
    second.commit_hash = "def".to_string();
    e.record_atom(second, 2, "2".to_string()).unwrap();

    // The store keeps only the latest record under the tag.
    let stored = e.get_atom("TAG".to_string()).unwrap();
    assert_eq!(stored.coherence_score, 90);
    assert_eq!(stored.commit_hash, "def");

    // The trail gained a duplicate entry, so the tag resolves twice.
    let trail = e.get_contributor_atoms("alice".to_string());
    assert_eq!(trail.len(), 2);
    assert_eq!(trail[0].coherence_score, 90);
    assert_eq!(trail[1].coherence_score, 90);
}

#[test]
fn repo_average_matches_exact_sum() {
    let mut e = owner_engine();
    let scores: [u8; 7] = [13, 99, 0, 57, 100, 42, 7];
    let mut sum: u64 = 0;
    for (i, s) in scores.iter().enumerate() {
        e.record_atom(
            atom(&format!("T{}", i), "repo", *s, "c"),
            i as u64,
            format!("{}", i),
        )
        .unwrap();
        sum += *s as u64;
        let st = e.get_repo_state("repo".to_string()).unwrap();
        assert_eq!(st.atom_count, (i + 1) as u64);
        assert_eq!(st.total_coherence, sum);
        assert_eq!(st.average_coherence as u64, sum / (i + 1) as u64);
    }
}

#[test]
fn five_snap_ins_counted() {
    let mut e = owner_engine();
    for i in 0..5 {
        e.record_atom(
            atom(&format!("S{}", i), "QDI", 80, "test"),
            0,
            "0".to_string(),
        )
        .unwrap();
    }
    let state = e.get_vortex_state();
    assert_eq!(state.snap_in_count, 5);
    assert_eq!(state.total_atoms, 5);
    assert_eq!(e.check_ecosystem_snap_in(), (true, 80));
}

#[test]
fn batch_is_all_or_nothing() {
    let mut e = owner_engine();
    let batch = vec![
        atom("B0", "r", 70, "c"),
        atom("B1", "r", 71, "c"),
        atom("B2", "r", 150, "c"), // invalid score
        atom("B3", "r", 73, "c"),
        atom("B4", "r", 74, "c"),
    ];
    let err = e.batch_record_atoms(batch, 1, "1".to_string());
    assert_eq!(err, Err(VortexError::Validation));
    assert_eq!(e.get_vortex_state().total_atoms, 0);
    assert!(e.get_atom("B0".to_string()).is_none());
    assert!(e.get_repo_state("r".to_string()).is_none());
}

#[test]
fn batch_returns_one_receipt_per_record() {
    let mut e = owner_engine();
    let batch = vec![
        atom("B0", "r", 70, "c"),
        atom("B1", "r", 80, "d"),
    ];
    let receipts = e.batch_record_atoms(batch, 9, "1".to_string()).unwrap();
    assert_eq!(receipts, vec!["9:B0".to_string(), "9:B1".to_string()]);
    assert_eq!(e.get_vortex_state().total_atoms, 2);
}

#[test]
fn attribution_summary() {
    let mut e = owner_engine();
    // No records yet: count 0, mean 0, no markers.
    let (count, mean, markers) = e.get_attribution("nobody".to_string());
    assert_eq!(count, 0);
    assert_eq!(mean, 0);
    assert!(markers.is_empty());

    let mut first = atom("A1", "r", 60, "alice");
    first.markers = vec!["WAVE".to_string()];
    let mut second = atom("A2", "r", 90, "alice");
    second.markers = vec!["PASS".to_string(), "KENL".to_string()];
    e.record_atom(first, 1, "1".to_string()).unwrap();
    e.record_atom(second, 2, "2".to_string()).unwrap();

    let (count, mean, markers) = e.get_attribution("alice".to_string());
    assert_eq!(count, 2);
    assert_eq!(mean, 75);
    assert_eq!(
        markers,
        vec!["WAVE".to_string(), "PASS".to_string(), "KENL".to_string()]
    );
}

#[test]
fn threshold_governance() {
    let mut e = owner_engine();
    // A non-owner may not change the threshold, and it stays at 70:
    // a score of 69 does not snap in afterwards, a score of 70 does.
    let err = e.set_snap_in_threshold("mallory.near".to_string(), 10);
    assert_eq!(err, Err(VortexError::Authorization));
    e.record_atom(atom("T0", "r", 69, "c"), 1, "1".to_string()).unwrap();
    assert_eq!(e.get_vortex_state().snap_in_count, 0);
    e.record_atom(atom("T1", "r", 70, "c"), 2, "2".to_string()).unwrap();
    assert_eq!(e.get_vortex_state().snap_in_count, 1);

    // The owner may not set a threshold above 100.
    let err = e.set_snap_in_threshold("owner.near".to_string(), 101);
    assert_eq!(err, Err(VortexError::Validation));

    // The owner lowers the threshold; a score of 20 now snaps in.
    e.set_snap_in_threshold("owner.near".to_string(), 20).unwrap();
    e.record_atom(atom("T2", "r", 20, "c"), 3, "3".to_string()).unwrap();
    assert_eq!(e.get_vortex_state().snap_in_count, 2);
}

#[test]
fn override_is_discarded_by_next_submission() {
    let mut e = owner_engine();

    let err = e.update_coherence("mallory.near".to_string(), "r".to_string(), 10);
    assert_eq!(err, Err(VortexError::Authorization));

    // Overriding a repository the ledger has never seen is a no-op.
    e.update_coherence("owner.near".to_string(), "ghost".to_string(), 10).unwrap();
    assert!(e.get_repo_state("ghost".to_string()).is_none());

    e.record_atom(atom("O1", "r", 40, "c"), 1, "1".to_string()).unwrap();
    e.update_coherence("owner.near".to_string(), "r".to_string(), 99).unwrap();
    let st = e.get_repo_state("r".to_string()).unwrap();
    assert_eq!(st.average_coherence, 99);
    // The sum and count were not touched.
    assert_eq!(st.total_coherence, 40);
    assert_eq!(st.atom_count, 1);

    // The next submission recomputes from the stale exact sum: the
    // override is discarded.
    e.record_atom(atom("O2", "r", 60, "c"), 2, "2".to_string()).unwrap();
    let st = e.get_repo_state("r".to_string()).unwrap();
    assert_eq!(st.average_coherence, 50);
}

#[test]
fn repo_listing_respects_limit() {
    let mut e = owner_engine();
    for i in 0..5 {
        e.record_atom(
            atom(&format!("R{}", i), "wanted", 50, "c"),
            0,
            "0".to_string(),
        )
        .unwrap();
    }
    e.record_atom(atom("X", "other", 50, "c"), 0, "0".to_string()).unwrap();

    let two = e.get_repo_atoms("wanted".to_string(), 2);
    assert_eq!(two.len(), 2);
    assert!(two.iter().all(|a| a.repo == "wanted"));

    let all = e.get_repo_atoms("wanted".to_string(), 100);
    assert_eq!(all.len(), 5);
    assert!(all.iter().all(|a| a.repo == "wanted"));

    assert!(e.get_repo_atoms("missing".to_string(), 10).is_empty());
}

#[test]
fn repo_coherence_lists_every_repo() {
    let mut e = owner_engine();
    e.record_atom(atom("C1", "alpha", 30, "c"), 1, "1".to_string()).unwrap();
    e.record_atom(atom("C2", "beta", 90, "c"), 2, "2".to_string()).unwrap();
    e.record_atom(atom("C3", "alpha", 60, "c"), 3, "3".to_string()).unwrap();

    let pairs = e.get_repo_coherence();
    assert_eq!(
        pairs,
        vec![("alpha".to_string(), 45u8), ("beta".to_string(), 90u8)]
    );
}

#[test]
fn global_average_uses_rounded_previous_average() {
    let mut e = owner_engine();
    // Scores 1 and 2: exact sum would give floor(3/2) = 1; the global
    // formula reconstructs from the rounded previous average:
    // (1*1 + 2) / 2 = 1 as well.
    e.record_atom(atom("G1", "r", 1, "c"), 1, "1".to_string()).unwrap();
    assert_eq!(e.get_vortex_state().average_coherence, 1);
    e.record_atom(atom("G2", "r", 2, "c"), 2, "2".to_string()).unwrap();
    assert_eq!(e.get_vortex_state().average_coherence, 1);
    // Third score 5: exact sum gives floor(8/3) = 2; the rounded-average
    // formula gives (2*1 + 5) / 3 = 2 — but after scores 99, 0, 0 the two
    // drift apart, which is the preserved behaviour.
    let mut f = owner_engine();
    f.record_atom(atom("H1", "r", 99, "c"), 1, "1".to_string()).unwrap();
    f.record_atom(atom("H2", "r", 0, "c"), 2, "2".to_string()).unwrap();
    f.record_atom(atom("H3", "r", 0, "c"), 3, "3".to_string()).unwrap();
    // Exact: floor(99/3) = 33. Rounded chain: 99 -> (99*1+0)/2 = 49
    // -> (49*2+0)/3 = 32.
    assert_eq!(f.get_vortex_state().average_coherence, 32);
    // The repository aggregate, by contrast, is exact.
    assert_eq!(
        f.get_repo_state("r".to_string()).unwrap().average_coherence,
        33
    );
}

#[test]
fn last_snap_in_keeps_most_recent_crossing() {
    let mut e = owner_engine();
    let mut a = atom("L1", "r", 80, "c");
    a.timestamp = "first".to_string();
    e.record_atom(a, 1, "1".to_string()).unwrap();
    let mut b = atom("L2", "r", 10, "c");
    b.timestamp = "low".to_string();
    e.record_atom(b, 2, "2".to_string()).unwrap();
    let st = e.get_repo_state("r".to_string()).unwrap();
    assert_eq!(st.last_snap_in, Some("first".to_string()));

    let mut c = atom("L3", "r", 95, "c");
    c.timestamp = "second".to_string();
    e.record_atom(c, 3, "3".to_string()).unwrap();
    let st = e.get_repo_state("r".to_string()).unwrap();
    assert_eq!(st.last_snap_in, Some("second".to_string()));
}
