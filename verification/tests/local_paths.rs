use quasar::local_paths::{Intent, LocalPathGrants};

#[test]
fn only_picked_paths_are_accepted() {
    let mut grants = LocalPathGrants::new();
    assert!(grants.take("/home/u/.ssh/id_ed25519", Intent::Read).is_err());
    grants.grant("/home/u/Downloads/report.txt", Intent::Read);
    assert!(grants.take("/home/u/Downloads/other.txt", Intent::Read).is_err());
    assert!(grants.take("/home/u/Downloads/report.txt.bak", Intent::Read).is_err());
    assert!(grants.take("/home/u/Downloads/report.txt", Intent::Read).is_ok());
}

#[test]
fn grants_are_single_use_and_bound_to_their_intent() {
    let mut grants = LocalPathGrants::new();
    grants.grant("/home/u/report.txt", Intent::Read);
    // Picked for upload: may not be used as a download/export target.
    assert!(grants.take("/home/u/report.txt", Intent::Write).is_err());
    assert!(grants.take("/home/u/report.txt", Intent::Read).is_ok());
    // Used up.
    assert!(grants.take("/home/u/report.txt", Intent::Read).is_err());
}

#[test]
fn a_grant_matches_the_path_by_its_components() {
    let mut grants = LocalPathGrants::new();
    grants.grant("/home/u//docs/./a.txt", Intent::Write);
    assert!(grants.take("/home/u/docs/a.txt", Intent::Write).is_ok());
    assert!(grants.take("/home/u/docs/a.txt", Intent::Write).is_err());
}
