use binnmu_excuses::udd_bugs::{Severity, UDDBug, UDDBugs};

fn bug(id: u32, source: &str, severity: Severity) -> UDDBug {
    UDDBug { id, source: source.to_string(), severity, title: format!("{}: bug {}", source, id) }
}

#[test]
fn bugs_by_source() {
    let bugs = UDDBugs::new(vec![
        bug(743062, "mutextrace", Severity::Serious),
        bug(778111, "scheme2c", Severity::Serious),
        bug(789292, "dmtcp", Severity::Serious),
        bug(800000, "mutextrace", Severity::Grave),
    ]);

    assert!(bugs.bugs_for_source("dmtcp").is_some());
    assert!(bugs.bugs_for_source("zathura").is_none());

    let found = bugs.bugs_for_source("mutextrace").unwrap();
    assert_eq!(found.len(), 2);
    assert_eq!(found[0].id, 743062);
    assert_eq!(found[1].id, 800000);
    for bug in found {
        assert!(bug.severity >= Severity::Serious);
    }
}

#[test]
fn severity_names() {
    assert_eq!(Severity::Wishlist.to_string(), "wishlist");
    assert_eq!(Severity::Critical.to_string(), "critical");
    assert!(Severity::Important < Severity::Serious);
}
