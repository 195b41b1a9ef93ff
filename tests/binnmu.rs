use binnmu_excuses::binnmu::{binnmus_for, check_if_binnmu_required, rebuild_for_item, RebuildOn, ToBinNMU};
use binnmu_excuses::excuses::{
    AgeInfo, Architecture, BuiltOnBuildd, Component, Excuses, ExcusesItem, MissingBuilds,
    PolicyInfo, UnspecfiedPolicyInfo, Verdict,
};
use binnmu_excuses::source_packages::{BinaryPackage, SourcePackages};

fn binary(package: &str, source: &str, multi_arch: &str) -> BinaryPackage {
    BinaryPackage {
        source: source.to_string(),
        package: package.to_string(),
        multi_arch: multi_arch.to_string(),
    }
}

fn no_sources() -> SourcePackages {
    SourcePackages::new(&vec![])
}

fn sources_with(name: &str) -> SourcePackages {
    SourcePackages::new(&vec![vec![binary(&format!("lib{}1", name), name, "same")]])
}

fn policy(signed_by: Vec<(Architecture, Option<&str>)>) -> PolicyInfo {
    PolicyInfo {
        age: None,
        builtonbuildd: Some(BuiltOnBuildd {
            signed_by: signed_by
                .into_iter()
                .map(|(a, s)| (a, s.map(|s| s.to_string())))
                .collect(),
            verdict: Verdict::RejectedPermanently,
        }),
        extras: vec![],
    }
}

fn item(source: &str, new_version: &str, old_version: &str, policy_info: PolicyInfo) -> ExcusesItem {
    ExcusesItem {
        maintainer: None,
        is_candidate: false,
        new_version: new_version.to_string(),
        old_version: old_version.to_string(),
        item_name: source.to_string(),
        source: source.to_string(),
        invalidated_by_other_package: None,
        component: Some(Component::Main),
        missing_builds: None,
        policy_info: Some(policy_info),
        excuses: vec![],
    }
}

fn foo_item() -> ExcusesItem {
    item(
        "foo",
        "1.2-1",
        "1.1-1",
        policy(vec![
            (Architecture::Amd64, Some("unofficial")),
            (Architecture::Arm64, Some("buildd@buildd.debian.org")),
        ]),
    )
}

fn excuses_of(items: Vec<ExcusesItem>) -> Excuses {
    Excuses { generated_date: "2022-01-01 00:00:00.0".to_string(), sources: items }
}

fn commands(excuses: &Excuses, sources: &SourcePackages) -> Vec<String> {
    binnmus_for(excuses, sources).iter().map(|t| t.to_command()).collect()
}

#[test]
fn end_to_end_explicit_architectures() {
    let excuses = excuses_of(vec![foo_item()]);
    assert_eq!(
        commands(&excuses, &no_sources()),
        vec!["nmu foo_1.2-1 . amd64 . unstable . -m \"Rebuild on buildd\"".to_string()]
    );
}

#[test]
fn end_to_end_ma_same_any() {
    let excuses = excuses_of(vec![foo_item()]);
    assert_eq!(
        commands(&excuses, &sources_with("foo")),
        vec!["nmu foo_1.2-1 . ANY . unstable . -m \"Rebuild on buildd\"".to_string()]
    );
}

#[test]
fn contrib_and_non_free_excluded() {
    for component in [Component::Contrib, Component::NonFree] {
        let mut i = foo_item();
        i.component = Some(component);
        assert!(rebuild_for_item(&i, &no_sources()).is_none());
    }
    let mut i = foo_item();
    i.component = None;
    assert!(rebuild_for_item(&i, &no_sources()).is_some());
}

#[test]
fn unchanged_version_excluded() {
    let mut i = foo_item();
    i.new_version = "1.1-1".to_string();
    assert!(rebuild_for_item(&i, &no_sources()).is_none());
    i.new_version = "0:1.1-1".to_string();
    assert!(rebuild_for_item(&i, &no_sources()).is_none());
}

#[test]
fn removals_pu_blocked_missing_excluded() {
    let mut i = foo_item();
    i.new_version = "-".to_string();
    assert!(rebuild_for_item(&i, &no_sources()).is_none());

    let mut i = foo_item();
    i.item_name = "foo_pu".to_string();
    assert!(rebuild_for_item(&i, &no_sources()).is_none());

    let mut i = foo_item();
    i.invalidated_by_other_package = Some(true);
    assert!(rebuild_for_item(&i, &no_sources()).is_none());
    i.invalidated_by_other_package = Some(false);
    assert!(rebuild_for_item(&i, &no_sources()).is_some());

    let mut i = foo_item();
    i.missing_builds = Some(MissingBuilds { on_architectures: vec![Architecture::Armel] });
    assert!(rebuild_for_item(&i, &no_sources()).is_none());

    let mut i = foo_item();
    i.policy_info = None;
    assert!(rebuild_for_item(&i, &no_sources()).is_none());

    let mut i = foo_item();
    i.new_version = "1.2 1".to_string();
    assert!(rebuild_for_item(&i, &no_sources()).is_none());
}

#[test]
fn new_package_without_old_version() {
    let mut i = foo_item();
    i.old_version = "-".to_string();
    assert!(rebuild_for_item(&i, &no_sources()).is_some());
}

fn aged(requirement: u32, current: u32) -> PolicyInfo {
    let mut p = policy(vec![(Architecture::Amd64, None)]);
    p.age = Some(AgeInfo {
        age_requirement: requirement,
        current_age: current,
        verdict: Verdict::RejectedTemporarily,
    });
    p
}

#[test]
fn age_gate_boundary() {
    assert!(!check_if_binnmu_required(&aged(10, 4)));
    assert!(check_if_binnmu_required(&aged(10, 5)));
    assert!(!check_if_binnmu_required(&aged(5, 1)));
    assert!(check_if_binnmu_required(&aged(5, 2)));
    assert!(check_if_binnmu_required(&aged(0, 0)));
    assert!(check_if_binnmu_required(&aged(1, 0)));
    assert!(!check_if_binnmu_required(&aged(2, 0)));
    let i = item("bar", "2-1", "1-1", aged(10, 4));
    assert!(rebuild_for_item(&i, &no_sources()).is_none());
    let i = item("bar", "2-1", "1-1", aged(10, 5));
    assert!(rebuild_for_item(&i, &no_sources()).is_some());
}

#[test]
fn passed_policy_or_failing_extras() {
    let mut p = policy(vec![(Architecture::Amd64, None)]);
    p.builtonbuildd.as_mut().unwrap().verdict = Verdict::Pass;
    assert!(!check_if_binnmu_required(&p));

    let mut p = policy(vec![(Architecture::Amd64, None)]);
    p.extras.push(("autopkgtest".to_string(), UnspecfiedPolicyInfo { verdict: Verdict::Pass }));
    assert!(check_if_binnmu_required(&p));
    p.extras.push(("rc-bugs".to_string(), UnspecfiedPolicyInfo { verdict: Verdict::PassHinted }));
    assert!(!check_if_binnmu_required(&p));
}

#[test]
fn unofficial_arch_all_excluded() {
    let i = item(
        "foo",
        "1.2-1",
        "1.1-1",
        policy(vec![
            (Architecture::Amd64, Some("buildd@buildd.debian.org")),
            (Architecture::All, Some("someone@example.org")),
        ]),
    );
    assert!(rebuild_for_item(&i, &no_sources()).is_none());
    assert!(rebuild_for_item(&i, &sources_with("foo")).is_none());
}

#[test]
fn ma_same_uses_wildcard() {
    let i = item(
        "baz",
        "3-2",
        "3-1",
        policy(vec![
            (Architecture::I386, Some("me@example.org")),
            (Architecture::S390x, None),
        ]),
    );
    let t = rebuild_for_item(&i, &sources_with("baz")).unwrap();
    assert_eq!(t.architectures, RebuildOn::Any);
    let t = rebuild_for_item(&i, &no_sources()).unwrap();
    assert_eq!(
        t.architectures,
        RebuildOn::Architectures(vec![Architecture::I386, Architecture::S390x])
    );
    assert_eq!(
        t.to_command(),
        "nmu baz_3-2 . i386 s390x . unstable . -m \"Rebuild on buildd\""
    );
}

#[test]
fn all_official_or_no_policy_excluded() {
    let i = item(
        "foo",
        "1.2-1",
        "1.1-1",
        policy(vec![(Architecture::Amd64, Some("buildd@buildd.debian.org"))]),
    );
    assert!(rebuild_for_item(&i, &no_sources()).is_none());
    let mut p = policy(vec![]);
    p.builtonbuildd = None;
    let i = item("foo", "1.2-1", "1.1-1", p);
    assert!(rebuild_for_item(&i, &no_sources()).is_none());
}

#[test]
fn order_of_items_kept() {
    let mut second = foo_item();
    second.source = "aaa".to_string();
    let mut excluded = foo_item();
    excluded.component = Some(Component::Contrib);
    let excuses = excuses_of(vec![foo_item(), excluded, second]);
    let out: Vec<ToBinNMU> = binnmus_for(&excuses, &no_sources());
    assert_eq!(out.len(), 2);
    assert_eq!(out[0].source, "foo");
    assert_eq!(out[1].source, "aaa");
}

#[test]
fn architecture_tokens() {
    assert_eq!(Architecture::Mips64el.to_string(), "mips64el");
    assert_eq!(Architecture::All.as_str(), "all");
}

#[test]
fn source_index_from_packages() {
    let index = vec![
        binary("libfoo1", "foo (1.2-1)", "same"),
        binary("bar", "", "same"),
        binary("baz-tools", "baz", "foreign"),
        binary("libqux1", "\tqux\t(1.0)", "same"),
        binary("blank", "   ", "same"),
    ];
    let s = SourcePackages::parse_packages(&index);
    assert!(s.is_ma_same("foo"));
    assert!(!s.is_ma_same("foo (1.2-1)"));
    assert!(s.is_ma_same("bar"));
    assert!(!s.is_ma_same("baz"));
    assert!(s.is_ma_same("qux"));
    assert!(s.is_ma_same("blank"));
    let all = SourcePackages::new(&vec![index, vec![binary("libz1", "zlib", "same")]]);
    assert!(all.is_ma_same("zlib"));
    assert!(all.is_ma_same("foo"));
    assert!(!all.is_ma_same("baz"));
}
