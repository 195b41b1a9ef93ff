//! Decides which pending migrations need a binary-only rebuild ("binNMU"),
//! and on which architectures.
use vstd::prelude::*;

use crate::excuses::{
    architecture_name, Architecture, BuiltOnBuildd, Component, Excuses, ExcusesItem, PolicyInfo, Verdict,
};
use crate::source_packages::SourcePackages;
use crate::text::{ends_with, has_suffix, str_eq};
use crate::version::{parse_version, same_version, PackageVersion};

verus! {

/// Where a rebuild has to run.
#[derive(Debug, Clone, PartialEq, Eq)]
pub enum RebuildOn {
    /// On any one architecture: the binaries are interchangeable
    Any,
    /// On each of these architectures
    Architectures(Vec<Architecture>),
}

/// A binary-only rebuild to schedule.
#[derive(Debug, Clone, PartialEq, Eq)]
pub struct ToBinNMU {
    /// Source package name
    pub source: String,
    /// Version to rebuild
    pub version: String,
    /// Where to rebuild
    pub architectures: RebuildOn,
}

/// A rebuild as source name, version, and either `None` for any architecture
/// or the architectures to rebuild on.
pub type RebuildView = (Seq<char>, Seq<char>, Option<Seq<Architecture>>);

impl View for RebuildOn {
    type V = Option<Seq<Architecture>>;

    open spec fn view(&self) -> Option<Seq<Architecture>> {
        match self {
            RebuildOn::Any => None,
            RebuildOn::Architectures(a) => Some(a@),
        }
    }
}

impl View for ToBinNMU {
    type V = RebuildView;

    open spec fn view(&self) -> RebuildView {
        (self.source@, self.version@, self.architectures@)
    }
}

/// Whether the signer is the official build daemons' identity.
pub open spec fn is_buildd_signer(signer: Option<String>) -> bool {
    match signer {
        Some(s) => has_suffix(s@, "@buildd.debian.org"@),
        None => false,
    }
}

/// The architectures whose binaries were not signed by the build daemons, in
/// the order of the signer list.
pub open spec fn unofficial_architectures(signed_by: Seq<(Architecture, Option<String>)>) -> Seq<
    Architecture,
>
    decreases signed_by.len(),
{
    if signed_by.len() == 0 {
        Seq::empty()
    } else {
        let rest = unofficial_architectures(signed_by.drop_last());
        if is_buildd_signer(signed_by.last().1) {
            rest
        } else {
            rest.push(signed_by.last().0)
        }
    }
}

/// The age below which an upload is too young to be rebuilt:
/// `min(required / 2, required - 1)`.
pub open spec fn age_threshold(age_requirement: u32) -> int {
    let half = age_requirement as int / 2;
    let less = age_requirement as int - 1;
    if half <= less {
        half
    } else {
        less
    }
}

/// Whether a rebuild would help the item migrate: the built-on-buildd policy
/// has not passed, the upload is old enough, and every other policy passed.
pub open spec fn binnmu_required(p: PolicyInfo) -> bool {
    &&& !(p.builtonbuildd is Some && p.builtonbuildd->0.verdict == Verdict::Pass)
    &&& !(p.age is Some && (p.age->0.current_age as int) < age_threshold(
        p.age->0.age_requirement,
    ))
    &&& forall|i: int| 0 <= i < p.extras@.len() ==> p.extras@[i].1.verdict == Verdict::Pass
}

/// Whether the proposed version is the one that already migrated.
pub open spec fn same_as_migrated(item: ExcusesItem) -> bool {
    parse_version(item.new_version@) is Ok && parse_version(item.old_version@) is Ok
        && same_version(
        parse_version(item.new_version@)->Ok_0,
        parse_version(item.old_version@)->Ok_0,
    )
}

/// Whether the item passes every gate before its policies are looked at.
pub open spec fn passes_item_gates(item: ExcusesItem) -> bool {
    &&& item.new_version@ != "-"@
    &&& parse_version(item.new_version@) is Ok
    &&& !same_as_migrated(item)
    &&& !has_suffix(item.item_name@, "_pu"@)
    &&& (item.component is None || item.component == Some(Component::Main))
    &&& item.invalidated_by_other_package != Some(true)
    &&& item.missing_builds is None
}

/// The rebuild that an item calls for, if any, given the source names with
/// "Multi-Arch: same" binaries.
pub open spec fn rebuild_for(item: ExcusesItem, ma_same: Set<Seq<char>>) -> Option<RebuildView> {
    if !passes_item_gates(item) || item.policy_info is None {
        None
    } else {
        let p = item.policy_info->0;
        if !binnmu_required(p) || p.builtonbuildd is None {
            None
        } else {
            let archs = unofficial_architectures(p.builtonbuildd->0.signed_by@);
            if archs.len() == 0 || archs.contains(Architecture::All) {
                None
            } else if ma_same.contains(item.source@) {
                Some((item.source@, item.new_version@, None))
            } else {
                Some((item.source@, item.new_version@, Some(archs)))
            }
        }
    }
}

/// The rebuilds that the items call for, in the order of the items.
pub open spec fn rebuilds_for(items: Seq<ExcusesItem>, ma_same: Set<Seq<char>>) -> Seq<
    RebuildView,
>
    decreases items.len(),
{
    if items.len() == 0 {
        Seq::empty()
    } else {
        let rest = rebuilds_for(items.drop_last(), ma_same);
        match rebuild_for(items.last(), ma_same) {
            Some(r) => rest.push(r),
            None => rest,
        }
    }
}

/// Decides whether a rebuild would help the item migrate.
pub fn check_if_binnmu_required(policy_info: &PolicyInfo) -> (r: bool)
    ensures
        r == binnmu_required(*policy_info),
{
    if let Some(b) = &policy_info.builtonbuildd {
        if b.verdict == Verdict::Pass {
            // nothing to do
            return false;
        }
    }
    if let Some(a) = &policy_info.age {
        let too_young = a.current_age < a.age_requirement / 2 && (a.current_age as u64) + 1
            < a.age_requirement as u64;
        if too_young {
            return false;
        }
    }
    // if the others do not pass, the item would not migrate even if rebuilt
    let mut i: usize = 0;
    while i < policy_info.extras.len()
        invariant
            i <= policy_info.extras@.len(),
            forall|j: int| 0 <= j < i ==> policy_info.extras@[j].1.verdict == Verdict::Pass,
        decreases policy_info.extras@.len() - i,
    {
        if policy_info.extras[i].1.verdict != Verdict::Pass {
            return false;
        }
        i = i + 1;
    }
    true
}

/// Lists the architectures whose binaries were not signed by the build daemons.
pub fn unofficial_architectures_of(b: &BuiltOnBuildd) -> (r: Vec<Architecture>)
    ensures
        r@ == unofficial_architectures(b.signed_by@),
        b.wf() ==> r@.no_duplicates(),
{
    proof {
        if b.wf() {
            lemma_unofficial_distinct(b.signed_by@);
        }
    }
    let mut archs: Vec<Architecture> = Vec::new();
    let mut i: usize = 0;
    while i < b.signed_by.len()
        invariant
            i <= b.signed_by@.len(),
            archs@ == unofficial_architectures(b.signed_by@.take(i as int)),
        decreases b.signed_by@.len() - i,
    {
        assert(b.signed_by@.take(i + 1).drop_last() =~= b.signed_by@.take(i as int));
        let (arch, signer) = &b.signed_by[i];
        let official = match signer {
            Some(s) => ends_with(s.as_str(), "@buildd.debian.org"),
            None => false,
        };
        if !official {
            archs.push(*arch);
        }
        i = i + 1;
    }
    assert(b.signed_by@.take(b.signed_by@.len() as int) =~= b.signed_by@);
    archs
}

fn contains_all(archs: &Vec<Architecture>) -> (r: bool)
    ensures
        r == archs@.contains(Architecture::All),
{
    let mut i: usize = 0;
    while i < archs.len()
        invariant
            i <= archs@.len(),
            forall|j: int| 0 <= j < i ==> archs@[j] != Architecture::All,
        decreases archs@.len() - i,
    {
        if archs[i] == Architecture::All {
            return true;
        }
        i = i + 1;
    }
    false
}

/// Whether the proposed version of the item is the one that already migrated.
fn is_same_as_migrated(item: &ExcusesItem) -> (r: bool)
    ensures
        r == same_as_migrated(*item),
{
    match (
        PackageVersion::parse(item.new_version.as_str()),
        PackageVersion::parse(item.old_version.as_str()),
    ) {
        (Ok(new), Ok(old)) => new == old,
        _ => false,
    }
}

/// The rebuild that one item calls for, if any.
pub fn rebuild_for_item(item: &ExcusesItem, source_packages: &SourcePackages) -> (r: Option<
    ToBinNMU,
>)
    ensures
        match r {
            Some(t) => rebuild_for(*item, source_packages@) == Some(t@),
            None => rebuild_for(*item, source_packages@) is None,
        },
{
    if str_eq(item.new_version.as_str(), "-") {
        // skip removals
        return None;
    }
    if PackageVersion::parse(item.new_version.as_str()).is_err() {
        // skip versions that cannot be read
        return None;
    }
    if is_same_as_migrated(item) {
        // skip binNMUs
        return None;
    }
    if ends_with(item.item_name.as_str(), "_pu") {
        // skip PU requests
        return None;
    }
    match item.component {
        Some(Component::Main) => {},
        None => {},
        _ => {
            // skip non-free and contrib
            return None;
        },
    }
    if let Some(true) = item.invalidated_by_other_package {
        // skip otherwise blocked packages
        return None;
    }
    if item.missing_builds.is_some() {
        // skip packages with missing builds
        return None;
    }
    let policy_info = match &item.policy_info {
        Some(p) => p,
        None => {
            return None;
        },
    };
    if !check_if_binnmu_required(policy_info) {
        return None;
    }
    let b = match &policy_info.builtonbuildd {
        Some(b) => b,
        None => {
            return None;
        },
    };
    let archs = unofficial_architectures_of(b);
    if archs.len() == 0 || contains_all(&archs) {
        // cannot binNMU arch:all
        return None;
    }
    let architectures = if source_packages.is_ma_same(item.source.as_str()) {
        RebuildOn::Any
    } else {
        RebuildOn::Architectures(archs)
    };
    Some(ToBinNMU { source: item.source.clone(), version: item.new_version.clone(), architectures })
}

/// The rebuilds that the excuses call for, in the order of their items.
pub fn binnmus_for(excuses: &Excuses, source_packages: &SourcePackages) -> (r: Vec<ToBinNMU>)
    ensures
        r@.map_values(|t: ToBinNMU| t@) == rebuilds_for(excuses.sources@, source_packages@),
{
    let items = &excuses.sources;
    let mut out: Vec<ToBinNMU> = Vec::new();
    let mut i: usize = 0;
    while i < items.len()
        invariant
            i <= items@.len(),
            out@.map_values(|t: ToBinNMU| t@) == rebuilds_for(
                items@.take(i as int),
                source_packages@,
            ),
        decreases items@.len() - i,
    {
        assert(items@.take(i + 1).drop_last() =~= items@.take(i as int));
        match rebuild_for_item(&items[i], source_packages) {
            Some(t) => {
                out.push(t);
            },
            None => {},
        }
        assert(out@.map_values(|t: ToBinNMU| t@) =~= rebuilds_for(
            items@.take(i + 1),
            source_packages@,
        ));
        i = i + 1;
    }
    assert(items@.take(items@.len() as int) =~= items@);
    out
}

/// The architecture tokens, separated by single spaces.
pub open spec fn joined_names(archs: Seq<Architecture>) -> Seq<char>
    decreases archs.len(),
{
    if archs.len() == 0 {
        Seq::empty()
    } else if archs.len() == 1 {
        architecture_name(archs[0])
    } else {
        joined_names(archs.drop_last()) + " "@ + architecture_name(archs.last())
    }
}

/// `ANY`, or the architecture tokens separated by spaces.
pub open spec fn architectures_text(a: Option<Seq<Architecture>>) -> Seq<char> {
    match a {
        Some(archs) => joined_names(archs),
        None => "ANY"@,
    }
}

/// The command that schedules a rebuild in unstable.
pub open spec fn nmu_command(r: RebuildView) -> Seq<char> {
    "nmu "@ + r.0 + "_"@ + r.1 + " . "@ + architectures_text(r.2)
        + " . unstable . -m \"Rebuild on buildd\""@
}

impl ToBinNMU {
    /// The command that schedules this rebuild in unstable.
    pub fn to_command(&self) -> (r: String)
        ensures
            r@ == nmu_command(self@),
    {
        let mut out = String::from_str("nmu ");
        out.append(self.source.as_str());
        out.append("_");
        out.append(self.version.as_str());
        out.append(" . ");
        match &self.architectures {
            RebuildOn::Any => {
                out.append("ANY");
            },
            RebuildOn::Architectures(archs) => {
                let ghost start = out@;
                let mut i: usize = 0;
                while i < archs.len()
                    invariant
                        i <= archs@.len(),
                        out@ == start + joined_names(archs@.take(i as int)),
                    decreases archs@.len() - i,
                {
                    let ghost before = out@;
                    assert(archs@.take(i + 1).drop_last() =~= archs@.take(i as int));
                    if i > 0 {
                        out.append(" ");
                    }
                    out.append(archs[i].as_str());
                    proof {
                        if i == 0 {
                            assert(joined_names(archs@.take(0)) =~= Seq::<char>::empty());
                            assert(archs@.take(1)[0] == archs@[0]);
                        }
                    }
                    assert(out@ =~= start + joined_names(archs@.take(i + 1)));
                    i = i + 1;
                }
                assert(archs@.take(archs@.len() as int) =~= archs@);
            },
        }
        out.append(" . unstable . -m \"Rebuild on buildd\"");
        out
    }
}

/// Leaving out an item that calls for no rebuild leaves the rebuilds of the
/// others as they were.
pub proof fn lemma_rebuilds_without(
    before: Seq<ExcusesItem>,
    item: ExcusesItem,
    after: Seq<ExcusesItem>,
    ma_same: Set<Seq<char>>,
)
    requires
        rebuild_for(item, ma_same) is None,
    ensures
        rebuilds_for(before + seq![item] + after, ma_same) == rebuilds_for(before + after, ma_same),
    decreases after.len(),
{
    if after.len() == 0 {
        assert(before + seq![item] + after =~= before.push(item));
        assert(before.push(item).drop_last() =~= before);
        assert(before + after =~= before);
    } else {
        lemma_rebuilds_without(before, item, after.drop_last(), ma_same);
        assert((before + seq![item] + after).drop_last() =~= before + seq![item]
            + after.drop_last());
        assert((before + after).drop_last() =~= before + after.drop_last());
    }
}

/// An item of the contrib or non-free component calls for no rebuild,
/// whatever else it holds, and leaves no trace in the rebuilds.
pub proof fn lemma_contrib_non_free_excluded(
    before: Seq<ExcusesItem>,
    item: ExcusesItem,
    after: Seq<ExcusesItem>,
    ma_same: Set<Seq<char>>,
)
    requires
        item.component == Some(Component::Contrib) || item.component == Some(Component::NonFree),
    ensures
        rebuild_for(item, ma_same) is None,
        rebuilds_for(before + seq![item] + after, ma_same) == rebuilds_for(before + after, ma_same),
{
    lemma_rebuilds_without(before, item, after, ma_same);
}

/// An item whose proposed version equals the version that already migrated
/// calls for no rebuild, and leaves no trace in the rebuilds.
pub proof fn lemma_unchanged_version_excluded(
    before: Seq<ExcusesItem>,
    item: ExcusesItem,
    after: Seq<ExcusesItem>,
    ma_same: Set<Seq<char>>,
)
    requires
        item.new_version@ == item.old_version@ || same_as_migrated(item),
    ensures
        rebuild_for(item, ma_same) is None,
        rebuilds_for(before + seq![item] + after, ma_same) == rebuilds_for(before + after, ma_same),
{
    lemma_rebuilds_without(before, item, after, ma_same);
}

/// Each architecture listed with a signer other than the build daemons is
/// among the unofficial architectures.
pub proof fn lemma_unofficial_listed(signed_by: Seq<(Architecture, Option<String>)>, i: int)
    requires
        0 <= i < signed_by.len(),
        !is_buildd_signer(signed_by[i].1),
    ensures
        unofficial_architectures(signed_by).contains(signed_by[i].0),
    decreases signed_by.len(),
{
    let rest = unofficial_architectures(signed_by.drop_last());
    if i == signed_by.len() - 1 {
        assert(unofficial_architectures(signed_by) == rest.push(signed_by[i].0));
        assert(unofficial_architectures(signed_by).last() == signed_by[i].0);
    } else {
        lemma_unofficial_listed(signed_by.drop_last(), i);
        let k = choose|k: int| 0 <= k < rest.len() && rest[k] == signed_by[i].0;
        if !is_buildd_signer(signed_by.last().1) {
            assert(rest.push(signed_by.last().0)[k] == rest[k]);
        }
    }
}

/// Each unofficial architecture is listed in the signer list.
pub proof fn lemma_unofficial_from_list(signed_by: Seq<(Architecture, Option<String>)>, a: Architecture)
    requires
        unofficial_architectures(signed_by).contains(a),
    ensures
        exists|i: int| 0 <= i < signed_by.len() && signed_by[i].0 == a,
    decreases signed_by.len(),
{
    let prev = signed_by.drop_last();
    let rest = unofficial_architectures(prev);
    if rest.contains(a) {
        lemma_unofficial_from_list(prev, a);
        let i = choose|i: int| 0 <= i < prev.len() && prev[i].0 == a;
        assert(signed_by[i] == prev[i]);
    } else {
        assert(signed_by[signed_by.len() - 1].0 == a);
    }
}

/// A signer list that names each architecture once yields each unofficial
/// architecture once.
pub proof fn lemma_unofficial_distinct(signed_by: Seq<(Architecture, Option<String>)>)
    requires
        forall|i: int, j: int|
            0 <= i < j < signed_by.len() ==> signed_by[i].0 != signed_by[j].0,
    ensures
        unofficial_architectures(signed_by).no_duplicates(),
    decreases signed_by.len(),
{
    if signed_by.len() > 0 {
        let prev = signed_by.drop_last();
        assert forall|i: int, j: int| 0 <= i < j < prev.len() implies prev[i].0 != prev[j].0 by {
            assert(prev[i] == signed_by[i] && prev[j] == signed_by[j]);
        }
        lemma_unofficial_distinct(prev);
        let rest = unofficial_architectures(prev);
        let last = signed_by.last().0;
        if !is_buildd_signer(signed_by.last().1) {
            if rest.contains(last) {
                lemma_unofficial_from_list(prev, last);
                let i = choose|i: int| 0 <= i < prev.len() && prev[i].0 == last;
                assert(signed_by[i] == prev[i]);
            }
            let r = rest.push(last);
            assert forall|i: int, j: int| 0 <= i < j < r.len() implies r[i] != r[j] by {
                if j == r.len() - 1 {
                    assert(rest[i] == r[i]);
                }
            }
        }
    }
}

/// An item whose architecture-independent binaries were not signed by the
/// build daemons calls for no rebuild, whatever the other architectures, and
/// leaves no trace in the rebuilds.
pub proof fn lemma_unofficial_all_excluded(
    before: Seq<ExcusesItem>,
    item: ExcusesItem,
    after: Seq<ExcusesItem>,
    ma_same: Set<Seq<char>>,
    i: int,
)
    requires
        item.policy_info is Some,
        item.policy_info->0.builtonbuildd is Some,
        0 <= i < item.policy_info->0.builtonbuildd->0.signed_by@.len(),
        item.policy_info->0.builtonbuildd->0.signed_by@[i].0 == Architecture::All,
        !is_buildd_signer(item.policy_info->0.builtonbuildd->0.signed_by@[i].1),
    ensures
        rebuild_for(item, ma_same) is None,
        rebuilds_for(before + seq![item] + after, ma_same) == rebuilds_for(before + after, ma_same),
{
    lemma_unofficial_listed(item.policy_info->0.builtonbuildd->0.signed_by@, i);
    lemma_rebuilds_without(before, item, after, ma_same);
}

/// For a source with "Multi-Arch: same" binaries, the rebuild, where there is
/// one, runs on any architecture; the same items call for a rebuild as when
/// the source is not known as such.
pub proof fn lemma_ma_same_rebuilds_anywhere(item: ExcusesItem, ma_same: Set<Seq<char>>)
    requires
        ma_same.contains(item.source@),
    ensures
        match rebuild_for(item, ma_same) {
            Some(r) => r.2 is None,
            None => true,
        },
        rebuild_for(item, ma_same) is Some <==> rebuild_for(item, Set::empty()) is Some,
{
}

} // verus!
