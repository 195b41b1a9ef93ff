//! The policy feed of the migration tool: one item per pending migration,
//! each with the verdicts of the policies that looked at it.
use vstd::prelude::*;

verus! {

/// A policy's verdict
#[derive(Clone, Copy, Debug, PartialEq, Eq, Structural)]
pub enum Verdict {
    /// Policy passed
    Pass,
    /// Policy passed due to a hint
    PassHinted,
    /// Rejected due to a block hint or because the upload requires explicit approval
    RejectedNeedsApproval,
    /// Rejected due to a permanent issue
    RejectedPermanently,
    /// Rejected due to a transient issue
    RejectedTemporarily,
    /// Rejected, but not able to determine if the issue is transient
    RejectedCannotDetermineIfPermanent,
}

/// A processor architecture of the release; `All` stands for
/// architecture-independent packages.
#[derive(Clone, Copy, Debug, PartialEq, Eq, Hash, Structural)]
pub enum Architecture {
    All,
    Amd64,
    Arm64,
    Armel,
    Armhf,
    I386,
    Mips64el,
    Mipsel,
    Ppc64el,
    S390x,
}

/// The lower-case token of an architecture.
pub open spec fn architecture_name(a: Architecture) -> Seq<char> {
    match a {
        Architecture::All => "all"@,
        Architecture::Amd64 => "amd64"@,
        Architecture::Arm64 => "arm64"@,
        Architecture::Armel => "armel"@,
        Architecture::Armhf => "armhf"@,
        Architecture::I386 => "i386"@,
        Architecture::Mips64el => "mips64el"@,
        Architecture::Mipsel => "mipsel"@,
        Architecture::Ppc64el => "ppc64el"@,
        Architecture::S390x => "s390x"@,
    }
}

impl Architecture {
    /// The lower-case token of the architecture.
    pub fn as_str(&self) -> (r: &'static str)
        ensures
            r@ == architecture_name(*self),
    {
        match self {
            Architecture::All => "all",
            Architecture::Amd64 => "amd64",
            Architecture::Arm64 => "arm64",
            Architecture::Armel => "armel",
            Architecture::Armhf => "armhf",
            Architecture::I386 => "i386",
            Architecture::Mips64el => "mips64el",
            Architecture::Mipsel => "mipsel",
            Architecture::Ppc64el => "ppc64el",
            Architecture::S390x => "s390x",
        }
    }

    /// The lower-case token of the architecture.
    pub fn to_string(&self) -> (r: String)
        ensures
            r@ == architecture_name(*self),
    {
        String::from_str(self.as_str())
    }
}

/// Archive component of a source package
#[derive(Clone, Copy, Debug, PartialEq, Eq, Structural)]
pub enum Component {
    Main,
    Contrib,
    NonFree,
}

/// Age policy info
#[derive(Debug)]
pub struct AgeInfo {
    /// The required age
    pub age_requirement: u32,
    /// The current age
    pub current_age: u32,
    /// The verdict
    pub verdict: Verdict,
}

/// Catch-all policy info
#[derive(Debug)]
pub struct UnspecfiedPolicyInfo {
    /// The verdict
    pub verdict: Verdict,
}

/// Built-on-buildd policy info
#[derive(Debug)]
pub struct BuiltOnBuildd {
    /// The signer of the binaries of each architecture, in the order of the feed
    pub signed_by: Vec<(Architecture, Option<String>)>,
    /// The verdict
    pub verdict: Verdict,
}

impl BuiltOnBuildd {
    /// Each architecture is listed at most once.
    pub open spec fn wf(&self) -> bool {
        forall|i: int, j: int|
            0 <= i < j < self.signed_by@.len() ==> self.signed_by@[i].0 != self.signed_by@[j].0
    }
}

/// Collected policy infos
#[derive(Debug)]
pub struct PolicyInfo {
    /// The age policy
    pub age: Option<AgeInfo>,
    /// The built-on-buildd policy
    pub builtonbuildd: Option<BuiltOnBuildd>,
    /// All remaining policies, by name
    pub extras: Vec<(String, UnspecfiedPolicyInfo)>,
}

/// List of missing builds
#[derive(Debug)]
pub struct MissingBuilds {
    /// Architectures where builds are missing
    pub on_architectures: Vec<Architecture>,
}

/// A source package's excuses
#[derive(Debug)]
pub struct ExcusesItem {
    /// Maintainer of the package
    pub maintainer: Option<String>,
    /// The item is a candidate for migration
    pub is_candidate: bool,
    /// Version in the source suite, i.e., the version to migrate
    pub new_version: String,
    /// Version in the target suite
    pub old_version: String,
    /// Migration item name
    pub item_name: String,
    /// Source package name
    pub source: String,
    /// Migration is blocked by another package
    pub invalidated_by_other_package: Option<bool>,
    /// Component of the source package
    pub component: Option<Component>,
    /// Missing builds
    pub missing_builds: Option<MissingBuilds>,
    /// Policy info
    pub policy_info: Option<PolicyInfo>,
    /// The excuses
    pub excuses: Vec<String>,
}

/// The excuses.
#[derive(Debug)]
pub struct Excuses {
    /// Date of the run that produced the feed, as written there
    pub generated_date: String,
    /// All excuses
    pub sources: Vec<ExcusesItem>,
}

} // verus!
