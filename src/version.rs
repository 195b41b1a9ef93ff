//! Versions of archive packages: `[epoch:]upstream-version[-revision]`.
use std::cmp::Ordering;

use vstd::prelude::*;

use crate::order::{compare_component, compare_components, is_digit, sign};
use crate::text::{
    alphanumeric, find_last, is_alphanumeric, last_index_of, lemma_last_index_of,
    lemma_last_index_of_at,
};

verus! {

/// Why a set of version components is not a valid version.
#[derive(Debug, Clone, Copy, PartialEq, Eq, Structural)]
pub enum VersionError {
    /// Epoch is invalid
    InvalidEpoch,
    /// Upstream version is invalid
    InvalidUpstreamVersion,
    /// Debian revision is invalid
    InvalidDebianRevision,
}

/// A short description of a version error.
pub open spec fn version_error_message(e: VersionError) -> Seq<char> {
    match e {
        VersionError::InvalidEpoch => "invalid epoch"@,
        VersionError::InvalidUpstreamVersion => "invalid upstream version"@,
        VersionError::InvalidDebianRevision => "invalid Debian revision"@,
    }
}

impl VersionError {
    /// A short description of the error.
    pub fn to_string(&self) -> (r: String)
        ensures
            r@ == version_error_message(*self),
    {
        let s = match self {
            VersionError::InvalidEpoch => "invalid epoch",
            VersionError::InvalidUpstreamVersion => "invalid upstream version",
            VersionError::InvalidDebianRevision => "invalid Debian revision",
        };
        String::from_str(s)
    }
}

/// Why a text could not be read.
#[derive(Debug, Clone, Copy, PartialEq, Eq, Structural)]
pub enum ParseError {
    /// The text is not a valid version
    InvalidVersion(VersionError),
}

/// The components of a version: epoch, upstream version and revision.
pub type VersionParts = (Option<u32>, Seq<char>, Option<Seq<char>>);

/// Characters allowed in an upstream version.
pub open spec fn upstream_char(c: char) -> bool {
    alphanumeric(c) || c == '.' || c == '+' || c == '-' || c == '~'
}

/// Characters allowed in a revision.
pub open spec fn revision_char(c: char) -> bool {
    alphanumeric(c) || c == '.' || c == '+' || c == '~'
}

pub open spec fn valid_upstream(s: Seq<char>) -> bool {
    s.len() > 0 && forall|i: int| 0 <= i < s.len() ==> upstream_char(s[i])
}

pub open spec fn valid_revision(s: Seq<char>) -> bool {
    s.len() > 0 && forall|i: int| 0 <= i < s.len() ==> revision_char(s[i])
}

/// The version made of the given components, or the first component that is invalid.
pub open spec fn make_version(
    epoch: Option<u32>,
    upstream: Seq<char>,
    revision: Option<Seq<char>>,
) -> Result<VersionParts, VersionError> {
    if !valid_upstream(upstream) {
        Err(VersionError::InvalidUpstreamVersion)
    } else if revision is Some && !valid_revision(revision->0) {
        Err(VersionError::InvalidDebianRevision)
    } else {
        Ok((epoch, upstream, revision))
    }
}

pub open spec fn all_digits(s: Seq<char>) -> bool {
    forall|i: int| 0 <= i < s.len() ==> is_digit(s[i])
}

pub open spec fn digit_value(c: char) -> nat {
    (c as int - '0' as int) as nat
}

/// The number that a string of decimal digits denotes.
pub open spec fn digits_value(s: Seq<char>) -> nat
    decreases s.len(),
{
    if s.len() == 0 {
        0
    } else {
        digits_value(s.drop_last()) * 10 + digit_value(s.last())
    }
}

/// The number written by an optional `+` and one or more decimal digits, where it fits in `u32`.
pub open spec fn epoch_value(s: Seq<char>) -> Option<u32> {
    let d = if s.len() > 0 && s[0] == '+' { s.drop_first() } else { s };
    if d.len() > 0 && all_digits(d) && digits_value(d) <= u32::MAX {
        Some(digits_value(d) as u32)
    } else {
        None
    }
}

/// The reading of the text after the epoch: the revision after the last
/// `-`, the upstream version before it.
pub open spec fn split_revision(epoch: Option<u32>, rest: Seq<char>) -> Result<
    VersionParts,
    VersionError,
> {
    let j = last_index_of(rest, '-');
    if j >= 0 {
        make_version(epoch, rest.take(j), Some(rest.skip(j + 1)))
    } else {
        make_version(epoch, rest, None)
    }
}

/// The reading of a version string: the epoch before the last `:`, the
/// revision after the last `-` of what follows, the upstream version between.
pub open spec fn parse_version(s: Seq<char>) -> Result<VersionParts, VersionError> {
    let k = last_index_of(s, ':');
    if k >= 0 && epoch_value(s.take(k)) is None {
        Err(VersionError::InvalidEpoch)
    } else {
        let epoch = if k >= 0 { Some(epoch_value(s.take(k))->0) } else { None };
        split_revision(epoch, s.skip(k + 1))
    }
}

pub open spec fn digit_char(d: nat) -> char {
    if d == 0 { '0' }
    else if d == 1 { '1' }
    else if d == 2 { '2' }
    else if d == 3 { '3' }
    else if d == 4 { '4' }
    else if d == 5 { '5' }
    else if d == 6 { '6' }
    else if d == 7 { '7' }
    else if d == 8 { '8' }
    else { '9' }
}

/// The decimal text of `n`, without leading zeros.
pub open spec fn decimal(n: nat) -> Seq<char>
    decreases n,
{
    if n < 10 {
        seq![digit_char(n)]
    } else {
        decimal(n / 10).push(digit_char(n % 10))
    }
}

/// The canonical text of a version: `[epoch:]upstream[-revision]`.
pub open spec fn render_version(v: VersionParts) -> Seq<char> {
    let e = match v.0 {
        Some(n) => decimal(n as nat) + seq![':'],
        None => Seq::empty(),
    };
    let r = match v.2 {
        Some(rev) => seq!['-'] + rev,
        None => Seq::empty(),
    };
    e + v.1 + r
}

/// Equality of versions: a missing epoch counts as 0.
pub open spec fn same_version(a: VersionParts, b: VersionParts) -> bool {
    (match a.0 { Some(e) => e, None => 0u32 }) == (match b.0 { Some(e) => e, None => 0u32 })
        && a.1 == b.1 && a.2 == b.2
}

/// A version number of a Debian package
///
/// Version numbers consists of three components:
/// * an optional epoch
/// * the upstream version
/// * an optional debian revision
#[derive(Debug)]
pub struct PackageVersion {
    epoch: Option<u32>,
    upstream_version: String,
    debian_revision: Option<String>,
}

impl View for PackageVersion {
    type V = VersionParts;

    closed spec fn view(&self) -> VersionParts {
        (
            self.epoch,
            self.upstream_version@,
            match self.debian_revision {
                Some(r) => Some(r@),
                None => None,
            },
        )
    }
}

fn valid_chars(s: &str, allow_hyphen: bool) -> (r: bool)
    ensures
        r == (forall|i: int|
            0 <= i < s@.len() ==> #[trigger] alphanumeric(s@[i]) || s@[i] == '.' || s@[i] == '+'
                || s@[i] == '~' || (allow_hyphen && s@[i] == '-')),
{
    let n = s.unicode_len();
    let mut i: usize = 0;
    while i < n
        invariant
            n == s@.len(),
            i <= n,
            forall|j: int|
                0 <= j < i ==> #[trigger] alphanumeric(s@[j]) || s@[j] == '.' || s@[j] == '+'
                    || s@[j] == '~' || (allow_hyphen && s@[j] == '-'),
        decreases n - i,
    {
        let c = s.get_char(i);
        if !(is_alphanumeric(c) || c == '.' || c == '+' || c == '~' || (allow_hyphen && c == '-')) {
            return false;
        }
        i = i + 1;
    }
    true
}

/// Reads an epoch: an optional `+` and decimal digits whose value fits in `u32`.
fn parse_epoch(s: &str) -> (r: Option<u32>)
    ensures
        r == epoch_value(s@),
{
    let n = s.unicode_len();
    let start: usize = if n > 0 && s.get_char(0) == '+' { 1 } else { 0 };
    let ghost d = if s@.len() > 0 && s@[0] == '+' { s@.drop_first() } else { s@ };
    assert(d =~= s@.skip(start as int));
    if start == n {
        return None;
    }
    let mut acc: u64 = 0;
    let mut i: usize = start;
    let bound: u64 = 0x1_0000_0000;
    while i < n
        invariant
            n == s@.len(),
            start <= i <= n,
            d =~= s@.skip(start as int),
            d == (if s@.len() > 0 && s@[0] == '+' { s@.drop_first() } else { s@ }),
            all_digits(s@.subrange(start as int, i as int)),
            acc <= bound,
            bound == 0x1_0000_0000u64,
            acc as nat == if digits_value(s@.subrange(start as int, i as int)) < bound {
                digits_value(s@.subrange(start as int, i as int))
            } else {
                bound as nat
            },
        decreases n - i,
    {
        let c = s.get_char(i);
        if !('0' <= c && c <= '9') {
            assert(s@.subrange(start as int, n as int) =~= d);
            assert(d[i - start] == c);
            assert(!is_digit(d[i - start]));
            return None;
        }
        let ghost prev = s@.subrange(start as int, i as int);
        let ghost next = s@.subrange(start as int, i + 1);
        assert(next.drop_last() =~= prev);
        let dv = (c as u32 - '0' as u32) as u64;
        assert(dv == digit_value(c));
        let v = acc * 10 + dv;
        assert(digits_value(next) == digits_value(prev) * 10 + dv);
        assert(digits_value(prev) * 10 + dv >= digits_value(prev)) by (nonlinear_arith);
        assert(bound * 10 + dv >= bound);
        acc = if v < bound { v } else { bound };
        assert(all_digits(next)) by {
            assert forall|j: int| 0 <= j < next.len() implies is_digit(next[j]) by {
                if j < prev.len() {
                    assert(next[j] == prev[j]);
                }
            }
        }
        i = i + 1;
    }
    assert(s@.subrange(start as int, n as int) =~= d);
    if acc < bound {
        Some(acc as u32)
    } else {
        None
    }
}

impl PackageVersion {
    /// Create a new version struct from the individual components.
    pub fn new(epoch: Option<u32>, upstream_version: &str, debian_revision: Option<&str>) -> (r:
        Result<Self, VersionError>)
        ensures
            match r {
                Ok(v) => make_version(
                    epoch,
                    upstream_version@,
                    match debian_revision {
                        Some(d) => Some(d@),
                        None => None,
                    },
                ) == Ok::<VersionParts, VersionError>(v@),
                Err(e) => make_version(
                    epoch,
                    upstream_version@,
                    match debian_revision {
                        Some(d) => Some(d@),
                        None => None,
                    },
                ) == Err::<VersionParts, VersionError>(e),
            },
    {
        if upstream_version.unicode_len() == 0 || !valid_chars(upstream_version, true) {
            return Err(VersionError::InvalidUpstreamVersion);
        }
        if let Some(rev) = debian_revision {
            if rev.unicode_len() == 0 || !valid_chars(rev, false) {
                return Err(VersionError::InvalidDebianRevision);
            }
        }
        let debian_revision = match debian_revision {
            Some(rev) => Some(String::from_str(rev)),
            None => None,
        };
        Ok(PackageVersion { epoch, upstream_version: String::from_str(upstream_version), debian_revision })
    }

    /// The epoch, if the version has one.
    pub fn epoch(&self) -> (r: Option<u32>)
        ensures
            r == self@.0,
    {
        self.epoch
    }

    /// The upstream version.
    pub fn upstream_version(&self) -> (r: &str)
        ensures
            r@ == self@.1,
    {
        self.upstream_version.as_str()
    }

    /// The Debian revision, if the version has one.
    pub fn debian_revision(&self) -> (r: Option<&str>)
        ensures
            match r {
                Some(d) => self@.2 == Some(d@),
                None => self@.2 is None,
            },
    {
        match &self.debian_revision {
            Some(d) => Some(d.as_str()),
            None => None,
        }
    }

    /// Returns whether version is a native version, i.e., there is no revision.
    pub fn is_native(&self) -> (r: bool)
        ensures
            r == (self@.2 is None),
    {
        self.debian_revision.is_none()
    }

    /// Return whether the version has an epoch.
    pub fn has_epoch(&self) -> (r: bool)
        ensures
            r == (self@.0 is Some),
    {
        self.epoch.is_some()
    }

    /// Return epoch of 0 if none set.
    pub fn epoch_or_0(&self) -> (r: u32)
        ensures
            r == match self@.0 {
                Some(e) => e,
                None => 0u32,
            },
    {
        match self.epoch {
            Some(e) => e,
            None => 0,
        }
    }
}

/// Appends the decimal text of `n`.
fn append_decimal(out: &mut String, n: u32)
    ensures
        final(out)@ == old(out)@ + decimal(n as nat),
    decreases n,
{
    if n >= 10 {
        append_decimal(out, n / 10);
    }
    let d = (n % 10) as usize;
    let digits = "0123456789";
    proof {
        reveal_strlit("0123456789");
    }
    out.append(digits.substring_char(d, d + 1));
    proof {
        let c = digits@.subrange(d as int, d + 1);
        assert(c =~= seq![digit_char(d as nat)]);
        if n < 10 {
            assert(decimal(n as nat) =~= seq![digit_char(n as nat)]);
        }
    }
    assert(final(out)@ =~= old(out)@ + decimal(n as nat));
}

fn option_str_eq(a: &Option<String>, b: &Option<String>) -> (r: bool)
    ensures
        r == (match a {
            Some(x) => Some(x@),
            None => None,
        } == match b {
            Some(y) => Some(y@),
            None => None,
        }),
{
    match (a, b) {
        (Some(x), Some(y)) => *x == *y,
        (None, None) => true,
        _ => false,
    }
}

impl PackageVersion {
    /// Reads a version string: the epoch before the last `:`, the revision
    /// after the last `-` of the rest, and the upstream version in between.
    pub fn parse(value: &str) -> (r: Result<PackageVersion, ParseError>)
        ensures
            match r {
                Ok(v) => parse_version(value@) == Ok::<VersionParts, VersionError>(v@),
                Err(ParseError::InvalidVersion(e)) => parse_version(value@) == Err::<
                    VersionParts,
                    VersionError,
                >(e),
            },
    {
        let n = value.unicode_len();
        let k = find_last(value, ':');
        let mut epoch: Option<u32> = None;
        let mut rest: &str = value;
        if let Some(k) = k {
            let e = parse_epoch(value.substring_char(0, k));
            assert(value@.subrange(0, k as int) =~= value@.take(k as int));
            match e {
                None => {
                    return Err(ParseError::InvalidVersion(VersionError::InvalidEpoch));
                },
                Some(e) => {
                    epoch = Some(e);
                    rest = value.substring_char(k + 1, n);
                    assert(rest@ =~= value@.skip(k + 1));
                },
            }
        } else {
            assert(value@.skip(0) =~= value@);
        }
        let m = rest.unicode_len();
        let made = match find_last(rest, '-') {
            Some(j) => {
                let up = rest.substring_char(0, j);
                let rev = rest.substring_char(j + 1, m);
                assert(up@ =~= rest@.take(j as int));
                assert(rev@ =~= rest@.skip(j + 1));
                PackageVersion::new(epoch, up, Some(rev))
            },
            None => PackageVersion::new(epoch, rest, None),
        };
        match made {
            Ok(v) => Ok(v),
            Err(e) => Err(ParseError::InvalidVersion(e)),
        }
    }

    /// The canonical text of the version: `[epoch:]upstream[-revision]`.
    pub fn to_string(&self) -> (r: String)
        ensures
            r@ == render_version(self@),
    {
        let mut out = String::new();
        if let Some(e) = self.epoch {
            append_decimal(&mut out, e);
            out.append(":");
        }
        out.append(self.upstream_version.as_str());
        if let Some(rev) = &self.debian_revision {
            out.append("-");
            out.append(rev.as_str());
        }
        proof {
            reveal_strlit(":");
            reveal_strlit("-");
        }
        assert(out@ =~= render_version(self@));
        out
    }
}

impl<'a> TryFrom<&'a str> for PackageVersion {
    type Error = ParseError;

    fn try_from(value: &'a str) -> (r: Result<PackageVersion, ParseError>) {
        PackageVersion::parse(value)
    }
}

impl<'a> vstd::std_specs::convert::TryFromSpecImpl<&'a str> for PackageVersion {
    open spec fn obeys_try_from_spec() -> bool {
        false
    }

    open spec fn try_from_spec(v: &'a str) -> Result<PackageVersion, ParseError> {
        Err(ParseError::InvalidVersion(VersionError::InvalidEpoch))
    }
}

impl PartialEq for PackageVersion {
    fn eq(&self, other: &PackageVersion) -> (r: bool) {
        self.epoch_or_0() == other.epoch_or_0() && self.upstream_version == other.upstream_version
            && option_str_eq(&self.debian_revision, &other.debian_revision)
    }
}

impl vstd::std_specs::cmp::PartialEqSpecImpl for PackageVersion {
    open spec fn obeys_eq_spec() -> bool {
        true
    }

    open spec fn eq_spec(&self, other: &PackageVersion) -> bool {
        same_version(self@, other@)
    }
}

/// The revision, or the empty text for a native version.
pub open spec fn revision_or_empty(r: Option<Seq<char>>) -> Seq<char> {
    match r {
        Some(rev) => rev,
        None => Seq::empty(),
    }
}

/// The order of versions, -1, 0 or 1: by epoch (missing counts as 0), then
/// upstream version, then revision (missing counts as empty).
pub open spec fn compare_versions(a: VersionParts, b: VersionParts) -> int {
    let ea = match a.0 { Some(e) => e as int, None => 0 };
    let eb = match b.0 { Some(e) => e as int, None => 0 };
    if ea != eb {
        sign(ea - eb)
    } else if compare_component(a.1, b.1) != 0 {
        compare_component(a.1, b.1)
    } else {
        compare_component(revision_or_empty(a.2), revision_or_empty(b.2))
    }
}

/// How two versions compare: equal versions are equal; versions that the
/// order cannot tell apart but that are written differently (`1.0` and
/// `1.00`) are not comparable.
pub open spec fn version_partial_cmp(a: VersionParts, b: VersionParts) -> Option<Ordering> {
    if same_version(a, b) {
        Some(Ordering::Equal)
    } else if compare_versions(a, b) < 0 {
        Some(Ordering::Less)
    } else if compare_versions(a, b) > 0 {
        Some(Ordering::Greater)
    } else {
        None
    }
}

impl PackageVersion {
    /// Compares two versions: -1, 0 or 1.
    pub fn compare(&self, other: &PackageVersion) -> (r: i8)
        ensures
            r == compare_versions(self@, other@),
    {
        let ea = self.epoch_or_0();
        let eb = other.epoch_or_0();
        if ea != eb {
            return if ea < eb {
                -1
            } else {
                1
            };
        }
        let c = compare_components(self.upstream_version.as_str(), other.upstream_version.as_str());
        if c != 0 {
            return c;
        }
        let ra: &str = match &self.debian_revision {
            Some(r) => r.as_str(),
            None => "",
        };
        let rb: &str = match &other.debian_revision {
            Some(r) => r.as_str(),
            None => "",
        };
        proof {
            reveal_strlit("");
        }
        assert(ra@ =~= revision_or_empty(self@.2));
        assert(rb@ =~= revision_or_empty(other@.2));
        compare_components(ra, rb)
    }
}

impl PartialOrd for PackageVersion {
    fn partial_cmp(&self, other: &PackageVersion) -> (r: Option<Ordering>) {
        if self == other {
            return Some(Ordering::Equal);
        }
        let c = self.compare(other);
        if c < 0 {
            Some(Ordering::Less)
        } else if c > 0 {
            Some(Ordering::Greater)
        } else {
            None
        }
    }
}

impl vstd::std_specs::cmp::PartialOrdSpecImpl for PackageVersion {
    open spec fn obeys_partial_cmp_spec() -> bool {
        true
    }

    open spec fn partial_cmp_spec(&self, other: &PackageVersion) -> Option<Ordering> {
        version_partial_cmp(self@, other@)
    }
}

impl Eq for PackageVersion {

}

proof fn lemma_digit_char(d: nat)
    requires
        d < 10,
    ensures
        is_digit(digit_char(d)),
        digit_value(digit_char(d)) == d,
{
}

/// The decimal text of `n` is a non-empty run of digits that denotes `n`.
pub proof fn lemma_decimal(n: nat)
    ensures
        decimal(n).len() > 0,
        all_digits(decimal(n)),
        digits_value(decimal(n)) == n,
    decreases n,
{
    lemma_digit_char(n % 10);
    if n < 10 {
        assert(decimal(n).drop_last() =~= Seq::<char>::empty());
        assert(digits_value(Seq::<char>::empty()) == 0);
        assert(decimal(n).last() == digit_char(n));
    } else {
        lemma_decimal(n / 10);
        let d = decimal(n);
        assert(d.drop_last() =~= decimal(n / 10));
        assert(digits_value(d) == (n / 10) * 10 + n % 10);
        assert forall|i: int| 0 <= i < d.len() implies is_digit(d[i]) by {
            if i < d.len() - 1 {
                assert(d[i] == decimal(n / 10)[i]);
            }
        }
    }
}

pub open spec fn lacks(s: Seq<char>, c: char) -> bool {
    forall|i: int| 0 <= i < s.len() ==> s[i] != c
}

/// The upstream version and revision of a parsed version hold no `:`; the
/// revision holds no `-`, nor does the upstream version of a native one.
proof fn lemma_parsed_parts(s: Seq<char>)
    requires
        parse_version(s) is Ok,
    ensures
        lacks(parse_version(s)->Ok_0.1, ':'),
        parse_version(s)->Ok_0.2 is Some ==> lacks(parse_version(s)->Ok_0.2->0, ':') && lacks(
            parse_version(s)->Ok_0.2->0,
            '-',
        ),
        parse_version(s)->Ok_0.2 is None ==> lacks(parse_version(s)->Ok_0.1, '-'),
        make_version(parse_version(s)->Ok_0.0, parse_version(s)->Ok_0.1, parse_version(s)->Ok_0.2)
            == parse_version(s),
{
    let k = last_index_of(s, ':');
    lemma_last_index_of(s, ':');
    let rest = s.skip(k + 1);
    assert forall|i: int| 0 <= i < rest.len() implies rest[i] != ':' by {
        assert(rest[i] == s[k + 1 + i]);
    }
    let j = last_index_of(rest, '-');
    lemma_last_index_of(rest, '-');
    if j >= 0 {
        let up = rest.take(j);
        let rev = rest.skip(j + 1);
        assert forall|i: int| 0 <= i < up.len() implies up[i] != ':' by {
            assert(up[i] == rest[i]);
        }
        assert forall|i: int| 0 <= i < rev.len() implies rev[i] != ':' && rev[i] != '-' by {
            assert(rev[i] == rest[j + 1 + i]);
        }
    }
}

/// Splitting the upstream version and revision, joined by `-`, gives them back.
proof fn lemma_split_joined(v: VersionParts)
    requires
        make_version(v.0, v.1, v.2) == Ok::<VersionParts, VersionError>(v),
        v.2 is Some ==> lacks(v.2->0, '-'),
        v.2 is None ==> lacks(v.1, '-'),
    ensures
        split_revision(
            v.0,
            v.1 + match v.2 {
                Some(rev) => seq!['-'] + rev,
                None => Seq::<char>::empty(),
            },
        ) == Ok::<VersionParts, VersionError>(v),
{
    let up = v.1;
    if let Some(rev) = v.2 {
        let tail = up + seq!['-'] + rev;
        assert(up + (seq!['-'] + rev) =~= tail);
        assert(tail[up.len() as int] == '-');
        assert forall|i: int| up.len() < i < tail.len() implies tail[i] != '-' by {
            assert(tail[i] == rev[i - up.len() - 1]);
        }
        lemma_last_index_of_at(tail, '-', up.len() as int);
        assert(tail.take(up.len() as int) =~= up);
        assert(tail.skip(up.len() + 1 as int) =~= rev);
    } else {
        assert(up + Seq::<char>::empty() =~= up);
        lemma_last_index_of_at(up, '-', -1);
    }
}

/// Parsing the text of valid components whose separators cannot be confused
/// gives back the components.
proof fn lemma_parse_rendered(v: VersionParts)
    requires
        make_version(v.0, v.1, v.2) == Ok::<VersionParts, VersionError>(v),
        lacks(v.1, ':'),
        v.2 is Some ==> lacks(v.2->0, ':') && lacks(v.2->0, '-'),
        v.2 is None ==> lacks(v.1, '-'),
    ensures
        parse_version(render_version(v)) == Ok::<VersionParts, VersionError>(v),
{
    let up = v.1;
    let e = match v.0 {
        Some(n) => decimal(n as nat) + seq![':'],
        None => Seq::<char>::empty(),
    };
    let r = match v.2 {
        Some(rev) => seq!['-'] + rev,
        None => Seq::<char>::empty(),
    };
    let t = render_version(v);
    let tail = up + r;
    assert(t =~= e + tail);
    assert(lacks(tail, ':')) by {
        assert forall|i: int| 0 <= i < tail.len() implies tail[i] != ':' by {
            if i > up.len() {
                assert(tail[i] == v.2->0[i - up.len() - 1]);
            }
        }
    }
    let k2 = e.len() - 1;
    assert forall|i: int| k2 < i < t.len() implies t[i] != ':' by {
        assert(t[i] == tail[i - e.len()]);
    }
    lemma_last_index_of_at(t, ':', k2);
    if let Some(n) = v.0 {
        lemma_decimal(n as nat);
        assert(t.take(k2) =~= decimal(n as nat));
        assert(epoch_value(t.take(k2)) == Some(n));
    }
    assert(t.skip(k2 + 1) =~= tail);
    lemma_split_joined(v);
}

/// Rendering a parsed version and parsing the text again gives back the
/// same components.
pub proof fn lemma_render_then_parse(s: Seq<char>)
    requires
        parse_version(s) is Ok,
    ensures
        parse_version(render_version(parse_version(s)->Ok_0)) == parse_version(s),
{
    lemma_parsed_parts(s);
    lemma_parse_rendered(parse_version(s)->Ok_0);
}

/// An epoch of 0 reads the same as no epoch at all.
pub proof fn lemma_zero_epoch(s: Seq<char>)
    requires
        lacks(s, ':'),
    ensures
        match (parse_version(seq!['0', ':'] + s), parse_version(s)) {
            (Ok(a), Ok(b)) => same_version(a, b),
            (Err(x), Err(y)) => x == y,
            _ => false,
        },
{
    let t = seq!['0', ':'] + s;
    assert forall|i: int| 1 < i < t.len() implies t[i] != ':' by {
        assert(t[i] == s[i - 2]);
    }
    lemma_last_index_of_at(t, ':', 1);
    lemma_decimal(0);
    assert(t.take(1) =~= decimal(0));
    assert(epoch_value(t.take(1)) == Some(0u32));
    assert(t.skip(2) =~= s);
    lemma_last_index_of_at(s, ':', -1);
    assert(s.skip(0) =~= s);
}

} // verus!
