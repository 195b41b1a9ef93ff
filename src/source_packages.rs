//! The source packages whose binaries are co-installable across
//! architectures ("Multi-Arch: same"), collected from binary package indices.
use vstd::hash_set::StringHashSet;
use vstd::prelude::*;

use crate::text::{first_word, first_word_of, str_eq};

verus! {

/// One paragraph of a binary package index; an absent field is empty.
#[derive(Debug, Clone, PartialEq, Eq)]
pub struct BinaryPackage {
    /// The `Source` field, possibly followed by a version in parentheses
    pub source: String,
    /// The `Package` field
    pub package: String,
    /// The `Multi-Arch` field
    pub multi_arch: String,
}

/// Whether the binary package declares `Multi-Arch: same`.
pub open spec fn declares_ma_same(p: BinaryPackage) -> bool {
    p.multi_arch@ == "same"@
}

/// The name of the source package a binary package was built from: the
/// first word of `Source`, or the package's own name where there is none.
pub open spec fn source_name(p: BinaryPackage) -> Seq<char> {
    if first_word(p.source@).len() > 0 {
        first_word(p.source@)
    } else {
        p.package@
    }
}

/// The source names of the "Multi-Arch: same" packages of one index.
pub open spec fn ma_same_sources_of(ps: Seq<BinaryPackage>) -> Set<Seq<char>>
    decreases ps.len(),
{
    if ps.len() == 0 {
        Set::empty()
    } else {
        let rest = ma_same_sources_of(ps.drop_last());
        if declares_ma_same(ps.last()) {
            rest.insert(source_name(ps.last()))
        } else {
            rest
        }
    }
}

/// The source names of the "Multi-Arch: same" packages of all indices.
pub open spec fn ma_same_sources_of_all(indices: Seq<Vec<BinaryPackage>>) -> Set<Seq<char>>
    decreases indices.len(),
{
    if indices.len() == 0 {
        Set::empty()
    } else {
        ma_same_sources_of_all(indices.drop_last()).union(ma_same_sources_of(indices.last()@))
    }
}

/// A source name is collected from several indices exactly when one of them
/// holds it: neither the order of the indices nor their grouping matters.
pub proof fn lemma_ma_same_sources_of_all(indices: Seq<Vec<BinaryPackage>>, name: Seq<char>)
    ensures
        ma_same_sources_of_all(indices).contains(name) <==> exists|k: int|
            0 <= k < indices.len() && #[trigger] ma_same_sources_of(indices[k]@).contains(name),
    decreases indices.len(),
{
    if indices.len() > 0 {
        let prev = indices.drop_last();
        lemma_ma_same_sources_of_all(prev, name);
        if ma_same_sources_of_all(prev).contains(name) {
            let k = choose|k: int|
                0 <= k < prev.len() && #[trigger] ma_same_sources_of(prev[k]@).contains(name);
            assert(indices[k] == prev[k]);
        }
        if exists|k: int|
            0 <= k < indices.len() && #[trigger] ma_same_sources_of(indices[k]@).contains(name) {
            let k = choose|k: int|
                0 <= k < indices.len() && #[trigger] ma_same_sources_of(indices[k]@).contains(name);
            if k < indices.len() - 1 {
                assert(indices[k] == prev[k]);
            }
        }
    }
}

fn source_name_of(p: &BinaryPackage) -> (r: String)
    ensures
        r@ == source_name(*p),
{
    let word = first_word_of(p.source.as_str());
    if word.unicode_len() > 0 {
        String::from_str(word)
    } else {
        p.package.clone()
    }
}

/// Set of source packages with "Multi-Arch: same" binaries
pub struct SourcePackages {
    ma_same_sources: StringHashSet,
}

impl View for SourcePackages {
    type V = Set<Seq<char>>;

    closed spec fn view(&self) -> Set<Seq<char>> {
        self.ma_same_sources@
    }
}

impl SourcePackages {
    /// Adds the source names of the "Multi-Arch: same" packages of one index.
    fn add_packages(set: &mut StringHashSet, packages: &Vec<BinaryPackage>)
        ensures
            final(set)@ == old(set)@.union(ma_same_sources_of(packages@)),
    {
        let mut i: usize = 0;
        while i < packages.len()
            invariant
                i <= packages@.len(),
                set@ == old(set)@.union(ma_same_sources_of(packages@.take(i as int))),
            decreases packages@.len() - i,
        {
            let p = &packages[i];
            assert(packages@.take(i + 1).drop_last() =~= packages@.take(i as int));
            if str_eq(p.multi_arch.as_str(), "same") {
                set.insert(source_name_of(p));
            }
            assert(set@ =~= old(set)@.union(ma_same_sources_of(packages@.take(i + 1))));
            i = i + 1;
        }
        assert(packages@.take(packages@.len() as int) =~= packages@);
    }

    /// Collects the source packages of one index.
    pub fn parse_packages(packages: &Vec<BinaryPackage>) -> (r: SourcePackages)
        ensures
            r@ == ma_same_sources_of(packages@),
    {
        let mut set = StringHashSet::new();
        Self::add_packages(&mut set, packages);
        assert(set@ =~= ma_same_sources_of(packages@));
        SourcePackages { ma_same_sources: set }
    }

    /// Collects the source packages of all indices, one per architecture.
    pub fn new(indices: &Vec<Vec<BinaryPackage>>) -> (r: SourcePackages)
        ensures
            r@ == ma_same_sources_of_all(indices@),
    {
        let mut set = StringHashSet::new();
        let mut i: usize = 0;
        while i < indices.len()
            invariant
                i <= indices@.len(),
                set@ == ma_same_sources_of_all(indices@.take(i as int)),
            decreases indices@.len() - i,
        {
            assert(indices@.take(i + 1).drop_last() =~= indices@.take(i as int));
            Self::add_packages(&mut set, &indices[i]);
            i = i + 1;
        }
        assert(indices@.take(indices@.len() as int) =~= indices@);
        SourcePackages { ma_same_sources: set }
    }

    /// Whether the source package has "Multi-Arch: same" binaries.
    pub fn is_ma_same(&self, source: &str) -> (r: bool)
        ensures
            r == self@.contains(source@),
    {
        self.ma_same_sources.contains(source)
    }
}

} // verus!
