//! Bugs of the bug tracker, indexed by source package.
use vstd::hash_map::StringHashMap;
use vstd::prelude::*;

verus! {

/// Severity of a bug, from the least to the most severe.
#[derive(Debug, Clone, Copy, PartialEq, Eq, PartialOrd, Ord, Hash, Structural)]
pub enum Severity {
    Wishlist,
    Normal,
    Important,
    Serious,
    Grave,
    Critical,
}

/// The lower-case name of a severity.
pub open spec fn severity_name(s: Severity) -> Seq<char> {
    match s {
        Severity::Wishlist => "wishlist"@,
        Severity::Normal => "normal"@,
        Severity::Important => "important"@,
        Severity::Serious => "serious"@,
        Severity::Grave => "grave"@,
        Severity::Critical => "critical"@,
    }
}

impl Severity {
    /// The lower-case name of the severity.
    pub fn to_string(&self) -> (r: String)
        ensures
            r@ == severity_name(*self),
    {
        let name = match self {
            Severity::Wishlist => "wishlist",
            Severity::Normal => "normal",
            Severity::Important => "important",
            Severity::Serious => "serious",
            Severity::Grave => "grave",
            Severity::Critical => "critical",
        };
        String::from_str(name)
    }
}

/// One bug report.
#[derive(Debug)]
pub struct UDDBug {
    pub id: u32,
    pub source: String,
    pub severity: Severity,
    pub title: String,
}

impl Clone for UDDBug {
    fn clone(&self) -> (r: UDDBug)
        ensures
            r == *self,
    {
        UDDBug {
            id: self.id,
            source: self.source.clone(),
            severity: self.severity,
            title: self.title.clone(),
        }
    }
}

/// The positions of the bugs of a source package, in increasing order.
pub open spec fn positions(bugs: Seq<UDDBug>, source: Seq<char>) -> Seq<usize>
    decreases bugs.len(),
{
    if bugs.len() == 0 {
        Seq::empty()
    } else {
        let rest = positions(bugs.drop_last(), source);
        if bugs.last().source@ == source {
            rest.push((bugs.len() - 1) as usize)
        } else {
            rest
        }
    }
}

/// The bugs of a source package, in their order.
pub open spec fn bugs_of_source(bugs: Seq<UDDBug>, source: Seq<char>) -> Seq<UDDBug>
    decreases bugs.len(),
{
    if bugs.len() == 0 {
        Seq::empty()
    } else {
        let rest = bugs_of_source(bugs.drop_last(), source);
        if bugs.last().source@ == source {
            rest.push(bugs.last())
        } else {
            rest
        }
    }
}

/// The positions of the bugs of a source package pick out exactly its bugs.
pub proof fn lemma_positions(bugs: Seq<UDDBug>, source: Seq<char>)
    requires
        bugs.len() <= usize::MAX,
    ensures
        forall|j: int|
            0 <= j < positions(bugs, source).len() ==> positions(bugs, source)[j] < bugs.len(),
        positions(bugs, source).map_values(|p: usize| bugs[p as int]) == bugs_of_source(
            bugs,
            source,
        ),
    decreases bugs.len(),
{
    if bugs.len() > 0 {
        let prev = bugs.drop_last();
        lemma_positions(prev, source);
        let ps = positions(prev, source);
        assert(ps.map_values(|p: usize| bugs[p as int]) =~= ps.map_values(
            |p: usize| prev[p as int],
        ));
        if bugs.last().source@ == source {
            assert(positions(bugs, source).map_values(|p: usize| bugs[p as int]) =~= ps.map_values(
                |p: usize| bugs[p as int],
            ).push(bugs.last()));
        }
    }
}

/// Bugs with an index by source package
pub struct UDDBugs {
    bugs: Vec<UDDBug>,
    source_index: StringHashMap<Vec<usize>>,
}

impl View for UDDBugs {
    type V = Seq<UDDBug>;

    closed spec fn view(&self) -> Seq<UDDBug> {
        self.bugs@
    }
}

impl UDDBugs {
    /// The index lists, for each source package with bugs, their positions.
    pub closed spec fn wf(&self) -> bool {
        &&& self.bugs@.len() <= usize::MAX
        &&& forall|k: Seq<char>| #[trigger]
            self.source_index@.contains_key(k) <==> positions(self.bugs@, k).len() > 0
        &&& forall|k: Seq<char>| #[trigger]
            self.source_index@.contains_key(k) ==> self.source_index@[k]@ == positions(
                self.bugs@,
                k,
            )
    }

    /// Indexes the bugs by source package.
    pub fn new(bugs: Vec<UDDBug>) -> (r: UDDBugs)
        ensures
            r.wf(),
            r@ == bugs@,
    {
        let mut index: StringHashMap<Vec<usize>> = StringHashMap::new();
        let mut i: usize = 0;
        while i < bugs.len()
            invariant
                i <= bugs@.len(),
                forall|k: Seq<char>| #[trigger]
                    index@.contains_key(k) <==> positions(bugs@.take(i as int), k).len() > 0,
                forall|k: Seq<char>| #[trigger]
                    index@.contains_key(k) ==> index@[k]@ == positions(bugs@.take(i as int), k),
            decreases bugs@.len() - i,
        {
            let ghost prev = bugs@.take(i as int);
            let ghost next = bugs@.take(i + 1);
            assert(next.drop_last() =~= prev);
            let source = &bugs[i].source;
            let entry: Vec<usize> = match index.get(source.as_str()) {
                Some(v) => {
                    let mut v2 = v.clone();
                    assert(v2@ =~= v@);
                    v2.push(i);
                    v2
                },
                None => {
                    let mut v2: Vec<usize> = Vec::new();
                    v2.push(i);
                    v2
                },
            };
            assert forall|k: Seq<char>| k != source@ implies positions(next, k) == positions(
                prev,
                k,
            ) by {}
            assert(positions(next, source@) == positions(prev, source@).push(i));
            assert(entry@ =~= positions(next, source@));
            index.insert(source.clone(), entry);
            i = i + 1;
        }
        assert(bugs@.take(bugs@.len() as int) =~= bugs@);
        assert(bugs@.len() == bugs.len());
        UDDBugs { bugs, source_index: index }
    }

    /// The bugs of a source package, in their order, or `None` if it has none.
    pub fn bugs_for_source(&self, source: &str) -> (r: Option<Vec<UDDBug>>)
        requires
            self.wf(),
        ensures
            match r {
                Some(v) => v@ == bugs_of_source(self@, source@) && v@.len() > 0,
                None => bugs_of_source(self@, source@).len() == 0,
            },
    {
        proof {
            lemma_positions(self.bugs@, source@);
        }
        match self.source_index.get(source) {
            None => {
                assert(!self.source_index@.contains_key(source@));
                None
            },
            Some(indices) => {
                assert(self.source_index@.contains_key(source@));
                let ghost ps = positions(self.bugs@, source@);
                let mut out: Vec<UDDBug> = Vec::new();
                let mut j: usize = 0;
                while j < indices.len()
                    invariant
                        indices@ == ps,
                        ps == positions(self.bugs@, source@),
                        forall|t: int| 0 <= t < ps.len() ==> ps[t] < self.bugs@.len(),
                        j <= indices@.len(),
                        out@ == ps.take(j as int).map_values(|p: usize| self.bugs@[p as int]),
                    decreases indices@.len() - j,
                {
                    let b = self.bugs[indices[j]].clone();
                    out.push(b);
                    assert(out@ =~= ps.take(j + 1).map_values(|p: usize| self.bugs@[p as int]));
                    j = j + 1;
                }
                assert(ps.take(ps.len() as int) =~= ps);
                Some(out)
            },
        }
    }
}

} // verus!
