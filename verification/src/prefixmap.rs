//! IRI references and prefix maps: aliases for namespaces, used to show IRIs
//! in their qualified form.
use vstd::prelude::*;

verus! {

/// An IRI, written out or as a prefixed name.
#[derive(Debug, Clone, PartialEq, Eq)]
pub enum IriRef {
    Iri(String),
    Prefixed { prefix: String, local: String },
}

/// `p` is a prefix of `s`.
pub open spec fn is_prefix_of(p: Seq<char>, s: Seq<char>) -> bool {
    p.len() <= s.len() && s.subrange(0, p.len() as int) == p
}

/// The index of the entry whose namespace is the longest prefix of `iri`,
/// the first such entry where several are as long.
pub open spec fn best_entry(entries: Seq<(Seq<char>, Seq<char>)>, iri: Seq<char>) -> Option<int>
    decreases entries.len(),
{
    if entries.len() == 0 {
        None
    } else {
        let k = entries.len() - 1;
        let b = best_entry(entries.drop_last(), iri);
        if is_prefix_of(entries[k].1, iri) && match b {
            None => true,
            Some(j) => entries[j].1.len() < entries[k].1.len(),
        } {
            Some(k)
        } else {
            b
        }
    }
}

/// The entry that `best_entry` picks is an entry whose namespace is a
/// prefix of the IRI.
pub proof fn lemma_best_entry_in_range(entries: Seq<(Seq<char>, Seq<char>)>, iri: Seq<char>)
    ensures
        best_entry(entries, iri) matches Some(k) ==> 0 <= k < entries.len() && is_prefix_of(
            entries[k].1,
            iri,
        ),
    decreases entries.len(),
{
    if entries.len() > 0 {
        lemma_best_entry_in_range(entries.drop_last(), iri);
    }
}

/// The qualified form of `iri`: `alias:local` for the entry whose namespace
/// is the longest prefix of the IRI, else the IRI between angle brackets.
pub open spec fn qualify_spec(entries: Seq<(Seq<char>, Seq<char>)>, iri: Seq<char>) -> Seq<char> {
    match best_entry(entries, iri) {
        Some(k) => entries[k].0 + ":"@ + iri.subrange(entries[k].1.len() as int, iri.len() as int),
        None => "<"@ + iri + ">"@,
    }
}

/// A qualified IRI names the IRI it came from: where an alias is chosen, its
/// namespace followed by the local part is the IRI.
pub proof fn law_qualify_expands_back(entries: Seq<(Seq<char>, Seq<char>)>, iri: Seq<char>)
    ensures
        best_entry(entries, iri) matches Some(k) ==> entries[k].1 + iri.subrange(
            entries[k].1.len() as int,
            iri.len() as int,
        ) == iri,
        best_entry(entries, iri) is None ==> forall|i: int|
            0 <= i < entries.len() ==> !is_prefix_of(#[trigger] entries[i].1, iri),
    decreases entries.len(),
{
    lemma_best_entry_in_range(entries, iri);
    if let Some(k) = best_entry(entries, iri) {
        assert(entries[k].1 + iri.subrange(entries[k].1.len() as int, iri.len() as int) =~= iri);
    }
    if entries.len() > 0 {
        law_qualify_expands_back(entries.drop_last(), iri);
        if best_entry(entries, iri) is None {
            assert forall|i: int| 0 <= i < entries.len() implies !is_prefix_of(
                #[trigger] entries[i].1,
                iri,
            ) by {
                if i < entries.len() - 1 {
                    assert(entries.drop_last()[i] == entries[i]);
                }
            }
        }
    }
}

/// A list of aliases, each with its namespace.
#[derive(Debug)]
pub struct PrefixMap {
    entries: Vec<(String, String)>,
}

impl View for PrefixMap {
    type V = Seq<(Seq<char>, Seq<char>)>;

    closed spec fn view(&self) -> Seq<(Seq<char>, Seq<char>)> {
        self.entries@.map_values(|e: (String, String)| (e.0@, e.1@))
    }
}

/// Whether `p` is a prefix of `s`.
fn starts_with(s: &str, p: &str) -> (res: bool)
    ensures
        res == is_prefix_of(p@, s@),
{
    let n = p.unicode_len();
    let m = s.unicode_len();
    if n > m {
        return false;
    }
    let mut i: usize = 0;
    while i < n
        invariant
            n == p@.len(),
            m == s@.len(),
            n <= m,
            i <= n,
            forall|j: int| 0 <= j < i ==> s@[j] == p@[j],
        decreases n - i,
    {
        if s.get_char(i) != p.get_char(i) {
            assert(s@.subrange(0, n as int)[i as int] != p@[i as int]);
            return false;
        }
        i = i + 1;
    }
    assert(s@.subrange(0, n as int) =~= p@);
    true
}

impl PrefixMap {
    /// An empty prefix map.
    pub fn new() -> (res: PrefixMap)
        ensures
            res@ == Seq::<(Seq<char>, Seq<char>)>::empty(),
    {
        let res = PrefixMap { entries: Vec::new() };
        assert(res@ =~= Seq::<(Seq<char>, Seq<char>)>::empty());
        res
    }

    /// A copy of the prefix map.
    pub fn copy(&self) -> (res: PrefixMap)
        ensures
            res@ == self@,
    {
        let mut entries: Vec<(String, String)> = Vec::new();
        let n = self.entries.len();
        let mut i: usize = 0;
        while i < n
            invariant
                n == self.entries@.len(),
                i <= n,
                entries@.len() == i,
                forall|j: int| 0 <= j < i ==> #[trigger] entries@[j] == self.entries@[j],
            decreases n - i,
        {
            let (a, b) = &self.entries[i];
            entries.push((a.clone(), b.clone()));
            i = i + 1;
        }
        let res = PrefixMap { entries };
        assert(res@ =~= self@);
        res
    }

    /// Adds an alias for a namespace.
    pub fn insert(&mut self, alias: &str, namespace: &str)
        ensures
            final(self)@ == old(self)@.push((alias@, namespace@)),
    {
        self.entries.push((String::from_str(alias), String::from_str(namespace)));
        assert(self@ =~= old(self)@.push((alias@, namespace@)));
    }

    /// The qualified form of an IRI.
    pub fn qualify(&self, iri: &str) -> (res: String)
        ensures
            res@ == qualify_spec(self@, iri@),
    {
        let n = self.entries.len();
        let mut best: Option<usize> = None;
        let mut i: usize = 0;
        while i < n
            invariant
                n == self@.len(),
                i <= n,
                match best_entry(self@.subrange(0, i as int), iri@) {
                    Some(k) => best == Some(k as usize) && 0 <= k < i,
                    None => best is None,
                },
            decreases n - i,
        {
            proof {
                lemma_best_entry_in_range(self@.subrange(0, i as int), iri@);
            }
            let ns = &self.entries[i].1;
            let better = match best {
                None => true,
                Some(j) => self.entries[j].1.unicode_len() < ns.unicode_len(),
            };
            proof {
                assert(self@.subrange(0, i + 1).drop_last() =~= self@.subrange(0, i as int));
                assert(self@[i as int] == (self.entries@[i as int].0@, self.entries@[i as int].1@));
                if let Some(j) = best {
                    assert(self@[j as int] == (self.entries@[j as int].0@, self.entries@[j as int].1@));
                }
            }
            if starts_with(iri, ns.as_str()) && better {
                best = Some(i);
            }
            i = i + 1;
        }
        assert(self@.subrange(0, n as int) =~= self@);
        proof {
            lemma_best_entry_in_range(self@, iri@);
        }
        match best {
            Some(k) => {
                let (alias, ns) = &self.entries[k];
                assert(self@[k as int] == (alias@, ns@));
                let mut res = alias.clone();
                res.append(":");
                let len = iri.unicode_len();
                res.append(iri.substring_char(ns.unicode_len(), len));
                assert(res@ =~= qualify_spec(self@, iri@));
                res
            },
            None => {
                let mut res = String::from_str("<");
                res.append(iri);
                res.append(">");
                assert(res@ =~= qualify_spec(self@, iri@));
                res
            },
        }
    }
}

} // verus!
