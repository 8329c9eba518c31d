//! The interface of an RDF store: its triples, the queries on them, and a
//! focus node that the node parsers read from.
use vstd::prelude::*;

use crate::rdf_parser::RDFParseError;
use crate::term::{is_subject_view, strings_view, subjects_view, term_as_subject, terms_view, Subject, Term, TermView};

verus! {

/// A triple, by the views of its subject, predicate and object.
pub type TripleView = (TermView, Seq<char>, TermView);

/// The predicates of the triples whose subject is `s`.
pub open spec fn predicates_of(g: Set<TripleView>, s: TermView) -> Set<Seq<char>> {
    Set::new(|p: Seq<char>| exists|o: TermView| #[trigger] g.contains((s, p, o)))
}

/// The objects of the triples with subject `s` and predicate `p`.
pub open spec fn objects_of(g: Set<TripleView>, s: TermView, p: Seq<char>) -> Set<TermView> {
    Set::new(|o: TermView| g.contains((s, p, o)))
}

/// The subjects of the triples with predicate `p` and object `o`.
pub open spec fn subjects_of(g: Set<TripleView>, o: TermView, p: Seq<char>) -> Set<TermView> {
    Set::new(|s: TermView| g.contains((s, p, o)))
}

/// The predicates of the triples whose object is `o`.
pub open spec fn predicates_into(g: Set<TripleView>, o: TermView) -> Set<Seq<char>> {
    Set::new(|p: Seq<char>| exists|s: TermView| #[trigger] g.contains((s, p, o)))
}

/// `v` lists, each once, the predicates of `preds` with, for each, the list
/// of its objects from `s` in `g`, each once.
pub open spec fn lists_arcs(g: Set<TripleView>, s: TermView, v: Seq<(String, Vec<Term>)>, preds: Set<Seq<char>>) -> bool {
    &&& lists_set(v.map_values(|e: (String, Vec<Term>)| e.0@), preds)
    &&& forall|i: int|
        0 <= i < v.len() ==> lists_set(terms_view(#[trigger] v[i].1@), objects_of(g, s, v[i].0@))
}

/// `v` lists, each once, the predicates of the triples whose object is `o`
/// with, for each, the list of its subjects, each once.
pub open spec fn lists_incoming_arcs(g: Set<TripleView>, o: TermView, v: Seq<(String, Vec<Subject>)>) -> bool {
    &&& lists_set(v.map_values(|e: (String, Vec<Subject>)| e.0@), predicates_into(g, o))
    &&& forall|i: int|
        0 <= i < v.len() ==> lists_set(subjects_view(#[trigger] v[i].1@), subjects_of(g, o, v[i].0@))
}

/// `v` lists the members of `s`, each once.
pub open spec fn lists_set<A>(v: Seq<A>, s: Set<A>) -> bool {
    &&& v.no_duplicates()
    &&& v.to_set() == s
}

/// An error reported by a store.
#[derive(Debug)]
pub struct SRDFError {
    pub msg: String,
}

/// A store of RDF triples.
///
/// `graph` is the set of triples that the store holds. A store that is
/// `reliable` answers every query; any other store may fail a query with an
/// `SRDFError`, but what it answers is exact. `fails_predicates`,
/// `fails_objects` and `fails_subjects` say with which messages a store may
/// fail each query.
pub trait SRDF {
    spec fn graph(&self) -> Set<TripleView>;

    spec fn reliable(&self) -> bool;

    /// The store may fail the query for the predicates of `s` with `msg`.
    spec fn fails_predicates(&self, s: TermView, msg: Seq<char>) -> bool;

    /// The store may fail the query for the objects of `s` and `p` with `msg`.
    spec fn fails_objects(&self, s: TermView, p: Seq<char>, msg: Seq<char>) -> bool;

    /// The store may fail the query for the subjects of `o` and `p` with `msg`.
    spec fn fails_subjects(&self, o: TermView, p: Seq<char>, msg: Seq<char>) -> bool;

    proof fn lemma_graph_finite(&self)
        ensures
            self.graph().finite(),
    ;

    /// The predicates of the triples whose subject is `subject`.
    fn get_predicates_for_subject(&self, subject: &Subject) -> (res: Result<Vec<String>, SRDFError>)
        ensures
            res matches Ok(v) ==> lists_set(
                strings_view(v@),
                predicates_of(self.graph(), subject@),
            ),
            self.reliable() ==> res is Ok,
            res matches Err(e) ==> self.fails_predicates(subject@, e.msg@),
    ;

    /// The objects of the triples with the given subject and predicate.
    fn get_objects_for_subject_predicate(&self, subject: &Subject, pred: &String) -> (res: Result<
        Vec<Term>,
        SRDFError,
    >)
        ensures
            res matches Ok(v) ==> lists_set(
                terms_view(v@),
                objects_of(self.graph(), subject@, pred@),
            ),
            self.reliable() ==> res is Ok,
            res matches Err(e) ==> self.fails_objects(subject@, pred@, e.msg@),
    ;

    /// The subjects of the triples with the given object and predicate.
    fn get_subjects_for_object_predicate(&self, object: &Term, pred: &String) -> (res: Result<
        Vec<Subject>,
        SRDFError,
    >)
        ensures
            res matches Ok(v) ==> lists_set(
                subjects_view(v@),
                subjects_of(self.graph(), object@, pred@),
            ),
            self.reliable() ==> res is Ok,
            res matches Err(e) ==> self.fails_subjects(object@, pred@, e.msg@),
    ;

    /// The outgoing arcs of a subject: each predicate of its triples with
    /// the objects of those triples.
    fn outgoing_arcs(&self, subject: &Subject) -> (res: Result<Vec<(String, Vec<Term>)>, SRDFError>)
        ensures
            res matches Ok(v) ==> lists_arcs(
                self.graph(),
                subject@,
                v@,
                predicates_of(self.graph(), subject@),
            ),
            self.reliable() ==> res is Ok,
    ;

    /// The incoming arcs of a node: each predicate of the triples whose
    /// object is `object` with the subjects of those triples.
    fn incoming_arcs(&self, object: &Term) -> (res: Result<Vec<(String, Vec<Subject>)>, SRDFError>)
        ensures
            res matches Ok(v) ==> lists_incoming_arcs(self.graph(), object@, v@),
            self.reliable() ==> res is Ok,
    ;

    /// The outgoing arcs of a subject whose predicates are in `preds`, with
    /// their objects, and the other predicates of the subject.
    fn outgoing_arcs_from_list(&self, subject: &Subject, preds: Vec<String>) -> (res: Result<
        (Vec<(String, Vec<Term>)>, Vec<String>),
        SRDFError,
    >)
        ensures
            res matches Ok((arcs, rest)) ==> {
                &&& lists_arcs(
                    self.graph(),
                    subject@,
                    arcs@,
                    predicates_of(self.graph(), subject@).intersect(strings_view(preds@).to_set()),
                )
                &&& strings_view(rest@).to_set() == predicates_of(self.graph(), subject@).difference(
                    strings_view(preds@).to_set(),
                )
            },
            self.reliable() ==> res is Ok,
    ;

    /// The neighbours of a node: for each predicate of the triples whose
    /// subject is `node`, the predicate and the objects of those triples.
    /// A literal has no neighbours, and the store is not asked for them.
    fn get_neighs(&self, node: &Term) -> (res: Result<Vec<(String, Vec<Term>)>, SRDFError>)
        ensures
            res matches Ok(v) ==> lists_arcs(self.graph(), node@, v@, predicates_of(self.graph(), node@)),
            self.reliable() ==> res is Ok,
            res matches Err(e) ==> self.fails_predicates(node@, e.msg@) || exists|p: Seq<char>|
                predicates_of(self.graph(), node@).contains(p) && #[trigger] self.fails_objects(node@, p, e.msg@),
            !is_subject_view(node@) ==> (res matches Ok(v) && v@.len() == 0),
    {
        match term_as_subject(node) {
            None => {
                let result: Vec<(String, Vec<Term>)> = Vec::new();
                proof {
                    assert(predicates_of(self.graph(), node@) =~= Set::empty()) by {
                        assert forall|p: Seq<char>|
                            !predicates_of(self.graph(), node@).contains(p) by {
                            assert forall|o: TermView| !self.graph().contains((node@, p, o)) by {
                                self.lemma_subjects_not_literal(node@, p, o);
                            }
                        }
                    }
                    assert(result@.map_values(|e: (String, Vec<Term>)| e.0@) =~= Seq::empty());
                    assert(result@.map_values(|e: (String, Vec<Term>)| e.0@).to_set() =~= Set::empty());
                }
                Ok(result)
            },
            Some(subject) => {
                let mut result: Vec<(String, Vec<Term>)> = Vec::new();
                let preds = self.get_predicates_for_subject(&subject)?;
                let n = preds.len();
                let mut i: usize = 0;
                while i < n
                    invariant
                        n == preds@.len(),
                        i <= n,
                        subject@ == node@,
                        lists_set(strings_view(preds@), predicates_of(self.graph(), node@)),
                        result@.len() == i,
                        forall|j: int|
                            0 <= j < i ==> (#[trigger] result@[j]).0@ == preds@[j]@,
                        forall|j: int|
                            0 <= j < i ==> lists_set(
                                terms_view((#[trigger] result@[j]).1@),
                                objects_of(self.graph(), node@, result@[j].0@),
                            ),
                    decreases n - i,
                {
                    let pred = &preds[i];
                    let objs = match self.get_objects_for_subject_predicate(&subject, pred) {
                        Ok(objs) => objs,
                        Err(e) => {
                            proof {
                                assert(strings_view(preds@)[i as int] == pred@);
                                assert(predicates_of(self.graph(), node@).contains(pred@));
                            }
                            return Err(e);
                        },
                    };
                    result.push((pred.clone(), objs));
                    i = i + 1;
                }
                proof {
                    assert(result@.map_values(|e: (String, Vec<Term>)| e.0@) =~= strings_view(
                        preds@,
                    ));
                }
                Ok(result)
            },
        }
    }

    /// No triple of a store has a literal as its subject.
    proof fn lemma_subjects_not_literal(&self, s: TermView, p: Seq<char>, o: TermView)
        ensures
            self.graph().contains((s, p, o)) ==> is_subject_view(s),
    ;
}

/// A store with a focus node, from which the node parsers read.
pub trait FocusRDF: SRDF + Sized {
    spec fn focus(&self) -> Option<Term>;

    /// The store with its focus moved to `t`.
    spec fn with_focus(&self, t: Term) -> Self;

    proof fn lemma_with_focus(&self, t: Term)
        ensures
            self.with_focus(t).focus() == Some(t),
            self.with_focus(t).graph() == self.graph(),
            self.with_focus(t).reliable() == self.reliable(),
            forall|s: TermView, msg: Seq<char>|
                #[trigger] self.with_focus(t).fails_predicates(s, msg) == self.fails_predicates(s, msg),
            forall|s: TermView, p: Seq<char>, msg: Seq<char>|
                #[trigger] self.with_focus(t).fails_objects(s, p, msg) == self.fails_objects(s, p, msg),
            forall|o: TermView, p: Seq<char>, msg: Seq<char>|
                #[trigger] self.with_focus(t).fails_subjects(o, p, msg) == self.fails_subjects(o, p, msg),
    ;

    fn set_focus(&mut self, focus: &Term)
        ensures
            *final(self) == old(self).with_focus(*focus),
    ;

    fn get_focus(&self) -> (res: &Option<Term>)
        ensures
            *res == self.focus(),
    ;

    /// The focus node; a store without a focus is not a valid input.
    fn get_focus_as_term(&self) -> (res: Result<&Term, RDFParseError>)
        requires
            self.focus() is Some,
        ensures
            res matches Ok(t) && self.focus() == Some(*t),
    {
        match self.get_focus() {
            None => unreached(),
            Some(term) => Ok(term),
        }
    }

    /// The focus node as a subject; a literal focus gives `ExpectedSubject`.
    fn get_focus_as_subject(&self) -> (res: Result<Subject, RDFParseError>)
        requires
            self.focus() is Some,
        ensures
            match self.focus() {
                Some(t) => match res {
                    Ok(s) => s@ == t@ && is_subject_view(t@),
                    Err(e) => e == (RDFParseError::ExpectedSubject { node: t }) && !is_subject_view(
                        t@,
                    ),
                },
                None => false,
            },
    {
        match self.get_focus() {
            None => unreached(),
            Some(term) => match term_as_subject(term) {
                Some(s) => Ok(s),
                None => Err(RDFParseError::ExpectedSubject { node: term.clone() }),
            },
        }
    }
}

} // verus!
