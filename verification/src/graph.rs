//! An in-memory RDF store: a list of triples and a focus node.
use vstd::prelude::*;

use crate::srdf::{
    lists_arcs, lists_incoming_arcs, lists_set, objects_of, predicates_into, predicates_of, subjects_of,
    FocusRDF, SRDFError, TripleView, SRDF,
};
use crate::term::{
    is_subject_view, strings_view, subject_as_term, subjects_view, term_as_subject, terms_view,
    Subject, Term, TermView,
};

verus! {

/// A triple of the store.
#[derive(Debug)]
pub struct Triple {
    pub subject: Subject,
    pub predicate: String,
    pub object: Term,
}

impl View for Triple {
    type V = TripleView;

    open spec fn view(&self) -> TripleView {
        (self.subject@, self.predicate@, self.object@)
    }
}

/// Whether `t` occurs in `v`, by value.
pub fn contains_term(v: &Vec<Term>, t: &Term) -> (res: bool)
    ensures
        res == terms_view(v@).contains(t@),
{
    let n = v.len();
    let mut i: usize = 0;
    while i < n
        invariant
            n == v@.len(),
            i <= n,
            forall|j: int| 0 <= j < i ==> (#[trigger] v@[j])@ != t@,
        decreases n - i,
    {
        if v[i].same(t) {
            assert(terms_view(v@)[i as int] == t@);
            return true;
        }
        i = i + 1;
    }
    proof {
        if terms_view(v@).contains(t@) {
            let k = choose|k: int| 0 <= k < terms_view(v@).len() && terms_view(v@)[k] == t@;
            assert(v@[k]@ == t@);
        }
    }
    false
}

/// Whether `t` occurs in `v`, by value.
fn contains_subject(v: &Vec<Subject>, t: &Subject) -> (res: bool)
    ensures
        res == subjects_view(v@).contains(t@),
{
    let n = v.len();
    let mut i: usize = 0;
    while i < n
        invariant
            n == v@.len(),
            i <= n,
            forall|j: int| 0 <= j < i ==> (#[trigger] v@[j])@ != t@,
        decreases n - i,
    {
        if v[i].same(t) {
            assert(subjects_view(v@)[i as int] == t@);
            return true;
        }
        i = i + 1;
    }
    proof {
        if subjects_view(v@).contains(t@) {
            let k = choose|k: int| 0 <= k < subjects_view(v@).len() && subjects_view(v@)[k] == t@;
            assert(v@[k]@ == t@);
        }
    }
    false
}

/// Whether `t` occurs in `v`, by value.
fn contains_string(v: &Vec<String>, t: &String) -> (res: bool)
    ensures
        res == strings_view(v@).contains(t@),
{
    let n = v.len();
    let mut i: usize = 0;
    while i < n
        invariant
            n == v@.len(),
            i <= n,
            forall|j: int| 0 <= j < i ==> (#[trigger] v@[j])@ != t@,
        decreases n - i,
    {
        if v[i].eq(t) {
            assert(strings_view(v@)[i as int] == t@);
            return true;
        }
        i = i + 1;
    }
    proof {
        if strings_view(v@).contains(t@) {
            let k = choose|k: int| 0 <= k < strings_view(v@).len() && strings_view(v@)[k] == t@;
            assert(v@[k]@ == t@);
        }
    }
    false
}

/// An RDF store held in memory. It answers every query.
#[derive(Debug)]
pub struct SimpleGraph {
    triples: Vec<Triple>,
    focus: Option<Term>,
}

impl SimpleGraph {
    /// The triples of the store, in the order they were added.
    pub closed spec fn triple_views(&self) -> Seq<TripleView> {
        self.triples@.map_values(|t: Triple| t@)
    }

    /// An empty store without a focus.
    pub fn new() -> (res: SimpleGraph)
        ensures
            res.graph() == Set::<TripleView>::empty(),
            res.focus() is None,
    {
        let res = SimpleGraph { triples: Vec::new(), focus: None };
        assert(res.triple_views() =~= Seq::empty());
        assert(res.triple_views().to_set() =~= Set::empty());
        res
    }

    /// Adds a triple to the store.
    pub fn add_triple(&mut self, subject: Subject, predicate: String, object: Term)
        ensures
            final(self).graph() == old(self).graph().insert((subject@, predicate@, object@)),
            final(self).focus() == old(self).focus(),
    {
        let ghost t = (subject@, predicate@, object@);
        self.triples.push(Triple { subject, predicate, object });
        assert(self.triple_views() =~= old(self).triple_views().push(t));
        proof {
            old(self).triple_views().lemma_push_to_set_commute(t);
        }
    }
    /// The predicates of the triples whose object is `object`, each once.
    fn predicates_into_object(&self, object: &Term) -> (res: Vec<String>)
        ensures
            lists_set(strings_view(res@), predicates_into(self.graph(), object@)),
    {
        let mut result: Vec<String> = Vec::new();
        let n = self.triples.len();
        let mut i: usize = 0;
        while i < n
            invariant
                n == self.triples@.len(),
                i <= n,
                strings_view(result@).no_duplicates(),
                forall|p: Seq<char>|
                    strings_view(result@).contains(p) <==> exists|j: int|
                        0 <= j < i && (#[trigger] self.triple_views()[j]).2 == object@ && self.triple_views()[j].1 == p,
            decreases n - i,
        {
            let ghost old_result = strings_view(result@);
            let t = &self.triples[i];
            assert(self.triple_views()[i as int] == t@);
            if t.object.same(object) && !contains_string(&result, &t.predicate) {
                result.push(t.predicate.clone());
                assert(strings_view(result@) =~= old_result.push(t.predicate@));
            }
            proof {
                assert forall|p: Seq<char>|
                    strings_view(result@).contains(p) <==> exists|j: int|
                        0 <= j < i + 1 && (#[trigger] self.triple_views()[j]).2 == object@ && self.triple_views()[j].1 == p by {
                    if strings_view(result@).contains(p) && !old_result.contains(p) {
                        assert(strings_view(result@).last() == p);
                        assert(self.triple_views()[i as int] == t@);
                    }
                    if exists|j: int| 0 <= j < i + 1 && (#[trigger] self.triple_views()[j]).2 == object@ && self.triple_views()[j].1 == p {
                        let j = choose|j: int| 0 <= j < i + 1 && (#[trigger] self.triple_views()[j]).2 == object@ && self.triple_views()[j].1 == p;
                        if j < i {
                            assert(old_result.contains(p));
                        } else if !old_result.contains(p) {
                            assert(strings_view(result@).last() == p);
                        }
                    }
                    if old_result.contains(p) {
                        let k = choose|k: int| 0 <= k < old_result.len() && old_result[k] == p;
                        assert(strings_view(result@)[k] == p);
                    }
                }
            }
            i = i + 1;
        }
        proof {
            assert(strings_view(result@).to_set() =~= predicates_into(self.graph(), object@)) by {
                assert forall|p: Seq<char>|
                    predicates_into(self.graph(), object@).contains(p) implies strings_view(
                        result@,
                    ).contains(p) by {
                    let sv = choose|sv: TermView| self.graph().contains((sv, p, object@));
                    let k = choose|k: int|
                        0 <= k < self.triple_views().len() && self.triple_views()[k] == (
                            sv,
                            p,
                            object@,
                        );
                    assert(self.triple_views()[k].2 == object@ && self.triple_views()[k].1 == p);
                }
                assert forall|p: Seq<char>|
                    strings_view(result@).contains(p) implies predicates_into(
                        self.graph(),
                        object@,
                    ).contains(p) by {
                    let j = choose|j: int|
                        0 <= j < n && (#[trigger] self.triple_views()[j]).2 == object@ && self.triple_views()[j].1 == p;
                    let tv = self.triple_views()[j];
                    assert(self.graph().contains(tv));
                    assert(self.graph().contains((tv.0, p, object@)));
                }
            }
        }
        result
    }
}

/// What a sequence holds after a push.
proof fn lemma_push_contains<A>(s: Seq<A>, x: A)
    ensures
        forall|p: A| #[trigger] s.push(x).contains(p) <==> (s.contains(p) || p == x),
{
    assert forall|p: A| #[trigger] s.push(x).contains(p) <==> (s.contains(p) || p == x) by {
        if s.contains(p) {
            let k = choose|k: int| 0 <= k < s.len() && s[k] == p;
            assert(s.push(x)[k] == p);
        }
        if p == x {
            assert(s.push(x)[s.len() as int] == p);
        }
        if s.push(x).contains(p) && p != x {
            let k = choose|k: int| 0 <= k < s.len() + 1 && s.push(x)[k] == p;
            assert(s[k] == p);
        }
    }
}

impl SRDF for SimpleGraph {
    closed spec fn graph(&self) -> Set<TripleView> {
        self.triple_views().to_set()
    }

    open spec fn reliable(&self) -> bool {
        true
    }

    open spec fn fails_predicates(&self, s: TermView, msg: Seq<char>) -> bool {
        false
    }

    open spec fn fails_objects(&self, s: TermView, p: Seq<char>, msg: Seq<char>) -> bool {
        false
    }

    open spec fn fails_subjects(&self, o: TermView, p: Seq<char>, msg: Seq<char>) -> bool {
        false
    }

    proof fn lemma_graph_finite(&self) {
        vstd::seq_lib::seq_to_set_is_finite(self.triple_views());
    }

    proof fn lemma_subjects_not_literal(&self, s: TermView, p: Seq<char>, o: TermView) {
        if self.graph().contains((s, p, o)) {
            let k = choose|k: int|
                0 <= k < self.triple_views().len() && self.triple_views()[k] == (s, p, o);
            assert(self.triples@[k]@ == (s, p, o));
        }
    }

    fn get_predicates_for_subject(&self, subject: &Subject) -> (res: Result<Vec<String>, SRDFError>)
        ensures
            res is Ok,
    {
        let mut result: Vec<String> = Vec::new();
        let n = self.triples.len();
        let mut i: usize = 0;
        while i < n
            invariant
                n == self.triples@.len(),
                i <= n,
                strings_view(result@).no_duplicates(),
                forall|p: Seq<char>|
                    strings_view(result@).contains(p) <==> exists|j: int|
                        0 <= j < i && (#[trigger] self.triple_views()[j]).0 == subject@ && self.triple_views()[j].1 == p,
            decreases n - i,
        {
            let ghost old_result = strings_view(result@);
            let t = &self.triples[i];
            assert(self.triple_views()[i as int] == t@);
            if t.subject.same(subject) && !contains_string(&result, &t.predicate) {
                result.push(t.predicate.clone());
                assert(strings_view(result@) =~= old_result.push(t.predicate@));
            }
            proof {
                assert forall|p: Seq<char>|
                    strings_view(result@).contains(p) <==> exists|j: int|
                        0 <= j < i + 1 && (#[trigger] self.triple_views()[j]).0 == subject@ && self.triple_views()[j].1 == p by {
                    if strings_view(result@).contains(p) && !old_result.contains(p) {
                        assert(strings_view(result@).last() == p);
                        assert(self.triple_views()[i as int] == t@);
                    }
                    if exists|j: int| 0 <= j < i + 1 && (#[trigger] self.triple_views()[j]).0 == subject@ && self.triple_views()[j].1 == p {
                        let j = choose|j: int| 0 <= j < i + 1 && (#[trigger] self.triple_views()[j]).0 == subject@ && self.triple_views()[j].1 == p;
                        if j < i {
                            assert(old_result.contains(p));
                        } else if !old_result.contains(p) {
                            assert(strings_view(result@).last() == p);
                        }
                    }
                    if old_result.contains(p) {
                        let k = choose|k: int| 0 <= k < old_result.len() && old_result[k] == p;
                        assert(strings_view(result@)[k] == p);
                    }
                }
            }
            i = i + 1;
        }
        proof {
            assert(strings_view(result@).to_set() =~= predicates_of(self.graph(), subject@)) by {
                assert forall|p: Seq<char>|
                    predicates_of(self.graph(), subject@).contains(p) implies strings_view(
                        result@,
                    ).contains(p) by {
                    let o = choose|o: TermView| self.graph().contains((subject@, p, o));
                    let k = choose|k: int|
                        0 <= k < self.triple_views().len() && self.triple_views()[k] == (
                            subject@,
                            p,
                            o,
                        );
                    assert(self.triple_views()[k].0 == subject@ && self.triple_views()[k].1 == p);
                }
                assert forall|p: Seq<char>|
                    strings_view(result@).contains(p) implies predicates_of(
                        self.graph(),
                        subject@,
                    ).contains(p) by {
                    let j = choose|j: int|
                        0 <= j < n && (#[trigger] self.triple_views()[j]).0 == subject@ && self.triple_views()[j].1 == p;
                    let tv = self.triple_views()[j];
                    assert(self.graph().contains(tv));
                    assert(self.graph().contains((subject@, p, tv.2)));
                }
            }
        }
        Ok(result)
    }

    fn get_objects_for_subject_predicate(&self, subject: &Subject, pred: &String) -> (res: Result<
        Vec<Term>,
        SRDFError,
    >)
        ensures
            res is Ok,
    {
        let mut result: Vec<Term> = Vec::new();
        let n = self.triples.len();
        let mut i: usize = 0;
        while i < n
            invariant
                n == self.triples@.len(),
                i <= n,
                terms_view(result@).no_duplicates(),
                forall|o: TermView|
                    terms_view(result@).contains(o) <==> exists|j: int|
                        0 <= j < i && #[trigger] self.triple_views()[j] == (subject@, pred@, o),
            decreases n - i,
        {
            let ghost old_result = terms_view(result@);
            let t = &self.triples[i];
            assert(self.triple_views()[i as int] == t@);
            if t.subject.same(subject) && t.predicate.eq(pred) && !contains_term(&result, &t.object) {
                result.push(t.object.clone());
                assert(terms_view(result@) =~= old_result.push(t.object@));
            }
            proof {
                assert forall|o: TermView|
                    terms_view(result@).contains(o) <==> exists|j: int|
                        0 <= j < i + 1 && #[trigger] self.triple_views()[j] == (
                            subject@,
                            pred@,
                            o,
                        ) by {
                    if terms_view(result@).contains(o) && !old_result.contains(o) {
                        assert(terms_view(result@).last() == o);
                        assert(self.triple_views()[i as int] == t@);
                    }
                    if exists|j: int| 0 <= j < i + 1 && #[trigger] self.triple_views()[j] == (subject@, pred@, o) {
                        let j = choose|j: int| 0 <= j < i + 1 && #[trigger] self.triple_views()[j] == (subject@, pred@, o);
                        if j < i {
                            assert(old_result.contains(o));
                        } else if !old_result.contains(o) {
                            assert(terms_view(result@).last() == o);
                        }
                    }
                    if old_result.contains(o) {
                        let k = choose|k: int| 0 <= k < old_result.len() && old_result[k] == o;
                        assert(terms_view(result@)[k] == o);
                    }
                }
            }
            i = i + 1;
        }
        proof {
            assert(terms_view(result@).to_set() =~= objects_of(self.graph(), subject@, pred@)) by {
                assert forall|o: TermView|
                    objects_of(self.graph(), subject@, pred@).contains(o) implies terms_view(
                        result@,
                    ).contains(o) by {
                    let k = choose|k: int|
                        0 <= k < self.triple_views().len() && self.triple_views()[k] == (
                            subject@,
                            pred@,
                            o,
                        );
                    assert(self.triple_views()[k] == (subject@, pred@, o));
                }
                assert forall|o: TermView|
                    terms_view(result@).contains(o) implies objects_of(
                        self.graph(),
                        subject@,
                        pred@,
                    ).contains(o) by {
                    let j = choose|j: int|
                        0 <= j < n && #[trigger] self.triple_views()[j] == (subject@, pred@, o);
                    assert(self.graph().contains(self.triple_views()[j]));
                }
            }
        }
        Ok(result)
    }

    fn get_subjects_for_object_predicate(&self, object: &Term, pred: &String) -> (res: Result<
        Vec<Subject>,
        SRDFError,
    >)
        ensures
            res is Ok,
    {
        let mut result: Vec<Subject> = Vec::new();
        let n = self.triples.len();
        let mut i: usize = 0;
        while i < n
            invariant
                n == self.triples@.len(),
                i <= n,
                subjects_view(result@).no_duplicates(),
                forall|s: TermView|
                    subjects_view(result@).contains(s) <==> exists|j: int|
                        0 <= j < i && #[trigger] self.triple_views()[j] == (s, pred@, object@),
            decreases n - i,
        {
            let ghost old_result = subjects_view(result@);
            let t = &self.triples[i];
            assert(self.triple_views()[i as int] == t@);
            if t.object.same(object) && t.predicate.eq(pred) && !contains_subject(&result, &t.subject) {
                result.push(t.subject.clone());
                assert(subjects_view(result@) =~= old_result.push(t.subject@));
            }
            proof {
                assert forall|s: TermView|
                    subjects_view(result@).contains(s) <==> exists|j: int|
                        0 <= j < i + 1 && #[trigger] self.triple_views()[j] == (
                            s,
                            pred@,
                            object@,
                        ) by {
                    if subjects_view(result@).contains(s) && !old_result.contains(s) {
                        assert(subjects_view(result@).last() == s);
                        assert(self.triple_views()[i as int] == t@);
                    }
                    if exists|j: int| 0 <= j < i + 1 && #[trigger] self.triple_views()[j] == (s, pred@, object@) {
                        let j = choose|j: int| 0 <= j < i + 1 && #[trigger] self.triple_views()[j] == (s, pred@, object@);
                        if j < i {
                            assert(old_result.contains(s));
                        } else if !old_result.contains(s) {
                            assert(subjects_view(result@).last() == s);
                        }
                    }
                    if old_result.contains(s) {
                        let k = choose|k: int| 0 <= k < old_result.len() && old_result[k] == s;
                        assert(subjects_view(result@)[k] == s);
                    }
                }
            }
            i = i + 1;
        }
        proof {
            assert(subjects_view(result@).to_set() =~= subjects_of(self.graph(), object@, pred@))
                by {
                assert forall|s: TermView|
                    subjects_of(self.graph(), object@, pred@).contains(s) implies subjects_view(
                        result@,
                    ).contains(s) by {
                    let k = choose|k: int|
                        0 <= k < self.triple_views().len() && self.triple_views()[k] == (
                            s,
                            pred@,
                            object@,
                        );
                    assert(self.triple_views()[k] == (s, pred@, object@));
                }
                assert forall|s: TermView|
                    subjects_view(result@).contains(s) implies subjects_of(
                        self.graph(),
                        object@,
                        pred@,
                    ).contains(s) by {
                    let j = choose|j: int|
                        0 <= j < n && #[trigger] self.triple_views()[j] == (s, pred@, object@);
                    assert(self.graph().contains(self.triple_views()[j]));
                }
            }
        }
        Ok(result)
    }
    fn outgoing_arcs(&self, subject: &Subject) -> (res: Result<Vec<(String, Vec<Term>)>, SRDFError>)
        ensures
            res is Ok,
    {
        self.get_neighs(&subject_as_term(subject))
    }

    fn incoming_arcs(&self, object: &Term) -> (res: Result<Vec<(String, Vec<Subject>)>, SRDFError>)
        ensures
            res is Ok,
    {
        let preds = self.predicates_into_object(object);
        let mut result: Vec<(String, Vec<Subject>)> = Vec::new();
        let n = preds.len();
        let mut i: usize = 0;
        while i < n
            invariant
                n == preds@.len(),
                i <= n,
                lists_set(strings_view(preds@), predicates_into(self.graph(), object@)),
                result@.len() == i,
                forall|j: int| 0 <= j < i ==> (#[trigger] result@[j]).0@ == preds@[j]@,
                forall|j: int|
                    0 <= j < i ==> lists_set(
                        subjects_view((#[trigger] result@[j]).1@),
                        subjects_of(self.graph(), object@, result@[j].0@),
                    ),
            decreases n - i,
        {
            let pred = &preds[i];
            let subjects = self.get_subjects_for_object_predicate(object, pred)?;
            result.push((pred.clone(), subjects));
            i = i + 1;
        }
        assert(result@.map_values(|e: (String, Vec<Subject>)| e.0@) =~= strings_view(preds@));
        Ok(result)
    }

    fn outgoing_arcs_from_list(&self, subject: &Subject, preds: Vec<String>) -> (res: Result<
        (Vec<(String, Vec<Term>)>, Vec<String>),
        SRDFError,
    >)
        ensures
            res is Ok,
    {
        let ghost wanted = strings_view(preds@).to_set();
        let ghost all = predicates_of(self.graph(), subject@);
        let own = self.get_predicates_for_subject(subject)?;
        let mut arcs: Vec<(String, Vec<Term>)> = Vec::new();
        let mut rest: Vec<String> = Vec::new();
        let ghost mut kept: Seq<Seq<char>> = Seq::empty();
        let n = own.len();
        let mut i: usize = 0;
        while i < n
            invariant
                n == own@.len(),
                i <= n,
                wanted == strings_view(preds@).to_set(),
                all == predicates_of(self.graph(), subject@),
                lists_set(strings_view(own@), all),
                kept == arcs@.map_values(|e: (String, Vec<Term>)| e.0@),
                forall|p: Seq<char>|
                    #[trigger] kept.contains(p) <==> (strings_view(own@).take(i as int).contains(p) && wanted.contains(p)),
                forall|p: Seq<char>|
                    #[trigger] strings_view(rest@).contains(p) <==> (strings_view(own@).take(i as int).contains(p) && !wanted.contains(p)),
                kept.no_duplicates(),
                forall|j: int|
                    0 <= j < arcs@.len() ==> lists_set(
                        terms_view((#[trigger] arcs@[j]).1@),
                        objects_of(self.graph(), subject@, arcs@[j].0@),
                    ),
            decreases n - i,
        {
            let pred = &own[i];
            let ghost before_own = strings_view(own@).take(i as int);
            let ghost after_own = strings_view(own@).take(i + 1);
            assert(after_own =~= before_own.push(pred@));
            let ghost old_kept = kept;
            let ghost old_rest = strings_view(rest@);
            proof {
                lemma_push_contains(before_own, pred@);
                assert(!before_own.contains(pred@)) by {
                    if before_own.contains(pred@) {
                        let k = choose|k: int| 0 <= k < before_own.len() && before_own[k] == pred@;
                        assert(strings_view(own@)[k] == strings_view(own@)[i as int]);
                    }
                }
            }
            if contains_string(&preds, pred) {
                let objs = self.get_objects_for_subject_predicate(subject, pred)?;
                arcs.push((pred.clone(), objs));
                proof {
                    kept = kept.push(pred@);
                    assert(kept =~= arcs@.map_values(|e: (String, Vec<Term>)| e.0@));
                    lemma_push_contains(old_kept, pred@);
                    assert(wanted.contains(pred@));
                    assert(!old_kept.contains(pred@));
                    assert forall|a: int, b: int|
                        0 <= a < kept.len() && 0 <= b < kept.len() && a != b implies kept[a] != kept[b] by {
                        if a < old_kept.len() {
                            assert(old_kept[a] == kept[a]);
                        }
                        if b < old_kept.len() {
                            assert(old_kept[b] == kept[b]);
                        }
                    }
                }
            } else {
                rest.push(pred.clone());
                proof {
                    assert(strings_view(rest@) =~= old_rest.push(pred@));
                    lemma_push_contains(old_rest, pred@);
                }
            }
            i = i + 1;
        }
        proof {
            assert(strings_view(own@).take(n as int) =~= strings_view(own@));
            assert(kept.to_set() =~= all.intersect(wanted));
            assert(strings_view(rest@).to_set() =~= all.difference(wanted));
        }
        Ok((arcs, rest))
    }
}

impl FocusRDF for SimpleGraph {
    closed spec fn focus(&self) -> Option<Term> {
        self.focus
    }

    closed spec fn with_focus(&self, t: Term) -> Self {
        SimpleGraph { triples: self.triples, focus: Some(t) }
    }

    proof fn lemma_with_focus(&self, t: Term) {
    }

    fn set_focus(&mut self, focus: &Term) {
        self.focus = Some(focus.clone());
    }

    fn get_focus(&self) -> (res: &Option<Term>) {
        &self.focus
    }
}

} // verus!
