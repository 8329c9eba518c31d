//! Parsers whose input is an RDF graph with a focus node.
use vstd::prelude::*;

use core::marker::PhantomData;

use crate::graph::contains_term;
use crate::srdf::{lists_set, objects_of, subjects_of, FocusRDF, SRDFError, TripleView, SRDF};
use crate::term::{
    iri_as_term, is_subject_view, object_as_iri, rdf_first_iri, rdf_nil_iri, rdf_rest_iri,
    rdf_type_iri, subject_as_term, subjects_view, term_as_subject, terms_view, Subject, Term,
    TermView, Vocab,
};

verus! {

/// The errors of the node parsers.
#[derive(Debug)]
pub enum RDFParseError {
    ExpectedSubject { node: Term },
    NodeDoesntSatisfyCondition { condition_name: String, node: Term },
    SRDFError { err: String },
    MoreThanOneValuePredicate { node: Term, pred: String, value1: Term, value2: Term },
    NoValuesPredicate { node: Term, pred: String },
    RecursiveRDFList { node: Term },
    MoreThanOneInstanceOf { object: Term, value1: Term, value2: Term },
    NoInstancesOf { object: Term },
    ExpectedIRIFoundBNode { bnode: String },
    ExpectedIRIFoundLiteral { lit: String },
}


/// A parser of RDF data that starts from the focus node of a store.
///
/// `parse_ensures(before, after, res)` says which results `res` a run may give
/// on the store `before`, leaving the store `after`. Every run leaves the
/// triples of the store as they were and keeps a focus node.
pub trait RDFNodeParse<RDF: FocusRDF>: Sized {
    type Output;

    spec fn parse_requires(&self, rdf: RDF) -> bool;

    spec fn parse_ensures(&self, before: RDF, after: RDF, res: Result<Self::Output, RDFParseError>) -> bool;

    /// Moves the focus of the store to the IRI `node` and runs the parser.
    fn parse(&mut self, node: &String, rdf: &mut RDF) -> (res: Result<Self::Output, RDFParseError>)
        requires
            old(self).parse_requires(old(rdf).with_focus(Term::Iri(*node))),
        ensures
            *final(self) == *old(self),
            old(self).parse_ensures(old(rdf).with_focus(Term::Iri(*node)), *final(rdf), res),
            final(rdf).graph() == old(rdf).graph(),
            final(rdf).reliable() == old(rdf).reliable(),
    {
        let focus = iri_as_term(node);
        rdf.set_focus(&focus);
        proof {
            old(rdf).lemma_with_focus(focus);
        }
        self.parse_impl(rdf)
    }

    /// Runs the parser from the focus node of the store.
    fn parse_impl(&mut self, rdf: &mut RDF) -> (res: Result<Self::Output, RDFParseError>)
        requires
            old(rdf).focus() is Some,
            old(self).parse_requires(*old(rdf)),
        ensures
            *final(self) == *old(self),
            old(self).parse_ensures(*old(rdf), *final(rdf), res),
            final(rdf).graph() == old(rdf).graph(),
            final(rdf).reliable() == old(rdf).reliable(),
            final(rdf).focus() is Some,
    ;
}

/// Builds a parser that succeeds, with `()`, exactly when `predicate` holds of
/// the focus node, and fails with `NodeDoesntSatisfyCondition` otherwise.
pub fn satisfy<RDF, P>(predicate: P, predicate_name: &str) -> (res: Satisfy<RDF, P>)
    where
        RDF: SRDF,
        P: Fn(&Term) -> bool,
    ensures
        res.predicate() == predicate,
        res.predicate_name()@ == predicate_name@,
{
    Satisfy { predicate, predicate_name: predicate_name.to_string(), _marker: PhantomData }
}

/// A parser that tests the focus node with a predicate.
pub struct Satisfy<RDF, P> {
    predicate: P,
    predicate_name: String,
    _marker: PhantomData<RDF>,
}

impl<RDF, P> Satisfy<RDF, P> {
    pub closed spec fn predicate(&self) -> P {
        self.predicate
    }

    pub closed spec fn predicate_name(&self) -> String {
        self.predicate_name
    }
}

impl<RDF, P> RDFNodeParse<RDF> for Satisfy<RDF, P> where RDF: FocusRDF, P: Fn(&Term) -> bool {
    type Output = ();

    open spec fn parse_requires(&self, rdf: RDF) -> bool {
        forall|t: &Term| #[trigger] call_requires(self.predicate(), (t,))
    }

    open spec fn parse_ensures(&self, before: RDF, after: RDF, res: Result<(), RDFParseError>) -> bool {
        &&& after == before
        &&& before.focus() matches Some(t)
        &&& match res {
            Ok(_) => call_ensures(self.predicate(), (&t,), true),
            Err(e) => call_ensures(self.predicate(), (&t,), false) && e == (
            RDFParseError::NodeDoesntSatisfyCondition {
                condition_name: self.predicate_name(),
                node: t,
            }),
        }
    }

    fn parse_impl(&mut self, rdf: &mut RDF) -> (res: Result<(), RDFParseError>) {
        match rdf.get_focus() {
            Some(term) => {
                assert(call_requires(self.predicate(), (term,)));
                if (self.predicate)(term) {
                    Ok(())
                } else {
                    Err(
                        RDFParseError::NodeDoesntSatisfyCondition {
                            condition_name: self.predicate_name.clone(),
                            node: term.clone(),
                        },
                    )
                }
            },
            None => unreached(),
        }
    }
}


/// Builds a parser for the set of values of `property` at the focus node.
pub fn property_values<RDF: FocusRDF>(property: &String) -> (res: PropertyValues<RDF>)
    ensures
        res.property() == *property,
{
    PropertyValues { property: property.clone(), _marker: PhantomData }
}

/// What a run of a parser for the values of property `p` may give on a
/// store with graph `g` and focus `t`: the values of the triples with
/// subject `t` and predicate `p`, each once. A literal focus gives
/// `ExpectedSubject`; a store that fails gives `SRDFError`.
pub open spec fn values_outcome(
    g: Set<TripleView>,
    reliable: bool,
    t: Term,
    p: Seq<char>,
    res: Result<Vec<Term>, RDFParseError>,
) -> bool {
    match res {
        Ok(v) => is_subject_view(t@) && lists_set(terms_view(v@), objects_of(g, t@, p)),
        Err(e) => if is_subject_view(t@) {
            !reliable && e is SRDFError
        } else {
            e == (RDFParseError::ExpectedSubject { node: t })
        },
    }
}

/// A failure of the store is passed on with the message of the store's
/// error for the query of the objects of `t` and `p`.
pub open spec fn passes_store_error<RDF: SRDF, T>(
    store: RDF,
    t: TermView,
    p: Seq<char>,
    res: Result<T, RDFParseError>,
) -> bool {
    res matches Err(RDFParseError::SRDFError { err }) ==> store.fails_objects(t, p, err@)
}

/// A parser for the values of a property at the focus node.
pub struct PropertyValues<RDF: FocusRDF> {
    property: String,
    _marker: PhantomData<RDF>,
}

impl<RDF: FocusRDF> PropertyValues<RDF> {
    pub closed spec fn property(&self) -> String {
        self.property
    }
}

impl<RDF: FocusRDF> RDFNodeParse<RDF> for PropertyValues<RDF> {
    type Output = Vec<Term>;

    open spec fn parse_requires(&self, rdf: RDF) -> bool {
        true
    }

    /// The values are those of the triples with the focus as subject and the
    /// property as predicate, each once. A literal focus gives
    /// `ExpectedSubject`; a store that fails gives `SRDFError`.
    open spec fn parse_ensures(&self, before: RDF, after: RDF, res: Result<Vec<Term>, RDFParseError>) -> bool {
        &&& after == before
        &&& before.focus() matches Some(t)
        &&& values_outcome(before.graph(), before.reliable(), t, self.property()@, res)
        &&& passes_store_error(before, t@, self.property()@, res)
    }

    fn parse_impl(&mut self, rdf: &mut RDF) -> (res: Result<Vec<Term>, RDFParseError>) {
        let subject = rdf.get_focus_as_subject()?;
        let values = match rdf.get_objects_for_subject_predicate(&subject, &self.property) {
            Ok(values) => values,
            Err(e) => {
                return Err(RDFParseError::SRDFError { err: e.msg });
            },
        };
        Ok(values)
    }
}

/// Builds a parser for the single value of `property` at the focus node.
pub fn property_value<RDF: SRDF>(property: &String) -> (res: PropertyValue<RDF>)
    ensures
        res.property() == *property,
{
    PropertyValue { property: property.clone(), _marker: PhantomData }
}

/// A parser for the value of a property that has exactly one value at the
/// focus node.
pub struct PropertyValue<RDF: SRDF> {
    property: String,
    _marker: PhantomData<RDF>,
}

impl<RDF: SRDF> PropertyValue<RDF> {
    pub closed spec fn property(&self) -> String {
        self.property
    }
}

/// What a run of a single-value parser for property `p` may give on a store
/// with graph `g` and focus `t`.
pub open spec fn single_value_outcome(
    g: Set<TripleView>,
    reliable: bool,
    t: Term,
    p: Seq<char>,
    res: Result<Term, RDFParseError>,
) -> bool {
    let values = objects_of(g, t@, p);
    match res {
        Ok(v) => is_subject_view(t@) && values == set![v@],
        Err(e) => match e {
            RDFParseError::ExpectedSubject { node } => !is_subject_view(t@) && node == t,
            RDFParseError::SRDFError { .. } => is_subject_view(t@) && !reliable,
            RDFParseError::NoValuesPredicate { node, pred } => {
                &&& is_subject_view(t@)
                &&& node == t
                &&& pred@ == p
                &&& values == Set::<TermView>::empty()
            },
            RDFParseError::MoreThanOneValuePredicate { node, pred, value1, value2 } => {
                &&& is_subject_view(t@)
                &&& node == t
                &&& pred@ == p
                &&& value1@ != value2@
                &&& values.contains(value1@)
                &&& values.contains(value2@)
            },
            _ => false,
        },
    }
}

impl<RDF: FocusRDF> RDFNodeParse<RDF> for PropertyValue<RDF> {
    type Output = Term;

    open spec fn parse_requires(&self, rdf: RDF) -> bool {
        true
    }

    open spec fn parse_ensures(&self, before: RDF, after: RDF, res: Result<Term, RDFParseError>) -> bool {
        &&& after == before
        &&& before.focus() matches Some(t)
        &&& single_value_outcome(before.graph(), before.reliable(), t, self.property()@, res)
        &&& passes_store_error(before, t@, self.property()@, res)
    }

    fn parse_impl(&mut self, rdf: &mut RDF) -> (res: Result<Term, RDFParseError>) {
        let mut p: PropertyValues<RDF> = property_values(&self.property);
        let focus_node = rdf.get_focus_as_term()?.clone();
        let values = p.parse_impl(rdf)?;
        let ghost g = rdf.graph();
        let ghost vals = objects_of(g, focus_node@, self.property@);
        if values.len() >= 1 {
            if values.len() >= 2 {
                proof {
                    assert(terms_view(values@).contains(values@[0]@)) by {
                        assert(terms_view(values@)[0] == values@[0]@);
                    }
                    assert(terms_view(values@).contains(values@[1]@)) by {
                        assert(terms_view(values@)[1] == values@[1]@);
                    }
                    assert(terms_view(values@)[0] != terms_view(values@)[1]);
                }
                Err(
                    RDFParseError::MoreThanOneValuePredicate {
                        node: focus_node,
                        pred: self.property.clone(),
                        value1: values[0].clone(),
                        value2: values[1].clone(),
                    },
                )
            } else {
                proof {
                    assert(terms_view(values@) =~= seq![values@[0]@]);
                    assert(vals =~= set![values@[0]@]) by {
                        assert(seq![values@[0]@].to_set() =~= set![values@[0]@]) by {
                            assert(seq![values@[0]@][0] == values@[0]@);
                        }
                    }
                }
                Ok(values[0].clone())
            }
        } else {
            proof {
                assert(terms_view(values@) =~= Seq::<TermView>::empty());
                assert(vals =~= Set::<TermView>::empty());
            }
            Err(RDFParseError::NoValuesPredicate { node: focus_node, pred: self.property.clone() })
        }
    }
}


/// The term `rdf:nil`.
pub open spec fn nil_view() -> TermView {
    TermView::Iri(rdf_nil_iri())
}

/// Whether a node is `rdf:nil`.
pub fn node_is_rdf_nil(node: &Term) -> (res: bool)
    ensures
        res == (node@ == nil_view()),
{
    if let Some(iri) = object_as_iri(node) {
        iri.eq(&Vocab::rdf_nil())
    } else {
        false
    }
}

/// `nodes` are the cells of a well-formed RDF list in `g` with the elements
/// `elems`: each cell but the last is not `rdf:nil` and has exactly one
/// `rdf:first`, the element, and exactly one `rdf:rest`, the next cell; the
/// last cell is `rdf:nil`; and no cell after the first occurs twice or in
/// `visited`.
pub open spec fn is_rdf_list(
    g: Set<TripleView>,
    visited: Seq<TermView>,
    nodes: Seq<TermView>,
    elems: Seq<TermView>,
) -> bool {
    &&& nodes.len() == elems.len() + 1
    &&& nodes.last() == nil_view()
    &&& forall|i: int|
        0 <= i < elems.len() ==> {
            &&& #[trigger] nodes[i] != nil_view()
            &&& objects_of(g, nodes[i], rdf_first_iri()) == set![elems[i]]
            &&& objects_of(g, nodes[i], rdf_rest_iri()) == set![nodes[i + 1]]
        }
    &&& (visited + nodes.drop_first()).no_duplicates()
}

/// `head` is the first cell of a well-formed RDF list in `g` with the
/// elements `elems`, none of whose later cells occurs in `visited`.
pub open spec fn rdf_list_from(
    g: Set<TripleView>,
    visited: Seq<TermView>,
    head: TermView,
    elems: Seq<TermView>,
) -> bool {
    exists|nodes: Seq<TermView>|
        #![trigger is_rdf_list(g, visited, nodes, elems)]
        nodes.len() > 0 && nodes[0] == head && is_rdf_list(g, visited, nodes, elems)
}

/// The objects of the triples of `g`.
pub open spec fn all_objects(g: Set<TripleView>) -> Set<TermView> {
    g.map(|t: TripleView| t.2)
}

/// The number of objects of `g` that `visited` does not hold.
pub open spec fn unvisited_objects(g: Set<TripleView>, visited: Seq<TermView>) -> nat {
    all_objects(g).difference(visited.to_set()).len()
}

pub proof fn lemma_unvisited_decreases(g: Set<TripleView>, visited: Seq<TermView>, r: TermView)
    requires
        g.finite(),
        all_objects(g).contains(r),
        !visited.contains(r),
    ensures
        unvisited_objects(g, visited.push(r)) < unvisited_objects(g, visited),
{
    g.lemma_map_finite(|t: TripleView| t.2);
    let d = all_objects(g).difference(visited.to_set());
    assert(d.finite());
    assert(all_objects(g).difference(visited.push(r).to_set()) =~= d.remove(r)) by {
        visited.lemma_push_to_set_commute(r);
    }
    assert(d.contains(r));
}

/// Two well-formed lists from the same head have the same elements.
pub proof fn lemma_rdf_list_unique(
    g: Set<TripleView>,
    visited: Seq<TermView>,
    visited2: Seq<TermView>,
    nodes1: Seq<TermView>,
    elems1: Seq<TermView>,
    nodes2: Seq<TermView>,
    elems2: Seq<TermView>,
)
    requires
        is_rdf_list(g, visited, nodes1, elems1),
        is_rdf_list(g, visited2, nodes2, elems2),
        nodes1.len() > 0,
        nodes2.len() > 0,
        nodes1[0] == nodes2[0],
    ensures
        elems1 == elems2,
        nodes1 == nodes2,
    decreases nodes1.len(),
{
    if elems1.len() == 0 {
        if elems2.len() > 0 {
            assert(nodes2[0] != nil_view());
        }
        assert(elems1 =~= elems2);
        assert(nodes1 =~= nodes2);
    } else {
        if elems2.len() == 0 {
            assert(nodes1[0] != nil_view());
        }
        assert(nodes1[0] != nil_view());
        assert(set![elems1[0]].contains(elems1[0]));
        assert(set![elems2[0]].contains(elems2[0]));
        assert(elems1[0] == elems2[0]);
        assert(set![nodes1[1]].contains(nodes1[1]));
        assert(set![nodes2[1]].contains(nodes2[1]));
        assert(nodes1[1] == nodes2[1]);
        let v1 = visited.push(nodes1[1]);
        let v2 = visited2.push(nodes2[1]);
        assert(is_rdf_list(g, v1, nodes1.drop_first(), elems1.drop_first())) by {
            assert(v1 + nodes1.drop_first().drop_first() =~= visited + nodes1.drop_first());
            assert forall|i: int| 0 <= i < elems1.drop_first().len() implies {
                &&& #[trigger] nodes1.drop_first()[i] != nil_view()
                &&& objects_of(g, nodes1.drop_first()[i], rdf_first_iri()) == set![elems1.drop_first()[i]]
                &&& objects_of(g, nodes1.drop_first()[i], rdf_rest_iri()) == set![nodes1.drop_first()[i + 1]]
            } by {
                assert(nodes1.drop_first()[i] == nodes1[i + 1]);
            }
        }
        assert(is_rdf_list(g, v2, nodes2.drop_first(), elems2.drop_first())) by {
            assert(v2 + nodes2.drop_first().drop_first() =~= visited2 + nodes2.drop_first());
            assert forall|i: int| 0 <= i < elems2.drop_first().len() implies {
                &&& #[trigger] nodes2.drop_first()[i] != nil_view()
                &&& objects_of(g, nodes2.drop_first()[i], rdf_first_iri()) == set![elems2.drop_first()[i]]
                &&& objects_of(g, nodes2.drop_first()[i], rdf_rest_iri()) == set![nodes2.drop_first()[i + 1]]
            } by {
                assert(nodes2.drop_first()[i] == nodes2[i + 1]);
            }
        }
        lemma_rdf_list_unique(
            g,
            v1,
            v2,
            nodes1.drop_first(),
            elems1.drop_first(),
            nodes2.drop_first(),
            elems2.drop_first(),
        );
        assert(elems1 =~= seq![elems1[0]] + elems1.drop_first());
        assert(elems2 =~= seq![elems2[0]] + elems2.drop_first());
        assert(nodes1 =~= seq![nodes1[0]] + nodes1.drop_first());
        assert(nodes2 =~= seq![nodes2[0]] + nodes2.drop_first());
    }
}


/// A cell `nodes[0]` followed by a well-formed list from `nodes[1]` makes a
/// well-formed list.
proof fn lemma_rdf_list_cons(
    g: Set<TripleView>,
    visited: Seq<TermView>,
    head: TermView,
    value: TermView,
    rest: TermView,
    tail_nodes: Seq<TermView>,
    tail: Seq<TermView>,
)
    requires
        head != nil_view(),
        objects_of(g, head, rdf_first_iri()) == set![value],
        objects_of(g, head, rdf_rest_iri()) == set![rest],
        tail_nodes.len() > 0,
        tail_nodes[0] == rest,
        is_rdf_list(g, visited.push(rest), tail_nodes, tail),
    ensures
        is_rdf_list(g, visited, seq![head] + tail_nodes, seq![value] + tail),
{
    let nodes = seq![head] + tail_nodes;
    let elems = seq![value] + tail;
    assert(visited + nodes.drop_first() =~= visited.push(rest) + tail_nodes.drop_first());
    assert forall|i: int| 0 <= i < elems.len() implies {
        &&& #[trigger] nodes[i] != nil_view()
        &&& objects_of(g, nodes[i], rdf_first_iri()) == set![elems[i]]
        &&& objects_of(g, nodes[i], rdf_rest_iri()) == set![nodes[i + 1]]
    } by {
        if i > 0 {
            assert(nodes[i] == tail_nodes[i - 1]);
            assert(tail_nodes[(i - 1) + 1] == nodes[i + 1]);
        }
    }
}

/// The list from `nodes[0]` is well-formed from `nodes[1]` on, once `nodes[1]`
/// is visited.
proof fn lemma_rdf_list_tail(
    g: Set<TripleView>,
    visited: Seq<TermView>,
    nodes: Seq<TermView>,
    elems: Seq<TermView>,
)
    requires
        is_rdf_list(g, visited, nodes, elems),
        elems.len() > 0,
    ensures
        is_rdf_list(g, visited.push(nodes[1]), nodes.drop_first(), elems.drop_first()),
        !visited.contains(nodes[1]),
        visited.push(nodes[1]).no_duplicates(),
{
    let v1 = visited.push(nodes[1]);
    assert(v1 + nodes.drop_first().drop_first() =~= visited + nodes.drop_first());
    assert forall|i: int| 0 <= i < elems.drop_first().len() implies {
        &&& #[trigger] nodes.drop_first()[i] != nil_view()
        &&& objects_of(g, nodes.drop_first()[i], rdf_first_iri()) == set![elems.drop_first()[i]]
        &&& objects_of(g, nodes.drop_first()[i], rdf_rest_iri()) == set![nodes.drop_first()[i + 1]]
    } by {
        assert(nodes.drop_first()[i] == nodes[i + 1]);
    }
    let s = visited + nodes.drop_first();
    assert(s[visited.len() as int] == nodes[1]);
    if visited.contains(nodes[1]) {
        let k = choose|k: int| 0 <= k < visited.len() && visited[k] == nodes[1];
        assert(s[k] == nodes[1]);
    }
    assert forall|a: int, b: int| 0 <= a < v1.len() && 0 <= b < v1.len() && a != b implies v1[a] != v1[b] by {
        assert(v1[a] == s[a]);
        assert(v1[b] == s[b]);
    }
}

/// `s` holds exactly one value.
pub open spec fn single_of(s: Set<TermView>) -> bool {
    exists|v: TermView| s == set![v]
}

/// The value of a set that holds exactly one.
pub open spec fn the_single(s: Set<TermView>) -> TermView {
    choose|v: TermView| s == set![v]
}

proof fn lemma_single(s: Set<TermView>, v: TermView)
    requires
        s == set![v],
    ensures
        single_of(s),
        the_single(s) == v,
        s != Set::<TermView>::empty(),
{
    assert(set![v].contains(v));
    assert(!Set::<TermView>::empty().contains(v));
    let w = the_single(s);
    assert(s == set![w]);
    assert(set![w].contains(v));
}

proof fn lemma_not_single(s: Set<TermView>, a: TermView, b: TermView)
    requires
        a != b,
        s.contains(a),
        s.contains(b),
    ensures
        !single_of(s),
        s != Set::<TermView>::empty(),
{
    if single_of(s) {
        let w = the_single(s);
        assert(set![w].contains(a));
        assert(set![w].contains(b));
    }
    assert(!Set::<TermView>::empty().contains(a));
}

/// How reading an RDF list from a cell ends on a store that answers every
/// query: with its elements, or at the defect that stops it.
pub enum ListWalk {
    /// The elements of a well-formed list.
    Elems(Seq<TermView>),
    /// A cell that is a literal, so it has no triples.
    NotSubject(TermView),
    /// A cell without a value for a predicate (`rdf:first` or `rdf:rest`).
    NoValues(TermView, Seq<char>),
    /// A cell with more than one value for a predicate.
    ManyValues(TermView, Seq<char>),
    /// A next cell met before.
    Recursive(TermView),
}

/// Reads the list from the cell `n`, the cells in `visited` having been
/// met: `rdf:nil` ends the list; otherwise the cell must be a subject, with
/// exactly one `rdf:first`, the element, and exactly one `rdf:rest`, the
/// next cell, which must be new and a subject; the list goes on from there.
pub open spec fn list_walk(g: Set<TripleView>, visited: Seq<TermView>, n: TermView) -> ListWalk
    decreases unvisited_objects(g, visited),
    when g.finite()
{
    let firsts = objects_of(g, n, rdf_first_iri());
    let rests = objects_of(g, n, rdf_rest_iri());
    if n == nil_view() {
        ListWalk::Elems(Seq::empty())
    } else if !is_subject_view(n) {
        ListWalk::NotSubject(n)
    } else if firsts == Set::<TermView>::empty() {
        ListWalk::NoValues(n, rdf_first_iri())
    } else if !single_of(firsts) {
        ListWalk::ManyValues(n, rdf_first_iri())
    } else if rests == Set::<TermView>::empty() {
        ListWalk::NoValues(n, rdf_rest_iri())
    } else if !single_of(rests) {
        ListWalk::ManyValues(n, rdf_rest_iri())
    } else {
        let v = the_single(firsts);
        let r = the_single(rests);
        if visited.contains(r) {
            ListWalk::Recursive(r)
        } else if !is_subject_view(r) {
            ListWalk::NotSubject(r)
        } else {
            proof {
                lemma_walk_step_decreases(g, visited, n, r);
            }
            match list_walk(g, visited.push(r), r) {
                ListWalk::Elems(es) => ListWalk::Elems(seq![v] + es),
                other => other,
            }
        }
    }
}

pub proof fn lemma_walk_step_decreases(g: Set<TripleView>, visited: Seq<TermView>, n: TermView, r: TermView)
    requires
        g.finite(),
        single_of(objects_of(g, n, rdf_rest_iri())),
        r == the_single(objects_of(g, n, rdf_rest_iri())),
        !visited.contains(r),
    ensures
        unvisited_objects(g, visited.push(r)) < unvisited_objects(g, visited),
{
    assert(set![r].contains(r));
    assert(g.contains((n, rdf_rest_iri(), r)));
    assert(all_objects(g).contains(r)) by {
        let t: TripleView = (n, rdf_rest_iri(), r);
        assert(g.contains(t) && t.2 == r);
    }
    lemma_unvisited_decreases(g, visited, r);
}

/// `res` is what a run gives where the reading of the list ends as `w`:
/// the elements, or the error for the defect, naming the cell (and the
/// predicate, with two of its values where it has many).
pub open spec fn walk_result(g: Set<TripleView>, w: ListWalk, res: Result<Vec<Term>, RDFParseError>) -> bool {
    match w {
        ListWalk::Elems(es) => res matches Ok(vs) && terms_view(vs@) == es,
        ListWalk::NotSubject(t) => res matches Err(RDFParseError::ExpectedSubject { node }) && node@
            == t,
        ListWalk::NoValues(n, p) => res matches Err(RDFParseError::NoValuesPredicate { node, pred })
            && node@ == n && pred@ == p,
        ListWalk::ManyValues(n, p) => res matches Err(
            RDFParseError::MoreThanOneValuePredicate { node, pred, value1, value2 },
        ) && node@ == n && pred@ == p && value1@ != value2@ && objects_of(g, n, p).contains(value1@)
            && objects_of(g, n, p).contains(value2@),
        ListWalk::Recursive(r) => res matches Err(RDFParseError::RecursiveRDFList { node }) && node@
            == r,
    }
}

/// No triple of `g` has a literal as its subject.
pub open spec fn no_literal_subjects(g: Set<TripleView>) -> bool {
    forall|s: TermView, p: Seq<char>, o: TermView| #[trigger] g.contains((s, p, o)) ==> is_subject_view(s)
}

/// A well-formed list is read to its elements.
proof fn lemma_walk_of_list(g: Set<TripleView>, visited: Seq<TermView>, nodes: Seq<TermView>, elems: Seq<TermView>)
    requires
        g.finite(),
        no_literal_subjects(g),
        is_rdf_list(g, visited, nodes, elems),
    ensures
        list_walk(g, visited, nodes[0]) == ListWalk::Elems(elems),
    decreases elems.len(),
{
    if elems.len() == 0 {
        assert(nodes.last() == nodes[0]);
        assert(elems =~= Seq::<TermView>::empty());
    } else {
        let n = nodes[0];
        assert(n != nil_view());
        assert(set![elems[0]].contains(elems[0]));
        assert(g.contains((n, rdf_first_iri(), elems[0])));
        lemma_single(objects_of(g, n, rdf_first_iri()), elems[0]);
        lemma_single(objects_of(g, n, rdf_rest_iri()), nodes[1]);
        assert(objects_of(g, n, rdf_first_iri()).contains(elems[0]));
        lemma_rdf_list_tail(g, visited, nodes, elems);
        if elems.len() > 1 {
            assert(nodes[1] != nil_view());
            assert(set![elems[1]].contains(elems[1]));
            assert(g.contains((nodes[1], rdf_first_iri(), elems[1])));
        } else {
            assert(nodes.last() == nodes[1]);
        }
        assert(nodes.drop_first()[0] == nodes[1]);
        lemma_walk_of_list(g, visited.push(nodes[1]), nodes.drop_first(), elems.drop_first());
        assert(elems =~= seq![elems[0]] + elems.drop_first());
    }
}

/// What is read to elements is a well-formed list.
proof fn lemma_list_of_walk(g: Set<TripleView>, visited: Seq<TermView>, f: TermView, es: Seq<TermView>)
    requires
        g.finite(),
        visited.no_duplicates(),
        list_walk(g, visited, f) == ListWalk::Elems(es),
    ensures
        rdf_list_from(g, visited, f, es),
    decreases unvisited_objects(g, visited),
{
    if f == nil_view() {
        let nodes = seq![f];
        assert(visited + nodes.drop_first() =~= visited);
        assert(es =~= Seq::<TermView>::empty());
        assert(is_rdf_list(g, visited, nodes, es));
    } else {
        let firsts = objects_of(g, f, rdf_first_iri());
        let rests = objects_of(g, f, rdf_rest_iri());
        let v = the_single(firsts);
        let r = the_single(rests);
        lemma_walk_step_decreases(g, visited, f, r);
        let w2 = list_walk(g, visited.push(r), r);
        let es2 = w2->Elems_0;
        assert(es == seq![v] + es2);
        let v2 = visited.push(r);
        assert(v2.no_duplicates()) by {
            assert forall|a: int, b: int|
                0 <= a < v2.len() && 0 <= b < v2.len() && a != b implies v2[a] != v2[b] by {
                if a == visited.len() {
                    assert(visited.contains(v2[b]));
                }
                if b == visited.len() {
                    assert(visited.contains(v2[a]));
                }
            }
        }
        lemma_list_of_walk(g, v2, r, es2);
        let tail_nodes = choose|nodes: Seq<TermView>|
            #![trigger is_rdf_list(g, v2, nodes, es2)]
            nodes.len() > 0 && nodes[0] == r && is_rdf_list(g, v2, nodes, es2);
        lemma_rdf_list_cons(g, visited, f, v, r, tail_nodes, es2);
        let nodes = seq![f] + tail_nodes;
        assert(nodes[0] == f);
        assert(is_rdf_list(g, visited, nodes, es));
    }
}

/// An error of a single-value parser at a cell that is not `rdf:nil` is the
/// error that reading the list gives there.
proof fn lemma_value_error(g: Set<TripleView>, reliable: bool, t: Term, p: Seq<char>, e: RDFParseError)
    requires
        single_value_outcome(g, reliable, t, p, Err(e)),
    ensures
        (e is SRDFError && !reliable) || (e matches RDFParseError::ExpectedSubject { node } && node@ == t@ && !is_subject_view(t@))
            || (e matches RDFParseError::NoValuesPredicate { node, pred } && node@ == t@ && pred@ == p && objects_of(g, t@, p) == Set::<TermView>::empty())
            || (e matches RDFParseError::MoreThanOneValuePredicate { node, pred, value1, value2 } && node@ == t@ && pred@ == p
                && value1@ != value2@ && objects_of(g, t@, p).contains(value1@) && objects_of(g, t@, p).contains(value2@)
                && !single_of(objects_of(g, t@, p)) && objects_of(g, t@, p) != Set::<TermView>::empty()),
{
    if let RDFParseError::MoreThanOneValuePredicate { node, pred, value1, value2 } = e {
        lemma_not_single(objects_of(g, t@, p), value1@, value2@);
    }
}

/// The store may fail the query for the `rdf:first` or the `rdf:rest` of
/// some cell with `msg`.
pub open spec fn list_store_error<RDF: SRDF>(store: RDF, msg: Seq<char>) -> bool {
    exists|n: TermView|
        #![trigger store.fails_objects(n, rdf_first_iri(), msg)]
        #![trigger store.fails_objects(n, rdf_rest_iri(), msg)]
        store.fails_objects(n, rdf_first_iri(), msg) || store.fails_objects(n, rdf_rest_iri(), msg)
}

/// Parses the RDF list whose first cell is the focus node. `visited` holds
/// the cells seen so far, the focus last.
fn parse_list<RDF: FocusRDF>(visited: Vec<Term>, rdf: &mut RDF) -> (res: Result<Vec<Term>, RDFParseError>)
    requires
        old(rdf).focus() is Some,
        visited@.len() > 0,
        visited@.last()@ == old(rdf).focus()->0@,
        terms_view(visited@).no_duplicates(),
    ensures
        final(rdf).graph() == old(rdf).graph(),
        final(rdf).reliable() == old(rdf).reliable(),
        final(rdf).focus() is Some,
        (res matches Err(RDFParseError::SRDFError { .. }) && !old(rdf).reliable()) || walk_result(
            old(rdf).graph(),
            list_walk(old(rdf).graph(), terms_view(visited@), old(rdf).focus()->0@),
            res,
        ),
        res is Ok ==> (final(rdf).focus() matches Some(t) && t@ == nil_view()),
        res matches Err(RDFParseError::SRDFError { err }) ==> list_store_error(*old(rdf), err@),
    decreases unvisited_objects(old(rdf).graph(), terms_view(visited@)),
{
    let ghost g = rdf.graph();
    let ghost vis = terms_view(visited@);
    let ghost f = rdf.focus()->0;
    let ghost reliable = rdf.reliable();
    proof {
        rdf.lemma_graph_finite();
    }
    let mut visited = visited;
    let focus = rdf.get_focus_as_term()?;
    if node_is_rdf_nil(focus) {
        let res: Vec<Term> = Vec::new();
        assert(terms_view(res@) =~= Seq::<TermView>::empty());
        return Ok(res);
    }
    let mut first_parser: PropertyValue<RDF> = property_value(&Vocab::rdf_first());
    let mut rest_parser: PropertyValue<RDF> = property_value(&Vocab::rdf_rest());
    let value = match first_parser.parse_impl(rdf) {
        Ok(value) => value,
        Err(e) => {
            proof {
                lemma_value_error(g, reliable, f, rdf_first_iri(), e);
            }
            return Err(e);
        },
    };
    proof {
        lemma_single(objects_of(g, f@, rdf_first_iri()), value@);
    }
    let rest = match rest_parser.parse_impl(rdf) {
        Ok(rest) => rest,
        Err(e) => {
            proof {
                lemma_value_error(g, reliable, f, rdf_rest_iri(), e);
            }
            return Err(e);
        },
    };
    proof {
        lemma_single(objects_of(g, f@, rdf_rest_iri()), rest@);
    }
    if contains_term(&visited, &rest) {
        return Err(RDFParseError::RecursiveRDFList { node: rest });
    }
    visited.push(rest.clone());
    let ghost vis2 = terms_view(visited@);
    assert(vis2 =~= vis.push(rest@));
    let _rest_subj = match term_as_subject(&rest) {
        Some(s) => s,
        None => {
            return Err(RDFParseError::ExpectedSubject { node: rest });
        },
    };
    let mut rest_ls: Vec<Term> = Vec::new();
    rest_ls.push(value);
    rdf.set_focus(&rest);
    proof {
        old(rdf).lemma_with_focus(rest);
        lemma_walk_step_decreases(g, vis, f@, rest@);
        assert(vis2.no_duplicates()) by {
            assert forall|a: int, b: int|
                0 <= a < vis2.len() && 0 <= b < vis2.len() && a != b implies vis2[a] != vis2[b] by {
                if a == vis.len() {
                    assert(vis.contains(vis2[b]));
                }
                if b == vis.len() {
                    assert(vis.contains(vis2[a]));
                }
            }
        }
    }
    let ghost head_value = value@;
    let ghost w2 = list_walk(g, vis2, rest@);
    assert(list_walk(g, vis, f@) == match w2 {
        ListWalk::Elems(es) => ListWalk::Elems(seq![head_value] + es),
        other => other,
    });
    match parse_list(visited, rdf) {
        Ok(mut tail) => {
            let ghost tail_view = terms_view(tail@);
            rest_ls.append(&mut tail);
            assert(terms_view(rest_ls@) =~= seq![head_value] + tail_view);
            Ok(rest_ls)
        },
        Err(e) => Err(e),
    }
}

/// Builds a parser that reads the focus node as an RDF list.
pub fn rdf_list<RDF: SRDF>() -> (res: RDFList<RDF>) {
    RDFList { _marker: PhantomData }
}

/// A parser that reads the focus node as the first cell of an RDF list and
/// gives its elements in order.
pub struct RDFList<RDF: SRDF> {
    _marker: PhantomData<RDF>,
}

impl<RDF: FocusRDF> RDFNodeParse<RDF> for RDFList<RDF> {
    type Output = Vec<Term>;

    open spec fn parse_requires(&self, rdf: RDF) -> bool {
        true
    }

    /// The result is what reading the list from the focus node gives
    /// (`list_walk`): its elements, or the error for its first defect,
    /// naming the cell; a store that may fail may instead give `SRDFError`,
    /// with the message of its failure of a query of a cell.
    /// A success gives the elements of the well-formed list that starts at
    /// the focus node and leaves the focus on the `rdf:nil` that ends it; on
    /// a store that answers every query, the parser succeeds whenever there
    /// is such a list.
    open spec fn parse_ensures(&self, before: RDF, after: RDF, res: Result<Vec<Term>, RDFParseError>) -> bool {
        &&& after.graph() == before.graph()
        &&& after.reliable() == before.reliable()
        &&& before.focus() matches Some(f)
        &&& (res matches Err(RDFParseError::SRDFError { .. }) && !before.reliable()) || walk_result(
            before.graph(),
            list_walk(before.graph(), seq![f@], f@),
            res,
        )
        &&& res is Ok ==> (after.focus() matches Some(t) && t@ == nil_view())
        &&& res matches Err(RDFParseError::SRDFError { err }) ==> list_store_error(before, err@)
        &&& res matches Ok(vs) ==> rdf_list_from(before.graph(), seq![f@], f@, terms_view(vs@))
        &&& (before.reliable() && exists|elems: Seq<TermView>|
            rdf_list_from(before.graph(), seq![f@], f@, elems)) ==> res is Ok
    }

    fn parse_impl(&mut self, rdf: &mut RDF) -> (res: Result<Vec<Term>, RDFParseError>) {
        let ghost g = rdf.graph();
        let ghost f = rdf.focus()->0;
        proof {
            rdf.lemma_graph_finite();
            assert forall|s: TermView, p: Seq<char>, o: TermView| #[trigger] g.contains((s, p, o)) implies is_subject_view(s) by {
                rdf.lemma_subjects_not_literal(s, p, o);
            }
        }
        match rdf.get_focus() {
            Some(_) => {
                let focus = rdf.get_focus_as_term()?;
                let visited = vec![focus.clone()];
                let ghost vis = seq![f@];
                assert(terms_view(visited@) =~= vis);
                let res = parse_list(visited, rdf);
                proof {
                    if res is Ok {
                        lemma_list_of_walk(g, vis, f@, terms_view(res->Ok_0@));
                    }
                    if exists|elems: Seq<TermView>| rdf_list_from(g, vis, f@, elems) {
                        let elems = choose|elems: Seq<TermView>| rdf_list_from(g, vis, f@, elems);
                        let nodes = choose|nodes: Seq<TermView>|
                            #![trigger is_rdf_list(g, vis, nodes, elems)]
                            nodes.len() > 0 && nodes[0] == f@ && is_rdf_list(g, vis, nodes, elems);
                        lemma_walk_of_list(g, vis, nodes, elems);
                    }
                }
                res
            },
            None => unreached(),
        }
    }
}

/// Builds a parser that succeeds exactly when the focus node is `rdf:nil`.
pub fn parse_rdf_nil<RDF: FocusRDF>() -> (res: Satisfy<RDF, impl Fn(&Term) -> bool>)
    ensures
        forall|t: &Term| call_requires(res.predicate(), (t,)),
        forall|t: &Term, b: bool| call_ensures(res.predicate(), (t,), b) ==> b == (t@ == nil_view()),
        res.predicate_name()@ == "rdf_nil"@,
{
    let is_nil = |node: &Term| -> (b: bool)
        ensures
            b == (node@ == nil_view()),
        { node_is_rdf_nil(node) };
    satisfy(is_nil, "rdf_nil")
}


/// On a store that answers every query, the list parser gives the elements
/// `elems` exactly when the focus node starts a well-formed RDF list with the
/// elements `elems`.
pub proof fn law_rdf_list_exact<RDF: FocusRDF>(
    p: RDFList<RDF>,
    before: RDF,
    after: RDF,
    res: Result<Vec<Term>, RDFParseError>,
    elems: Seq<TermView>,
)
    requires
        p.parse_ensures(before, after, res),
        before.reliable(),
    ensures
        before.focus() matches Some(f) && ((res matches Ok(vs) && terms_view(vs@) == elems)
            <==> rdf_list_from(before.graph(), seq![f@], f@, elems)),
{
    let f = before.focus()->0;
    let g = before.graph();
    let vis = seq![f@];
    if rdf_list_from(g, vis, f@, elems) {
        let vs = res->Ok_0;
        let n1 = choose|nodes: Seq<TermView>|
            #![trigger is_rdf_list(g, vis, nodes, elems)]
            nodes.len() > 0 && nodes[0] == f@ && is_rdf_list(g, vis, nodes, elems);
        let n2 = choose|nodes: Seq<TermView>|
            #![trigger is_rdf_list(g, vis, nodes, terms_view(vs@))]
            nodes.len() > 0 && nodes[0] == f@ && is_rdf_list(g, vis, nodes, terms_view(vs@));
        lemma_rdf_list_unique(g, vis, vis, n1, elems, n2, terms_view(vs@));
    }
}

/// On a store that answers every query, a single-value parser succeeds
/// exactly when the property has exactly one value at the focus node, and
/// gives that value.
pub proof fn law_single_value_exact(
    g: Set<TripleView>,
    t: Term,
    p: Seq<char>,
    res: Result<Term, RDFParseError>,
    v: TermView,
)
    requires
        single_value_outcome(g, true, t, p, res),
    ensures
        (res matches Ok(r) && r@ == v) <==> (is_subject_view(t@) && objects_of(g, t@, p) == set![v]),
{
    if is_subject_view(t@) && objects_of(g, t@, p) == set![v] {
        assert(set![v].contains(v));
        if res is Err {
            let e = res->Err_0;
            if e is MoreThanOneValuePredicate {
                assert(set![v].contains(e->MoreThanOneValuePredicate_value1@));
                assert(set![v].contains(e->MoreThanOneValuePredicate_value2@));
            }
        } else {
            let r = res->Ok_0;
            assert(set![r@].contains(r@));
        }
    }
}

/// A parser that applies a function to the result of another parser.
pub struct MapParser<P, F> {
    parser: P,
    f: F,
}

impl<P, F> MapParser<P, F> {
    pub closed spec fn parser(&self) -> P {
        self.parser
    }

    pub closed spec fn function(&self) -> F {
        self.f
    }
}

/// Builds a parser that runs `parser` and applies `f` to its result.
pub fn map<RDF, P, F, B>(parser: P, f: F) -> (res: MapParser<P, F>)
    where
        RDF: FocusRDF,
        P: RDFNodeParse<RDF>,
        F: Fn(P::Output) -> B,
    ensures
        res.parser() == parser,
        res.function() == f,
{
    MapParser { parser, f }
}

impl<RDF, A, B, P, F> RDFNodeParse<RDF> for MapParser<P, F> where
    RDF: FocusRDF,
    P: RDFNodeParse<RDF, Output = A>,
    F: Fn(A) -> B,
 {
    type Output = B;

    open spec fn parse_requires(&self, rdf: RDF) -> bool {
        &&& self.parser().parse_requires(rdf)
        &&& forall|a: A| #[trigger] call_requires(self.function(), (a,))
    }

    /// A run of the inner parser; its value goes through the function, its
    /// error is passed on.
    open spec fn parse_ensures(&self, before: RDF, after: RDF, res: Result<B, RDFParseError>) -> bool {
        exists|r: Result<A, RDFParseError>|
            #[trigger] self.parser().parse_ensures(before, after, r) && match r {
                Ok(a) => res matches Ok(b) && call_ensures(self.function(), (a,), b),
                Err(e) => res == Err::<B, RDFParseError>(e),
            }
    }

    fn parse_impl(&mut self, rdf: &mut RDF) -> (res: Result<B, RDFParseError>) {
        let r = self.parser.parse_impl(rdf);
        let ghost gr = r;
        let res = match r {
            Ok(a) => {
                assert(call_requires(self.function(), (a,)));
                Ok((self.f)(a))
            },
            Err(e) => Err(e),
        };
        assert(self.parser().parse_ensures(*old(rdf), *rdf, gr));
        res
    }
}

/// Builds a parser that runs `parser` and then `function` on its result; an
/// error of the function is converted into a parse error.
pub fn and_then<RDF, P, F, O, E>(parser: P, function: F) -> (res: AndThen<P, F>)
    where
        RDF: FocusRDF,
        P: RDFNodeParse<RDF>,
        F: Fn(P::Output) -> Result<O, E>,
        E: Into<RDFParseError>,
    ensures
        res.parser() == parser,
        res.function() == function,
{
    AndThen { parser, function }
}

/// A parser that runs a fallible function on the result of another parser.
pub struct AndThen<P, F> {
    parser: P,
    function: F,
}

impl<P, F> AndThen<P, F> {
    pub closed spec fn parser(&self) -> P {
        self.parser
    }

    pub closed spec fn function(&self) -> F {
        self.function
    }
}

impl<RDF, A, P, F, O, E> RDFNodeParse<RDF> for AndThen<P, F> where
    RDF: FocusRDF,
    P: RDFNodeParse<RDF, Output = A>,
    F: Fn(A) -> Result<O, E>,
    E: Into<RDFParseError>,
 {
    type Output = O;

    open spec fn parse_requires(&self, rdf: RDF) -> bool {
        &&& self.parser().parse_requires(rdf)
        &&& forall|a: A| #[trigger] call_requires(self.function(), (a,))
    }

    /// A run of the inner parser; its value goes through the function, whose
    /// value is the result and whose error is converted; an error of the
    /// inner parser is passed on.
    open spec fn parse_ensures(&self, before: RDF, after: RDF, res: Result<O, RDFParseError>) -> bool {
        exists|r: Result<A, RDFParseError>|
            #[trigger] self.parser().parse_ensures(before, after, r) && match r {
                Ok(a) => exists|fr: Result<O, E>|
                    #[trigger] call_ensures(self.function(), (a,), fr) && match fr {
                        Ok(o) => res == Ok::<O, RDFParseError>(o),
                        Err(e) => res is Err && (<E as vstd::std_specs::convert::IntoSpec<
                            RDFParseError,
                        >>::obeys_into_spec() ==> res == Err::<O, RDFParseError>(
                            vstd::std_specs::convert::IntoSpec::<RDFParseError>::into_spec(e),
                        )),
                    },
                Err(e) => res == Err::<O, RDFParseError>(e),
            }
    }

    fn parse_impl(&mut self, rdf: &mut RDF) -> (res: Result<O, RDFParseError>) {
        let r = self.parser.parse_impl(rdf);
        let ghost gr = r;
        let res = match r {
            Ok(value) => {
                assert(call_requires(self.function(), (value,)));
                let fr = (self.function)(value);
                let ghost gfr = fr;
                let res = match fr {
                    Ok(result) => Ok(result),
                    Err(e) => Err(e.into()),
                };
                assert(call_ensures(self.function(), (value,), gfr));
                res
            },
            Err(err) => Err(err),
        };
        assert(self.parser().parse_ensures(*old(rdf), *rdf, gr));
        res
    }
}

/// Builds a parser that runs `parser` and then the parse step `function` on
/// its result.
pub fn flat_map<RDF, P, F, O>(parser: P, function: F) -> (res: FlatMap<P, F>)
    where
        RDF: FocusRDF,
        P: RDFNodeParse<RDF>,
        F: Fn(P::Output) -> Result<O, RDFParseError>,
    ensures
        res.parser() == parser,
        res.function() == function,
{
    FlatMap { parser, function }
}

/// A parser that runs a parse step on the result of another parser.
pub struct FlatMap<P, F> {
    parser: P,
    function: F,
}

impl<P, F> FlatMap<P, F> {
    pub closed spec fn parser(&self) -> P {
        self.parser
    }

    pub closed spec fn function(&self) -> F {
        self.function
    }
}

impl<RDF, A, P, F, O> RDFNodeParse<RDF> for FlatMap<P, F> where
    RDF: FocusRDF,
    P: RDFNodeParse<RDF, Output = A>,
    F: Fn(A) -> Result<O, RDFParseError>,
 {
    type Output = O;

    open spec fn parse_requires(&self, rdf: RDF) -> bool {
        &&& self.parser().parse_requires(rdf)
        &&& forall|a: A| #[trigger] call_requires(self.function(), (a,))
    }

    /// A run of the inner parser; its value goes through the parse step,
    /// whose outcome is the result; an error of the inner parser is passed on.
    open spec fn parse_ensures(&self, before: RDF, after: RDF, res: Result<O, RDFParseError>) -> bool {
        exists|r: Result<A, RDFParseError>|
            #[trigger] self.parser().parse_ensures(before, after, r) && match r {
                Ok(a) => call_ensures(self.function(), (a,), res),
                Err(e) => res == Err::<O, RDFParseError>(e),
            }
    }

    fn parse_impl(&mut self, rdf: &mut RDF) -> (res: Result<O, RDFParseError>) {
        let r = self.parser.parse_impl(rdf);
        let ghost gr = r;
        let res = match r {
            Ok(value) => {
                assert(call_requires(self.function(), (value,)));
                match (self.function)(value) {
                    Ok(result) => Ok(result),
                    Err(err) => Err(err),
                }
            },
            Err(err) => Err(err),
        };
        assert(self.parser().parse_ensures(*old(rdf), *rdf, gr));
        res
    }
}


/// A map whose function gives back its argument behaves as the parser it
/// wraps.
pub proof fn law_map_identity<RDF, A, P, F>(m: MapParser<P, F>, before: RDF, after: RDF, res: Result<A, RDFParseError>)
    where
        RDF: FocusRDF,
        P: RDFNodeParse<RDF, Output = A>,
        F: Fn(A) -> A,
    requires
        forall|a: A, b: A| call_ensures(m.function(), (a,), b) ==> b == a,
        m.parse_ensures(before, after, res),
    ensures
        m.parser().parse_ensures(before, after, res),
{
    let r = choose|r: Result<A, RDFParseError>|
        #[trigger] m.parser().parse_ensures(before, after, r) && match r {
            Ok(a) => res matches Ok(b) && call_ensures(m.function(), (a,), b),
            Err(e) => res == Err::<A, RDFParseError>(e),
        };
    if let Ok(a) = r {
        assert(call_ensures(m.function(), (a,), res->Ok_0));
    }
    assert(r == res);
}

/// Mapping `f` and then `g` behaves as mapping a function `h` that gives
/// what `g` gives of what `f` gives.
pub proof fn law_map_composition<RDF, A, B, C, P, F, G, H>(
    m: MapParser<MapParser<P, F>, G>,
    h: MapParser<P, H>,
    before: RDF,
    after: RDF,
    res: Result<C, RDFParseError>,
)
    where
        RDF: FocusRDF,
        P: RDFNodeParse<RDF, Output = A>,
        F: Fn(A) -> B,
        G: Fn(B) -> C,
        H: Fn(A) -> C,
    requires
        h.parser() == m.parser().parser(),
        forall|a: A, c: C|
            #[trigger] call_ensures(h.function(), (a,), c) <==> exists|b: B|
                call_ensures(m.parser().function(), (a,), b) && call_ensures(m.function(), (b,), c),
    ensures
        m.parse_ensures(before, after, res) <==> h.parse_ensures(before, after, res),
{
    let inner = m.parser();
    let p = inner.parser();
    if m.parse_ensures(before, after, res) {
        let r1 = choose|r1: Result<B, RDFParseError>|
            #[trigger] inner.parse_ensures(before, after, r1) && match r1 {
                Ok(b) => res matches Ok(c) && call_ensures(m.function(), (b,), c),
                Err(e) => res == Err::<C, RDFParseError>(e),
            };
        let r0 = choose|r0: Result<A, RDFParseError>|
            #[trigger] p.parse_ensures(before, after, r0) && match r0 {
                Ok(a) => r1 matches Ok(b) && call_ensures(inner.function(), (a,), b),
                Err(e) => r1 == Err::<B, RDFParseError>(e),
            };
        if let Ok(a) = r0 {
            let b = r1->Ok_0;
            let c = res->Ok_0;
            assert(call_ensures(inner.function(), (a,), b) && call_ensures(m.function(), (b,), c));
            assert(call_ensures(h.function(), (a,), c));
        }
        assert(p.parse_ensures(before, after, r0));
    }
    if h.parse_ensures(before, after, res) {
        let r = choose|r: Result<A, RDFParseError>|
            #[trigger] p.parse_ensures(before, after, r) && match r {
                Ok(a) => res matches Ok(c) && call_ensures(h.function(), (a,), c),
                Err(e) => res == Err::<C, RDFParseError>(e),
            };
        match r {
            Ok(a) => {
                let c = res->Ok_0;
                assert(call_ensures(h.function(), (a,), c));
                let b = choose|b: B|
                    call_ensures(inner.function(), (a,), b) && call_ensures(m.function(), (b,), c);
                let r1 = Ok::<B, RDFParseError>(b);
                assert(inner.parse_ensures(before, after, r1));
            },
            Err(e) => {
                let r1 = Err::<B, RDFParseError>(e);
                assert(inner.parse_ensures(before, after, r1));
            },
        }
    }
}

/// A flat map whose parse step gives back its argument behaves as the
/// parser it wraps.
pub proof fn law_flat_map_identity<RDF, A, P, F>(
    fm: FlatMap<P, F>,
    before: RDF,
    after: RDF,
    res: Result<A, RDFParseError>,
)
    where
        RDF: FocusRDF,
        P: RDFNodeParse<RDF, Output = A>,
        F: Fn(A) -> Result<A, RDFParseError>,
    requires
        forall|a: A, r: Result<A, RDFParseError>|
            call_ensures(fm.function(), (a,), r) ==> r == Ok::<A, RDFParseError>(a),
        fm.parse_ensures(before, after, res),
    ensures
        fm.parser().parse_ensures(before, after, res),
{
    let r = choose|r: Result<A, RDFParseError>|
        #[trigger] fm.parser().parse_ensures(before, after, r) && match r {
            Ok(a) => call_ensures(fm.function(), (a,), res),
            Err(e) => res == Err::<A, RDFParseError>(e),
        };
    assert(r == res);
}

/// A parser of a whole RDF store.
pub trait RDFParse<RDF: SRDF> {
    /// The type of what a successful parse gives.
    type Output;

    fn parse(&mut self, rdf: RDF) -> Result<Self::Output, SRDFError>;
}

/// What a lookup of the single instance of `object` may give on a store
/// with graph `g`: the only subject with `rdf:type` `object`, or the error
/// for none or for several (naming two of them), or a failure of a store
/// that may fail.
pub open spec fn instance_outcome(
    g: Set<TripleView>,
    reliable: bool,
    object: Term,
    res: Result<Subject, RDFParseError>,
) -> bool {
    let instances = subjects_of(g, object@, rdf_type_iri());
    match res {
        Ok(s) => instances == set![s@],
        Err(e) => match e {
            RDFParseError::SRDFError { .. } => !reliable,
            RDFParseError::NoInstancesOf { object: o } => o == object && instances == Set::<
                TermView,
            >::empty(),
            RDFParseError::MoreThanOneInstanceOf { object: o, value1, value2 } => {
                &&& o == object
                &&& value1@ != value2@
                &&& instances.contains(value1@)
                &&& instances.contains(value2@)
            },
            _ => false,
        },
    }
}

/// On a store that answers every query, looking up the single instance of
/// an object gives the same outcome each time: the same instance, or an
/// error of the same kind.
pub proof fn law_instance_of_determined(
    g: Set<TripleView>,
    object: Term,
    r1: Result<Subject, RDFParseError>,
    r2: Result<Subject, RDFParseError>,
)
    requires
        instance_outcome(g, true, object, r1),
        instance_outcome(g, true, object, r2),
    ensures
        match (r1, r2) {
            (Ok(s1), Ok(s2)) => s1@ == s2@,
            (Err(e1), Err(e2)) => (e1 is NoInstancesOf && e2 is NoInstancesOf) || (
            e1 is MoreThanOneInstanceOf && e2 is MoreThanOneInstanceOf),
            _ => false,
        },
{
    let instances = subjects_of(g, object@, rdf_type_iri());
    if let Ok(s1) = r1 {
        assert(instances.contains(s1@)) by {
            assert(set![s1@].contains(s1@));
        }
        if let Err(e2) = r2 {
            if let RDFParseError::MoreThanOneInstanceOf { object: o, value1, value2 } = e2 {
                assert(set![s1@].contains(value1@));
                assert(set![s1@].contains(value2@));
            }
        }
        if let Ok(s2) = r2 {
            assert(set![s2@].contains(s1@));
        }
    }
    if let Ok(s2) = r2 {
        assert(instances.contains(s2@)) by {
            assert(set![s2@].contains(s2@));
        }
        if let Err(e1) = r1 {
            if let RDFParseError::MoreThanOneInstanceOf { object: o, value1, value2 } = e1 {
                assert(set![s2@].contains(value1@));
                assert(set![s2@].contains(value2@));
            }
        }
    }
    if let Err(e1) = r1 {
        if let Err(e2) = r2 {
            if e1 is NoInstancesOf && e2 is MoreThanOneInstanceOf {
                assert(instances.contains(e2->MoreThanOneInstanceOf_value1@));
            }
            if e2 is NoInstancesOf && e1 is MoreThanOneInstanceOf {
                assert(instances.contains(e1->MoreThanOneInstanceOf_value1@));
            }
        }
    }
}

/// A parser over an RDF store that it owns.
pub struct RDFParser<RDF: FocusRDF> {
    rdf: RDF,
}

impl<RDF: FocusRDF> RDFParser<RDF> {
    /// The store that the parser reads.
    pub closed spec fn store(&self) -> RDF {
        self.rdf
    }

    pub fn new(rdf: RDF) -> (res: RDFParser<RDF>)
        ensures
            res.store() == rdf,
    {
        RDFParser { rdf }
    }

    /// The IRI with the given text, taken as it is.
    pub fn iri_unchecked(str: &str) -> (res: String)
        ensures
            res@ == str@,
    {
        String::from_str(str)
    }

    /// The IRI term with the given text, taken as it is.
    pub fn term_iri_unchecked(str: &str) -> (res: Term)
        ensures
            res@ == TermView::Iri(str@),
    {
        iri_as_term(&Self::iri_unchecked(str))
    }

    fn rdf_type() -> (res: String)
        ensures
            res@ == rdf_type_iri(),
    {
        Vocab::rdf_type()
    }

    /// The nodes that are instances of `object`: the subjects of the triples
    /// with predicate `rdf:type` and object `object`, each once.
    pub fn instances_of(&self, object: &Term) -> (res: Result<Vec<Subject>, RDFParseError>)
        ensures
            match res {
                Ok(v) => lists_set(
                    subjects_view(v@),
                    subjects_of(self.store().graph(), object@, rdf_type_iri()),
                ),
                Err(e) => e matches RDFParseError::SRDFError { err } && !self.store().reliable()
                    && self.store().fails_subjects(object@, rdf_type_iri(), err@),
            },
    {
        match self.rdf.get_subjects_for_object_predicate(object, &Self::rdf_type()) {
            Ok(values) => Ok(values),
            Err(e) => Err(RDFParseError::SRDFError { err: e.msg }),
        }
    }

    /// The single instance of `object`.
    pub fn instance_of(&self, object: &Term) -> (res: Result<Subject, RDFParseError>)
        ensures
            instance_outcome(self.store().graph(), self.store().reliable(), *object, res),
            res matches Err(RDFParseError::SRDFError { err }) ==> self.store().fails_subjects(
                object@,
                rdf_type_iri(),
                err@,
            ),
    {
        let values = self.instances_of(object)?;
        let ghost instances = subjects_of(self.store().graph(), object@, rdf_type_iri());
        if values.len() >= 1 {
            if values.len() >= 2 {
                proof {
                    assert(subjects_view(values@).contains(values@[0]@)) by {
                        assert(subjects_view(values@)[0] == values@[0]@);
                    }
                    assert(subjects_view(values@).contains(values@[1]@)) by {
                        assert(subjects_view(values@)[1] == values@[1]@);
                    }
                    assert(subjects_view(values@)[0] != subjects_view(values@)[1]);
                }
                Err(
                    RDFParseError::MoreThanOneInstanceOf {
                        object: object.clone(),
                        value1: subject_as_term(&values[0]),
                        value2: subject_as_term(&values[1]),
                    },
                )
            } else {
                proof {
                    assert(subjects_view(values@) =~= seq![values@[0]@]);
                    assert(instances =~= set![values@[0]@]) by {
                        assert(seq![values@[0]@][0] == values@[0]@);
                    }
                }
                Ok(values[0].clone())
            }
        } else {
            proof {
                assert(subjects_view(values@) =~= Seq::<TermView>::empty());
                assert(instances =~= Set::<TermView>::empty());
            }
            Err(RDFParseError::NoInstancesOf { object: object.clone() })
        }
    }

    /// The values of `pred` at the focus node of the store.
    pub fn predicate_values(&mut self, pred: &String) -> (res: Result<Vec<Term>, RDFParseError>)
        requires
            old(self).store().focus() is Some,
        ensures
            final(self).store() == old(self).store(),
            values_outcome(
                old(self).store().graph(),
                old(self).store().reliable(),
                old(self).store().focus()->0,
                pred@,
                res,
            ),
            passes_store_error(old(self).store(), old(self).store().focus()->0@, pred@, res),
    {
        let mut p = property_values(pred);
        let vs = p.parse_impl(&mut self.rdf)?;
        Ok(vs)
    }

    /// The single value of `pred` at the focus node of the store.
    pub fn predicate_value(&mut self, pred: &String) -> (res: Result<Term, RDFParseError>)
        requires
            old(self).store().focus() is Some,
        ensures
            final(self).store() == old(self).store(),
            single_value_outcome(
                old(self).store().graph(),
                old(self).store().reliable(),
                old(self).store().focus()->0,
                pred@,
                res,
            ),
            passes_store_error(old(self).store(), old(self).store().focus()->0@, pred@, res),
    {
        let mut p: PropertyValue<RDF> = property_value(pred);
        p.parse_impl(&mut self.rdf)
    }

    /// The single `rdf:type` of the focus node of the store.
    pub fn get_rdf_type(&mut self) -> (res: Result<Term, RDFParseError>)
        requires
            old(self).store().focus() is Some,
        ensures
            final(self).store() == old(self).store(),
            single_value_outcome(
                old(self).store().graph(),
                old(self).store().reliable(),
                old(self).store().focus()->0,
                rdf_type_iri(),
                res,
            ),
            passes_store_error(old(self).store(), old(self).store().focus()->0@, rdf_type_iri(), res),
    {
        let value = self.predicate_value(&Vocab::rdf_type())?;
        Ok(value)
    }

    /// The IRI that a term names; a blank node or a literal is an error.
    pub fn term_as_iri(term: &Term) -> (res: Result<String, RDFParseError>)
        ensures
            match term {
                Term::Iri(iri) => res == Ok::<String, RDFParseError>(*iri),
                Term::BlankNode(b) => res == Err::<String, RDFParseError>(
                    RDFParseError::ExpectedIRIFoundBNode { bnode: *b },
                ),
                Term::Literal(l) => res == Err::<String, RDFParseError>(
                    RDFParseError::ExpectedIRIFoundLiteral { lit: *l },
                ),
            },
    {
        match term {
            Term::Iri(iri) => Ok(iri.clone()),
            Term::BlankNode(bnode) => Err(RDFParseError::ExpectedIRIFoundBNode { bnode: bnode.clone() }),
            Term::Literal(lit) => Err(RDFParseError::ExpectedIRIFoundLiteral { lit: lit.clone() }),
        }
    }

    /// A term as a subject; a literal is an error.
    pub fn term_as_subject(term: &Term) -> (res: Result<Subject, RDFParseError>)
        ensures
            match res {
                Ok(s) => s@ == term@ && is_subject_view(term@),
                Err(e) => e == (RDFParseError::ExpectedSubject { node: *term }) && !is_subject_view(
                    term@,
                ),
            },
    {
        match term_as_subject(term) {
            None => Err(RDFParseError::ExpectedSubject { node: term.clone() }),
            Some(subj) => Ok(subj),
        }
    }
}

} // verus!
