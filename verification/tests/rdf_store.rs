use rdf_shapes::graph::SimpleGraph;
use rdf_shapes::srdf::{FocusRDF, SRDF};
use rdf_shapes::term::{iri_as_term, object_as_iri, subject_as_term, term_as_subject, Subject, Term};

const EX: &str = "http://example.org/";

fn iri(local: &str) -> String {
    format!("{EX}{local}")
}

fn sample() -> SimpleGraph {
    let mut g = SimpleGraph::new();
    g.add_triple(Subject::Iri(iri("alice")), iri("knows"), Term::Iri(iri("bob")));
    g.add_triple(Subject::Iri(iri("alice")), iri("knows"), Term::Iri(iri("carol")));
    g.add_triple(Subject::Iri(iri("alice")), iri("knows"), Term::Iri(iri("bob")));
    g.add_triple(Subject::Iri(iri("alice")), iri("name"), Term::Literal("Alice".to_string()));
    g.add_triple(Subject::BlankNode("b0".to_string()), iri("knows"), Term::Iri(iri("bob")));
    g
}

#[test]
fn objects_are_listed_once_in_order() {
    let g = sample();
    let objs = g
        .get_objects_for_subject_predicate(&Subject::Iri(iri("alice")), &iri("knows"))
        .unwrap();
    assert_eq!(objs, vec![Term::Iri(iri("bob")), Term::Iri(iri("carol"))]);
}

#[test]
fn predicates_of_a_subject() {
    let g = sample();
    let preds = g.get_predicates_for_subject(&Subject::Iri(iri("alice"))).unwrap();
    assert_eq!(preds, vec![iri("knows"), iri("name")]);
    let none = g.get_predicates_for_subject(&Subject::Iri(iri("nobody"))).unwrap();
    assert!(none.is_empty());
}

#[test]
fn subjects_of_an_object() {
    let g = sample();
    let subjs = g
        .get_subjects_for_object_predicate(&Term::Iri(iri("bob")), &iri("knows"))
        .unwrap();
    assert_eq!(
        subjs,
        vec![Subject::Iri(iri("alice")), Subject::BlankNode("b0".to_string())]
    );
}

#[test]
fn neighbours_of_a_node() {
    let g = sample();
    let neighs = g.get_neighs(&Term::Iri(iri("alice"))).unwrap();
    assert_eq!(neighs.len(), 2);
    assert_eq!(neighs[0].0, iri("knows"));
    assert_eq!(neighs[0].1, vec![Term::Iri(iri("bob")), Term::Iri(iri("carol"))]);
    assert_eq!(neighs[1].0, iri("name"));
    assert_eq!(neighs[1].1, vec![Term::Literal("Alice".to_string())]);
}

#[test]
fn a_literal_has_no_neighbours() {
    let g = sample();
    let neighs = g.get_neighs(&Term::Literal("Alice".to_string())).unwrap();
    assert!(neighs.is_empty());
}

#[test]
fn focus_reads_back_what_was_set() {
    let mut g = sample();
    assert_eq!(*g.get_focus(), None);
    g.set_focus(&Term::BlankNode("b0".to_string()));
    assert_eq!(*g.get_focus(), Some(Term::BlankNode("b0".to_string())));
    assert_eq!(g.get_focus_as_term().unwrap(), &Term::BlankNode("b0".to_string()));
    assert_eq!(g.get_focus_as_subject().unwrap(), Subject::BlankNode("b0".to_string()));
}

#[test]
fn a_literal_focus_is_no_subject() {
    let mut g = sample();
    g.set_focus(&Term::Literal("x".to_string()));
    assert!(matches!(
        g.get_focus_as_subject(),
        Err(rdf_shapes::rdf_parser::RDFParseError::ExpectedSubject { node: Term::Literal(_) })
    ));
}

#[test]
fn term_conversions() {
    assert_eq!(term_as_subject(&Term::Literal("a".to_string())), None);
    assert_eq!(
        term_as_subject(&Term::Iri(iri("a"))),
        Some(Subject::Iri(iri("a")))
    );
    assert_eq!(subject_as_term(&Subject::BlankNode("x".to_string())), Term::BlankNode("x".to_string()));
    assert_eq!(iri_as_term(&iri("a")), Term::Iri(iri("a")));
    assert_eq!(object_as_iri(&Term::Iri(iri("a"))), Some(iri("a")));
    assert_eq!(object_as_iri(&Term::BlankNode("a".to_string())), None);
    assert!(Term::Iri(iri("a")).same(&Term::Iri(iri("a"))));
    assert!(!Term::Iri(iri("a")).same(&Term::Literal(iri("a"))));
}

#[test]
fn term_text_forms() {
    assert_eq!(Term::Iri(iri("a")).to_string(), "<http://example.org/a>");
    assert_eq!(Term::BlankNode("b1".to_string()).to_string(), "_:b1");
    assert_eq!(Term::Literal("hi".to_string()).to_string(), "\"hi\"");
}

#[test]
fn outgoing_arcs_of_a_subject() {
    let g = sample();
    let arcs = g.outgoing_arcs(&Subject::Iri(iri("alice"))).unwrap();
    assert_eq!(
        arcs,
        vec![
            (iri("knows"), vec![Term::Iri(iri("bob")), Term::Iri(iri("carol"))]),
            (iri("name"), vec![Term::Literal("Alice".to_string())]),
        ]
    );
    assert!(g.outgoing_arcs(&Subject::Iri(iri("bob"))).unwrap().is_empty());
}

#[test]
fn incoming_arcs_of_a_node() {
    let mut g = sample();
    g.add_triple(Subject::Iri(iri("carol")), iri("likes"), Term::Iri(iri("bob")));
    let arcs = g.incoming_arcs(&Term::Iri(iri("bob"))).unwrap();
    assert_eq!(
        arcs,
        vec![
            (iri("knows"), vec![Subject::Iri(iri("alice")), Subject::BlankNode("b0".to_string())]),
            (iri("likes"), vec![Subject::Iri(iri("carol"))]),
        ]
    );
    assert!(g.incoming_arcs(&Term::Iri(iri("alice"))).unwrap().is_empty());
}

#[test]
fn outgoing_arcs_from_a_list_of_predicates() {
    let g = sample();
    let (arcs, rest) = g
        .outgoing_arcs_from_list(&Subject::Iri(iri("alice")), vec![iri("name"), iri("age")])
        .unwrap();
    assert_eq!(arcs, vec![(iri("name"), vec![Term::Literal("Alice".to_string())])]);
    assert_eq!(rest, vec![iri("knows")]);
    let (all, none) = g
        .outgoing_arcs_from_list(&Subject::Iri(iri("alice")), vec![iri("knows"), iri("name")])
        .unwrap();
    assert_eq!(all.len(), 2);
    assert!(none.is_empty());
}
