use rdf_shapes::graph::SimpleGraph;
use rdf_shapes::rdf_parser::{
    and_then, flat_map, node_is_rdf_nil, parse_rdf_nil, property_value, property_values,
    rdf_list, satisfy, MapParser, RDFNodeParse, RDFParseError, RDFParser, PropertyValue,
};
use rdf_shapes::srdf::FocusRDF;
use rdf_shapes::term::{Subject, Term};

const RDF: &str = "http://www.w3.org/1999/02/22-rdf-syntax-ns#";

fn ex(local: &str) -> String {
    format!("http://example.org/{local}")
}

fn rdf(local: &str) -> String {
    format!("{RDF}{local}")
}

fn bnode(id: &str) -> Term {
    Term::BlankNode(id.to_string())
}

/// A list (1 2) at _:l1, a cyclic list at _:c1, a broken list at _:x.
fn lists() -> SimpleGraph {
    let mut g = SimpleGraph::new();
    g.add_triple(Subject::BlankNode("l1".into()), rdf("first"), Term::Literal("1".into()));
    g.add_triple(Subject::BlankNode("l1".into()), rdf("rest"), bnode("l2"));
    g.add_triple(Subject::BlankNode("l2".into()), rdf("first"), Term::Literal("2".into()));
    g.add_triple(Subject::BlankNode("l2".into()), rdf("rest"), Term::Iri(rdf("nil")));
    g.add_triple(Subject::BlankNode("c1".into()), rdf("first"), Term::Literal("a".into()));
    g.add_triple(Subject::BlankNode("c1".into()), rdf("rest"), bnode("c2"));
    g.add_triple(Subject::BlankNode("c2".into()), rdf("first"), Term::Literal("b".into()));
    g.add_triple(Subject::BlankNode("c2".into()), rdf("rest"), bnode("c1"));
    g.add_triple(Subject::BlankNode("x".into()), rdf("first"), Term::Literal("a".into()));
    g.add_triple(Subject::BlankNode("x".into()), rdf("first"), Term::Literal("b".into()));
    g.add_triple(Subject::BlankNode("x".into()), rdf("rest"), Term::Iri(rdf("nil")));
    g.add_triple(Subject::Iri(ex("alice")), ex("age"), Term::Literal("30".into()));
    g.add_triple(Subject::Iri(ex("alice")), rdf("type"), Term::Iri(ex("Person")));
    g.add_triple(Subject::Iri(ex("bob")), rdf("type"), Term::Iri(ex("Person")));
    g.add_triple(Subject::Iri(ex("carol")), rdf("type"), Term::Iri(ex("Robot")));
    g
}

#[test]
fn rdf_list_gives_its_elements() {
    let mut g = lists();
    g.set_focus(&bnode("l1"));
    let vs = rdf_list().parse_impl(&mut g).unwrap();
    assert_eq!(vs, vec![Term::Literal("1".into()), Term::Literal("2".into())]);
    assert_eq!(*g.get_focus(), Some(Term::Iri(rdf("nil"))));
}

#[test]
fn rdf_nil_is_the_empty_list() {
    let mut g = lists();
    g.set_focus(&Term::Iri(rdf("nil")));
    let vs = rdf_list().parse_impl(&mut g).unwrap();
    assert!(vs.is_empty());
}

#[test]
fn cyclic_list_is_refused() {
    let mut g = lists();
    g.set_focus(&bnode("c1"));
    let r = rdf_list().parse_impl(&mut g);
    assert!(matches!(r, Err(RDFParseError::RecursiveRDFList { node }) if node == bnode("c1")));
}

#[test]
fn list_cell_with_two_firsts_is_refused() {
    let mut g = lists();
    g.set_focus(&bnode("x"));
    let r = rdf_list().parse_impl(&mut g);
    assert!(matches!(r, Err(RDFParseError::MoreThanOneValuePredicate { node, pred, value1, value2 })
        if node == bnode("x") && pred == rdf("first") && value1 != value2));
}

#[test]
fn list_cell_without_first_is_refused() {
    let mut g = lists();
    g.set_focus(&Term::Iri(ex("alice")));
    let r = rdf_list().parse_impl(&mut g);
    assert!(matches!(r, Err(RDFParseError::NoValuesPredicate { node, pred })
        if node == Term::Iri(ex("alice")) && pred == rdf("first")));
}

#[test]
fn literal_is_no_list() {
    let mut g = lists();
    g.set_focus(&Term::Literal("z".into()));
    let r = rdf_list().parse_impl(&mut g);
    assert!(matches!(r, Err(RDFParseError::ExpectedSubject { node }) if node == Term::Literal("z".into())));
}

#[test]
fn property_value_single_none_and_many() {
    let mut g = lists();
    g.set_focus(&Term::Iri(ex("alice")));
    let mut age: PropertyValue<SimpleGraph> = property_value(&ex("age"));
    assert_eq!(age.parse_impl(&mut g).unwrap(), Term::Literal("30".into()));
    let mut missing: PropertyValue<SimpleGraph> = property_value(&ex("height"));
    assert!(matches!(
        missing.parse_impl(&mut g),
        Err(RDFParseError::NoValuesPredicate { .. })
    ));
    g.set_focus(&bnode("x"));
    let mut first: PropertyValue<SimpleGraph> = property_value(&rdf("first"));
    match first.parse_impl(&mut g) {
        Err(RDFParseError::MoreThanOneValuePredicate { node, pred, value1, value2 }) => {
            assert_eq!(node, bnode("x"));
            assert_eq!(pred, rdf("first"));
            assert_ne!(value1, value2);
        }
        other => panic!("unexpected {other:?}"),
    }
}

#[test]
fn property_values_of_focus() {
    let mut g = lists();
    g.set_focus(&bnode("x"));
    let vs = property_values::<SimpleGraph>(&rdf("first")).parse_impl(&mut g).unwrap();
    assert_eq!(vs, vec![Term::Literal("a".into()), Term::Literal("b".into())]);
}

#[test]
fn satisfy_tests_the_focus() {
    let mut g = lists();
    g.set_focus(&Term::Iri(rdf("nil")));
    assert!(parse_rdf_nil::<SimpleGraph>().parse_impl(&mut g).is_ok());
    g.set_focus(&bnode("l1"));
    match parse_rdf_nil::<SimpleGraph>().parse_impl(&mut g) {
        Err(RDFParseError::NodeDoesntSatisfyCondition { condition_name, node }) => {
            assert_eq!(condition_name, "rdf_nil");
            assert_eq!(node, bnode("l1"));
        }
        other => panic!("unexpected {other:?}"),
    }
    let mut is_blank = satisfy::<SimpleGraph, _>(|t: &Term| matches!(t, Term::BlankNode(_)), "blank");
    assert!(is_blank.parse_impl(&mut g).is_ok());
    assert!(node_is_rdf_nil(&Term::Iri(rdf("nil"))));
    assert!(!node_is_rdf_nil(&Term::Literal(rdf("nil"))));
}

#[test]
fn parse_moves_the_focus_to_the_node() {
    let mut g = lists();
    let mut age: PropertyValue<SimpleGraph> = property_value(&ex("age"));
    let v = age.parse(&ex("alice"), &mut g).unwrap();
    assert_eq!(v, Term::Literal("30".into()));
    assert_eq!(*g.get_focus(), Some(Term::Iri(ex("alice"))));
}

#[test]
fn map_applies_the_function() {
    let mut g = lists();
    g.set_focus(&bnode("l1"));
    let mut count: MapParser<_, _> = rdf_shapes::rdf_parser::map::<SimpleGraph, _, _, usize>(rdf_list(), |v: Vec<Term>| v.len());
    assert_eq!(count.parse_impl(&mut g).unwrap(), 2);
    g.set_focus(&bnode("c1"));
    assert!(matches!(count.parse_impl(&mut g), Err(RDFParseError::RecursiveRDFList { .. })));
}

#[test]
fn and_then_converts_errors() {
    let mut g = lists();
    g.set_focus(&bnode("l1"));
    let mut non_empty = and_then::<SimpleGraph, _, _, usize, RDFParseError>(
        rdf_list(),
        |v: Vec<Term>| {
            if v.len() > 5 {
                Ok(v.len())
            } else {
                Err(RDFParseError::SRDFError { err: "short".to_string() })
            }
        },
    );
    assert!(matches!(
        non_empty.parse_impl(&mut g),
        Err(RDFParseError::SRDFError { err }) if err == "short"
    ));
}

#[test]
fn flat_map_runs_the_step() {
    let mut g = lists();
    g.set_focus(&bnode("l1"));
    let mut first = flat_map::<SimpleGraph, _, _, Term>(rdf_list(), |v: Vec<Term>| {
        v.into_iter().next().ok_or(RDFParseError::NoInstancesOf { object: Term::Literal("none".into()) })
    });
    assert_eq!(first.parse_impl(&mut g).unwrap(), Term::Literal("1".into()));
}

#[test]
fn rdf_parser_instances() {
    let g = lists();
    let p = RDFParser::new(g);
    let persons = p.instances_of(&Term::Iri(ex("Person"))).unwrap();
    assert_eq!(persons, vec![Subject::Iri(ex("alice")), Subject::Iri(ex("bob"))]);
    assert_eq!(p.instance_of(&Term::Iri(ex("Robot"))).unwrap(), Subject::Iri(ex("carol")));
    assert!(matches!(
        p.instance_of(&Term::Iri(ex("Person"))),
        Err(RDFParseError::MoreThanOneInstanceOf { .. })
    ));
    assert!(matches!(
        p.instance_of(&Term::Iri(ex("Alien"))),
        Err(RDFParseError::NoInstancesOf { object }) if object == Term::Iri(ex("Alien"))
    ));
}

#[test]
fn rdf_parser_focus_values() {
    let mut g = lists();
    g.set_focus(&Term::Iri(ex("alice")));
    let mut p = RDFParser::new(g);
    assert_eq!(p.get_rdf_type().unwrap(), Term::Iri(ex("Person")));
    assert_eq!(p.predicate_value(&ex("age")).unwrap(), Term::Literal("30".into()));
    assert_eq!(p.predicate_values(&ex("age")).unwrap(), vec![Term::Literal("30".into())]);
    assert!(p.predicate_values(&ex("none")).unwrap().is_empty());
}

#[test]
fn rdf_parser_term_conversions() {
    type P = RDFParser<SimpleGraph>;
    assert_eq!(P::iri_unchecked("http://a"), "http://a");
    assert_eq!(P::term_iri_unchecked("http://a"), Term::Iri("http://a".to_string()));
    assert_eq!(P::term_as_iri(&Term::Iri("http://a".into())).unwrap(), "http://a");
    assert!(matches!(
        P::term_as_iri(&bnode("b")),
        Err(RDFParseError::ExpectedIRIFoundBNode { bnode }) if bnode == "b"
    ));
    assert!(matches!(
        P::term_as_iri(&Term::Literal("l".into())),
        Err(RDFParseError::ExpectedIRIFoundLiteral { lit }) if lit == "l"
    ));
    assert_eq!(P::term_as_subject(&bnode("b")).unwrap(), Subject::BlankNode("b".into()));
    assert!(matches!(
        P::term_as_subject(&Term::Literal("l".into())),
        Err(RDFParseError::ExpectedSubject { .. })
    ));
}

#[test]
fn list_errors_name_the_defective_cell() {
    let mut g = lists();
    g.add_triple(Subject::BlankNode("m1".into()), rdf("first"), Term::Literal("a".into()));
    g.add_triple(Subject::BlankNode("m1".into()), rdf("rest"), bnode("m2"));
    g.add_triple(Subject::BlankNode("m2".into()), rdf("first"), Term::Literal("b".into()));
    g.add_triple(Subject::BlankNode("m3".into()), rdf("first"), Term::Literal("a".into()));
    g.add_triple(Subject::BlankNode("m3".into()), rdf("rest"), Term::Literal("tail".into()));
    g.add_triple(Subject::BlankNode("s1".into()), rdf("first"), Term::Literal("a".into()));
    g.add_triple(Subject::BlankNode("s1".into()), rdf("rest"), bnode("s1"));
    g.set_focus(&bnode("m1"));
    assert!(matches!(rdf_list().parse_impl(&mut g), Err(RDFParseError::NoValuesPredicate { node, pred })
        if node == bnode("m2") && pred == rdf("rest")));
    g.set_focus(&bnode("m3"));
    assert!(matches!(rdf_list().parse_impl(&mut g), Err(RDFParseError::ExpectedSubject { node })
        if node == Term::Literal("tail".into())));
    g.set_focus(&bnode("s1"));
    assert!(matches!(rdf_list().parse_impl(&mut g), Err(RDFParseError::RecursiveRDFList { node })
        if node == bnode("s1")));
}

#[test]
fn instance_lookup_repeats_its_outcome() {
    let p = RDFParser::new(lists());
    let robot = Term::Iri(ex("Robot"));
    assert_eq!(p.instance_of(&robot).unwrap(), p.instance_of(&robot).unwrap());
    let person = Term::Iri(ex("Person"));
    assert!(matches!(p.instance_of(&person), Err(RDFParseError::MoreThanOneInstanceOf { .. })));
    assert!(matches!(p.instance_of(&person), Err(RDFParseError::MoreThanOneInstanceOf { .. })));
}

#[test]
fn identity_steps_change_nothing() {
    let mut g = lists();
    g.set_focus(&bnode("l1"));
    let plain = rdf_list().parse_impl(&mut g).unwrap();
    g.set_focus(&bnode("l1"));
    let mut same = rdf_shapes::rdf_parser::map::<SimpleGraph, _, _, Vec<Term>>(rdf_list(), |v: Vec<Term>| v);
    assert_eq!(same.parse_impl(&mut g).unwrap(), plain);
    g.set_focus(&bnode("l1"));
    let mut step = flat_map::<SimpleGraph, _, _, Vec<Term>>(rdf_list(), |v: Vec<Term>| Ok(v));
    assert_eq!(step.parse_impl(&mut g).unwrap(), plain);
    g.set_focus(&bnode("c1"));
    assert!(matches!(step.parse_impl(&mut g), Err(RDFParseError::RecursiveRDFList { .. })));
}

#[test]
fn mapping_twice_is_mapping_the_composition() {
    let mut g = lists();
    g.set_focus(&bnode("l1"));
    let inner = rdf_shapes::rdf_parser::map::<SimpleGraph, _, _, usize>(rdf_list(), |v: Vec<Term>| v.len());
    let mut twice = rdf_shapes::rdf_parser::map::<SimpleGraph, _, _, usize>(inner, |n: usize| n * 10);
    let mut once = rdf_shapes::rdf_parser::map::<SimpleGraph, _, _, usize>(rdf_list(), |v: Vec<Term>| v.len() * 10);
    assert_eq!(twice.parse_impl(&mut g).unwrap(), 20);
    g.set_focus(&bnode("l1"));
    assert_eq!(once.parse_impl(&mut g).unwrap(), 20);
}
