use rdf_shapes::shacl::{Component, PropertyShape};
use rdf_shapes::srdf::SRDFError;
use rdf_shapes::term::Term;
use rdf_shapes::text::{write_bool, write_isize, write_joined};
use rdf_shapes::validation::{ConstraintError, Disjoint, LessThan, Pattern, QuerySRDF};
use rdf_shapes::prefixmap::IriRef;

#[test]
fn component_texts() {
    assert_eq!(Component::Class("ex:Person".into()).to_string(), "class(ex:Person)");
    assert_eq!(Component::MinCount(-3).to_string(), "minCount(-3)");
    assert_eq!(Component::MaxLength(120).to_string(), "maxLength(120)");
    assert_eq!(Component::UniqueLang(true).to_string(), "uniqueLang(true)");
    assert_eq!(
        Component::Pattern { pattern: "^a".into(), flags: Some("i".into()) }.to_string(),
        "pattern(^a, i)"
    );
    assert_eq!(Component::Pattern { pattern: "^a".into(), flags: None }.to_string(), "pattern(^a)");
    assert_eq!(Component::LessThan(":p".into()).to_string(), "uniqueLang(:p)");
    assert_eq!(Component::LessThanOrEquals(":p".into()).to_string(), "uniqueLang(:p)");
    assert_eq!(
        Component::Or { shapes: vec![":A".into(), ":B".into(), ":C".into()] }.to_string(),
        "or [:A :B :C]"
    );
    assert_eq!(Component::And { shapes: vec![] }.to_string(), "and []");
    assert_eq!(Component::Not { shape: ":A".into() }.to_string(), "not [:A]");
    assert_eq!(Component::In { values: vec!["1".into()] }.to_string(), "In [1]");
    assert_eq!(Component::Node { shape: ":N".into() }.to_string(), "node(:N)");
}

#[test]
fn property_shape_text() {
    let ps = PropertyShape::new("_:p".into(), ":name".into())
        .with_targets(vec!["targetClass(:Person)".into()])
        .with_closed(true)
        .with_property_shapes(vec![":q".into()])
        .with_components(vec![Component::MinCount(1), Component::Datatype("xsd:string".into())]);
    assert_eq!(
        ps.to_string(),
        "{\n       PropertyShape\n       path: :name\n       targetClass(:Person)\n       closed: true\n       Property :q\n       minCount(1)\n       datatype(xsd:string)\n}"
    );
    let plain = PropertyShape::new("_:p".into(), ":p".into());
    assert_eq!(plain.to_string(), "{\n       PropertyShape\n       path: :p\n}");
}

#[test]
fn integer_and_list_texts() {
    let mut s = String::new();
    write_isize(0, &mut s);
    s.push(' ');
    write_isize(isize::MIN, &mut s);
    s.push(' ');
    write_isize(isize::MAX, &mut s);
    s.push(' ');
    write_bool(false, &mut s);
    assert_eq!(s, format!("0 {} {} false", isize::MIN, isize::MAX));
    let mut j = String::new();
    write_joined(&vec!["a".into(), "b".into()], ", ", &mut j);
    assert_eq!(j, "a, b");
}

struct FixedAnswers {
    answers: Vec<(String, Result<bool, String>)>,
    asked: std::cell::RefCell<Vec<String>>,
}

impl QuerySRDF for FixedAnswers {
    fn query_ask(&self, query: &String) -> Result<bool, SRDFError> {
        self.asked.borrow_mut().push(query.clone());
        for (q, a) in &self.answers {
            if q == query {
                return match a {
                    Ok(b) => Ok(*b),
                    Err(m) => Err(SRDFError { msg: m.clone() }),
                };
            }
        }
        Err(SRDFError { msg: "unknown query".into() })
    }
}

fn value_nodes() -> Vec<(Term, Term)> {
    vec![
        (Term::Iri("http://e/f".into()), Term::BlankNode("b".into())),
        (Term::Iri("http://e/f".into()), Term::Literal("abc".into())),
        (Term::Iri("http://e/g".into()), Term::Literal("xyz".into())),
        (Term::Iri("http://e/g".into()), Term::Iri("http://e/v".into())),
    ]
}

#[test]
fn pattern_default_flags_blank_nodes() {
    let p = Pattern::new("\"^a\"".into(), None);
    let rs = p.evaluate_default(&value_nodes()).unwrap();
    assert_eq!(rs.len(), 1);
    assert_eq!(rs[0].focus_node, Term::Iri("http://e/f".into()));
    assert_eq!(rs[0].value_node, Some(Term::BlankNode("b".into())));
}

#[test]
fn pattern_queries() {
    let p = Pattern::new("\"^a\"".into(), Some("\"i\"".into()));
    assert_eq!(
        p.query(&Term::Literal("abc".into())),
        "ASK { FILTER (regex(str(\"abc\"), \"^a\", \"i\")) }"
    );
    let q = Pattern::new("\"^a\"".into(), None);
    assert_eq!(
        q.query(&Term::Iri("http://e/v".into())),
        "ASK { FILTER (regex(str(<http://e/v>), \"^a\")) }"
    );
}

#[test]
fn pattern_sparql_uses_the_answers() {
    let p = Pattern::new("\"^a\"".into(), None);
    let store = FixedAnswers {
        answers: vec![
            ("ASK { FILTER (regex(str(\"abc\"), \"^a\")) }".into(), Ok(true)),
            ("ASK { FILTER (regex(str(\"xyz\"), \"^a\")) }".into(), Ok(false)),
            ("ASK { FILTER (regex(str(<http://e/v>), \"^a\")) }".into(), Err("down".into())),
        ],
        asked: std::cell::RefCell::new(vec![]),
    };
    let rs = p.evaluate_sparql(&store, &value_nodes()).unwrap();
    assert_eq!(rs.len(), 2);
    assert_eq!(rs[0].value_node, Some(Term::BlankNode("b".into())));
    assert_eq!(rs[1].focus_node, Term::Iri("http://e/g".into()));
    assert_eq!(rs[1].value_node, Some(Term::Literal("xyz".into())));
    assert_eq!(store.asked.borrow().len(), 3);
    assert_eq!(store.asked.borrow()[0], "ASK { FILTER (regex(str(\"abc\"), \"^a\")) }");
}

#[test]
fn pair_constraints_are_not_implemented() {
    let d = Disjoint::new(IriRef::Iri("http://e/p".into()));
    assert!(matches!(d.evaluate_default(&value_nodes()), Err(ConstraintError::NotImplemented)));
    let store = FixedAnswers { answers: vec![], asked: std::cell::RefCell::new(vec![]) };
    assert!(matches!(d.evaluate_sparql(&store, &value_nodes()), Err(ConstraintError::NotImplemented)));
    let l = LessThan::new(IriRef::Prefixed { prefix: "ex".into(), local: "p".into() });
    assert!(matches!(l.evaluate_default(&value_nodes()), Err(ConstraintError::NotImplemented)));
    assert!(matches!(l.evaluate_sparql(&store, &value_nodes()), Err(ConstraintError::NotImplemented)));
}
