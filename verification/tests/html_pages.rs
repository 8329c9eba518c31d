use rdf_shapes::prefixmap::{IriRef, PrefixMap};
use rdf_shapes::shex2html::{
    close_html, close_tag, generate_landing_page, iri_ref2name, mk_card, name2html, open_html,
    open_tag, tag_txt, write_li_shape, Cardinality, HtmlSchema, HtmlShape, Name, ShEx2Html,
    ShEx2HtmlConfig, ShEx2HtmlError, ValueConstraint,
};
use rdf_shapes::shex_ast::{
    NodeConstraint, Schema, Shape, ShapeDecl, ShapeExpr, ShapeExprLabel, TripleExpr,
    TripleExprWrapper,
};

fn config() -> ShEx2HtmlConfig {
    ShEx2HtmlConfig { title: "My shapes".to_string(), landing_page_name: "index.html".to_string() }
}

#[test]
fn cardinalities() {
    assert_eq!(mk_card(&None, &None).unwrap(), Cardinality::OneOne);
    assert_eq!(mk_card(&Some(0), &Some(-1)).unwrap(), Cardinality::Star);
    assert_eq!(mk_card(&Some(0), &None).unwrap(), Cardinality::Optional);
    assert_eq!(mk_card(&None, &Some(-1)).unwrap(), Cardinality::Plus);
    assert_eq!(mk_card(&Some(2), &Some(5)).unwrap(), Cardinality::Fixed(2));
    assert!(matches!(
        mk_card(&Some(2), &Some(2)),
        Err(ShEx2HtmlError::WrongCardinality { min: 2, max: 2 })
    ));
    assert!(matches!(
        mk_card(&Some(-1), &None),
        Err(ShEx2HtmlError::WrongCardinality { min: -1, max: 1 })
    ));
    assert!(matches!(
        mk_card(&Some(3), &Some(-1)),
        Err(ShEx2HtmlError::WrongCardinality { min: 3, max: -1 })
    ));
}

#[test]
fn html_tags() {
    let mut w = String::new();
    open_html(&mut w);
    open_tag("body", &mut w);
    tag_txt("h1", "Title", &mut w);
    close_tag("body", &mut w);
    close_html(&mut w);
    assert_eq!(w, "<html><body><h1>Title</h1></body></html>");
}

#[test]
fn names_as_html() {
    assert_eq!(name2html(Name::new(":Person", Some("http://e.org/Person"))), "<a href=\"http://e.org/Person\">:Person</a>");
    assert_eq!(name2html(Name::new("Person", None)), "Person");
}

#[test]
fn qualified_names() {
    let mut pm = PrefixMap::new();
    pm.insert("ex", "http://e.org/");
    pm.insert("exa", "http://e.org/a/");
    pm.insert("other", "http://e.org/a/");
    assert_eq!(pm.qualify("http://e.org/b"), "ex:b");
    assert_eq!(pm.qualify("http://e.org/a/b"), "exa:b");
    assert_eq!(pm.qualify("http://f.org/b"), "<http://f.org/b>");
    let name = iri_ref2name(&IriRef::Iri("http://e.org/Person".into()), &config(), &pm).unwrap();
    assert_eq!(name.name(), "ex:Person");
    assert_eq!(name.href(), Some("http://e.org/Person".to_string()));
    let local = iri_ref2name(
        &IriRef::Prefixed { prefix: "ex".into(), local: "Person".into() },
        &config(),
        &pm,
    )
    .unwrap();
    assert_eq!(local.name(), "Person");
    assert_eq!(local.href(), None);
}

#[test]
fn list_item_of_a_shape() {
    let mut w = String::new();
    write_li_shape(&HtmlShape::new(Name::new("S", None)), &mut w);
    assert_eq!(w, "<li>S</li>");
}

fn tc(pred: &str, value: Option<ShapeExpr>, min: Option<i32>, max: Option<i32>) -> TripleExprWrapper {
    TripleExprWrapper {
        te: TripleExpr::TripleConstraint {
            negated: None,
            inverse: None,
            predicate: IriRef::Iri(pred.to_string()),
            value_expr: value.map(Box::new),
            min,
            max,
        },
    }
}

fn datatype(dt: &str) -> ShapeExpr {
    ShapeExpr::NodeConstraint(NodeConstraint { datatype: Some(IriRef::Iri(dt.to_string())) })
}

fn schema() -> Schema {
    let mut pm = PrefixMap::new();
    pm.insert("", "http://example.org/");
    pm.insert("xsd", "http://www.w3.org/2001/XMLSchema#");
    let person = Shape {
        expression: Some(TripleExprWrapper {
            te: TripleExpr::EachOf {
                expressions: vec![
                    tc("http://example.org/name", Some(datatype("http://www.w3.org/2001/XMLSchema#string")), None, None),
                    tc(
                        "http://example.org/knows",
                        Some(ShapeExpr::Ref(ShapeExprLabel::IriRef { value: IriRef::Iri("http://example.org/Person".into()) })),
                        None,
                        None,
                    ),
                    tc("http://example.org/age", Some(datatype("http://www.w3.org/2001/XMLSchema#integer")), Some(0), Some(-1)),
                ],
                min: None,
                max: None,
            },
        }),
    };
    let course = Shape {
        expression: Some(tc("http://example.org/name", Some(datatype("http://www.w3.org/2001/XMLSchema#string")), None, None)),
    };
    Schema {
        prefixmap: Some(pm),
        shapes: Some(vec![
            ShapeDecl { id: ShapeExprLabel::IriRef { value: IriRef::Iri("http://example.org/Person".into()) }, shape_expr: ShapeExpr::Shape(person) },
            ShapeDecl { id: ShapeExprLabel::IriRef { value: IriRef::Iri("http://example.org/Course".into()) }, shape_expr: ShapeExpr::Shape(course) },
        ]),
    }
}

#[test]
fn convert_builds_the_pages() {
    let mut conv = ShEx2Html::new(config());
    conv.convert(&schema()).unwrap();
    let html = conv.current_html();
    assert_eq!(html.len(), 2);
    let person = html.shape(0);
    assert_eq!(person.name().name(), ":Person");
    let rows = person.entries();
    assert_eq!(rows.len(), 2);
    assert_eq!(rows[0].name.name(), ":name");
    assert!(matches!(&rows[0].value_constraint, ValueConstraint::Datatype(n) if n.name() == "xsd:string"));
    assert_eq!(rows[0].card, Cardinality::OneOne);
    assert_eq!(rows[1].name.name(), ":age");
    assert!(matches!(&rows[1].value_constraint, ValueConstraint::Datatype(n) if n.name() == "xsd:integer"));
    assert_eq!(rows[1].card, Cardinality::Star);
    let course = html.shape(1);
    assert_eq!(course.name().name(), ":Course");
    let mut w = String::new();
    generate_landing_page(&mut w, html, conv.config());
    assert_eq!(
        w,
        "<html><head></head><body><h1>My shapes</h1><ul>\
<li><a href=\"http://example.org/Person\">:Person</a></li>\
<li><a href=\"http://example.org/Course\">:Course</a></li>\
</ul></body></html>"
    );
}

#[test]
fn convert_stops_at_a_wrong_cardinality() {
    let bad = Shape { expression: Some(tc("http://example.org/p", None, Some(4), Some(4))) };
    let schema = Schema {
        prefixmap: None,
        shapes: Some(vec![ShapeDecl {
            id: ShapeExprLabel::IriRef { value: IriRef::Prefixed { prefix: "".into(), local: "Bad".into() } },
            shape_expr: ShapeExpr::Shape(bad),
        }]),
    };
    let mut conv = ShEx2Html::new(config());
    assert!(matches!(
        conv.convert(&schema),
        Err(ShEx2HtmlError::WrongCardinality { min: 4, max: 4 })
    ));
    assert_eq!(conv.current_html().len(), 0);
}

#[test]
fn convert_refuses_complex_expressions() {
    let schema = Schema {
        prefixmap: None,
        shapes: Some(vec![ShapeDecl {
            id: ShapeExprLabel::IriRef { value: IriRef::Iri("http://e.org/S".into()) },
            shape_expr: ShapeExpr::External,
        }]),
    };
    let mut conv = ShEx2Html::new(config());
    assert!(matches!(
        conv.convert(&schema),
        Err(ShEx2HtmlError::NotImplemented { msg }) if msg == "Complex shape expressions are not implemented yet"
    ));
}

#[test]
fn value_constraint_default_is_none() {
    assert!(matches!(ValueConstraint::default(), ValueConstraint::NoConstraint));
}

#[test]
fn converting_again_keeps_the_pages_and_labels() {
    let mut conv = ShEx2Html::new(config());
    conv.convert(&schema()).unwrap();
    conv.convert(&schema()).unwrap();
    let html = conv.current_html();
    assert_eq!(html.len(), 4);
    assert_eq!(html.shape(0).name().name(), ":Person");
    assert_eq!(html.shape(1).name().name(), ":Course");
    assert_eq!(html.shape(2).name().name(), ":Person");
    assert_eq!(html.shape(3).name().name(), ":Course");
}

#[test]
fn a_known_label_keeps_its_node() {
    let mut site = HtmlSchema::new();
    let a = site.add_label(&Name::new(":A", None));
    let b = site.add_label(&Name::new(":B", Some("http://e.org/B")));
    let a2 = site.add_label(&Name::new(":A", Some("http://e.org/A")));
    let b2 = site.add_label(&Name::new(":B", None));
    assert_eq!(a, a2);
    assert_eq!(b, b2);
    assert_ne!(a, b);
    assert_eq!(site.len(), 0);
}

#[test]
fn convert_answers_the_first_error_without_reading_further() {
    let bad_then_unread = Shape {
        expression: Some(TripleExprWrapper {
            te: TripleExpr::EachOf {
                expressions: vec![
                    tc("http://example.org/p", Some(ShapeExpr::External), Some(5), Some(1)),
                    TripleExprWrapper { te: TripleExpr::TripleExprRef("x".into()) },
                ],
                min: None,
                max: None,
            },
        }),
    };
    let unread = Shape {
        expression: Some(TripleExprWrapper {
            te: TripleExpr::OneOf { expressions: vec![], min: None, max: None },
        }),
    };
    let schema = Schema {
        prefixmap: None,
        shapes: Some(vec![
            ShapeDecl {
                id: ShapeExprLabel::IriRef { value: IriRef::Iri("http://e.org/A".into()) },
                shape_expr: ShapeExpr::Shape(bad_then_unread),
            },
            ShapeDecl { id: ShapeExprLabel::Start, shape_expr: ShapeExpr::Shape(unread) },
        ]),
    };
    let mut conv = ShEx2Html::new(config());
    assert!(matches!(
        conv.convert(&schema),
        Err(ShEx2HtmlError::WrongCardinality { min: 5, max: 1 })
    ));
    assert_eq!(conv.current_html().len(), 0);
}
