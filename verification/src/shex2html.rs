//! Conversion of ShEx schemas into HTML pages: the cardinalities of the
//! triple constraints and the HTML text of the landing page.
use vstd::prelude::*;

use crate::prefixmap::{qualify_spec, IriRef, PrefixMap};
use crate::shex_ast::{Schema, Shape, ShapeDecl, ShapeExpr, ShapeExprLabel, TripleExpr, TripleExprWrapper};

verus! {

/// The cardinality of a triple constraint, as shown in the pages.
#[derive(Debug, Clone, Copy, PartialEq, Eq)]
pub enum Cardinality {
    OneOne,
    Star,
    Optional,
    Plus,
    Fixed(i32),
    Range(i32, i32),
}

/// The errors of the conversion.
#[derive(Debug)]
pub enum ShEx2HtmlError {
    WrongCardinality { min: i32, max: i32 },
    NotImplemented { msg: String },
}

/// The cardinality for the bounds `min` and `max` (an absent bound is 1, a
/// `max` of -1 is unbounded).
pub open spec fn spec_card(min: Option<i32>, max: Option<i32>) -> Result<Cardinality, (i32, i32)> {
    let m = match min {
        Some(n) => n,
        None => 1i32,
    };
    let n = match max {
        Some(n) => n,
        None => 1i32,
    };
    if m == 1 && n == 1 {
        Ok(Cardinality::OneOne)
    } else if m == 0 && n == -1 {
        Ok(Cardinality::Star)
    } else if m == 0 && n == 1 {
        Ok(Cardinality::Optional)
    } else if m == 1 && n == -1 {
        Ok(Cardinality::Plus)
    } else if m >= 0 && n > m {
        Ok(Cardinality::Fixed(m))
    } else {
        Err((m, n))
    }
}

/// The cardinality of a triple constraint is never a range: bounds with a
/// `max` above a nonnegative `min` give `Fixed(min)`.
pub proof fn law_card_never_range(min: Option<i32>, max: Option<i32>)
    ensures
        !(spec_card(min, max) matches Ok(Cardinality::Range(_, _))),
{
}

/// Bounds with a `max` above a nonnegative `min` are always accepted: they
/// give `Optional` for `{0,1}` and `Fixed(min)` otherwise.
pub proof fn law_card_of_increasing_bounds(m: i32, n: i32)
    requires
        0 <= m < n,
    ensures
        spec_card(Some(m), Some(n)) == (if m == 0 && n == 1 {
            Ok::<Cardinality, (i32, i32)>(Cardinality::Optional)
        } else {
            Ok::<Cardinality, (i32, i32)>(Cardinality::Fixed(m))
        }),
{
}

/// Bounds are refused only where they admit no cardinality: a negative
/// `min`, or a `max` neither above `min` nor unbounded (`-1`) after a `min`
/// of 0 or 1, other than `{1,1}`. The error gives the bounds, an absent bound
/// being 1.
pub proof fn law_card_refused_bounds(min: Option<i32>, max: Option<i32>)
    ensures
        ({
            let m = match min { Some(v) => v, None => 1i32 };
            let n = match max { Some(v) => v, None => 1i32 };
            spec_card(min, max) is Err <==> !((0 <= m && m < n) || (n == -1 && (m == 0 || m == 1)) || (m == 1
                && n == 1))
        }),
        spec_card(min, max) matches Err((m, n)) ==> m == (match min { Some(v) => v, None => 1i32 })
            && n == (match max { Some(v) => v, None => 1i32 }),
{
}

/// The cardinality of a triple constraint with the given bounds.
pub fn mk_card(min: &Option<i32>, max: &Option<i32>) -> (res: Result<Cardinality, ShEx2HtmlError>)
    ensures
        match spec_card(*min, *max) {
            Ok(c) => res == Ok::<Cardinality, ShEx2HtmlError>(c),
            Err((m, n)) => res == Err::<Cardinality, ShEx2HtmlError>(
                ShEx2HtmlError::WrongCardinality { min: m, max: n },
            ),
        },
{
    let min = if let Some(n) = min {
        *n
    } else {
        1
    };
    let max = if let Some(n) = max {
        *n
    } else {
        1
    };
    match (min, max) {
        (1, 1) => Ok(Cardinality::OneOne),
        (0, -1) => Ok(Cardinality::Star),
        (0, 1) => Ok(Cardinality::Optional),
        (1, -1) => Ok(Cardinality::Plus),
        (m, n) if m >= 0 && n > m => Ok(Cardinality::Fixed(m)),
        (m, n) if m >= 0 && n > m => Ok(Cardinality::Range(m, n)),
        _ => Err(ShEx2HtmlError::WrongCardinality { min, max }),
    }
}


/// A name shown in the pages, with the IRI it links to, if any.
#[derive(Debug)]
pub struct Name {
    name: String,
    href: Option<String>,
}

/// The text of a name and of the IRI it links to.
pub struct NameView {
    pub name: Seq<char>,
    pub href: Option<Seq<char>>,
}

impl View for Name {
    type V = NameView;

    closed spec fn view(&self) -> NameView {
        NameView {
            name: self.name@,
            href: match self.href {
                Some(h) => Some(h@),
                None => None,
            },
        }
    }
}

impl Name {
    pub fn new(name: &str, href: Option<&str>) -> (res: Name)
        ensures
            res@.name == name@,
            res@.href == match href {
                Some(h) => Some(h@),
                None => None::<Seq<char>>,
            },
    {
        let href = match href {
            Some(h) => Some(String::from_str(h)),
            None => None,
        };
        Name { name: String::from_str(name), href }
    }

    pub fn name(&self) -> (res: String)
        ensures
            res@ == self@.name,
    {
        self.name.clone()
    }

    pub fn href(&self) -> (res: Option<String>)
        ensures
            match res {
                Some(h) => self@.href == Some(h@),
                None => self@.href is None,
            },
    {
        match &self.href {
            Some(h) => Some(h.clone()),
            None => None,
        }
    }

    pub fn copy(&self) -> (res: Name)
        ensures
            res@ == self@,
    {
        Name { name: self.name.clone(), href: self.href() }
    }
}

/// The text `<tag>`.
pub open spec fn open_tag_text(tag: Seq<char>) -> Seq<char> {
    "<"@ + tag + ">"@
}

/// The text `</tag>`.
pub open spec fn close_tag_text(tag: Seq<char>) -> Seq<char> {
    "</"@ + tag + ">"@
}

/// The text `<tag>txt</tag>`.
pub open spec fn tag_txt_text(tag: Seq<char>, txt: Seq<char>) -> Seq<char> {
    open_tag_text(tag) + txt + close_tag_text(tag)
}

/// The HTML of a name: a link to its IRI where it has one, else its text.
pub open spec fn name_html(name: NameView) -> Seq<char> {
    match name.href {
        Some(href) => "<a href=\""@ + href + "\">"@ + name.name + "</a>"@,
        None => name.name,
    }
}

/// Writes `<tag>`.
pub fn open_tag(tag: &str, writer: &mut String)
    ensures
        final(writer)@ == old(writer)@ + open_tag_text(tag@),
{
    writer.append("<");
    writer.append(tag);
    writer.append(">");
    assert(writer@ =~= old(writer)@ + open_tag_text(tag@));
}

/// Writes `</tag>`.
pub fn close_tag(tag: &str, writer: &mut String)
    ensures
        final(writer)@ == old(writer)@ + close_tag_text(tag@),
{
    writer.append("</");
    writer.append(tag);
    writer.append(">");
    assert(writer@ =~= old(writer)@ + close_tag_text(tag@));
}

/// Writes `<tag>txt</tag>`.
pub fn tag_txt(tag: &str, txt: &str, writer: &mut String)
    ensures
        final(writer)@ == old(writer)@ + tag_txt_text(tag@, txt@),
{
    open_tag(tag, writer);
    writer.append(txt);
    close_tag(tag, writer);
    assert(writer@ =~= old(writer)@ + tag_txt_text(tag@, txt@));
}

/// Writes `<html>`.
pub fn open_html(writer: &mut String)
    ensures
        final(writer)@ == old(writer)@ + open_tag_text("html"@),
{
    open_tag("html", writer);
}

/// Writes `</html>`.
pub fn close_html(writer: &mut String)
    ensures
        final(writer)@ == old(writer)@ + close_tag_text("html"@),
{
    close_tag("html", writer);
}

/// The HTML of a name.
pub fn name2html(name: Name) -> (res: String)
    ensures
        res@ == name_html(name@),
{
    if let Some(href) = name.href() {
        let mut res = String::from_str("<a href=\"");
        res.append(href.as_str());
        res.append("\">");
        res.append(name.name().as_str());
        res.append("</a>");
        assert(res@ =~= name_html(name@));
        res
    } else {
        name.name()
    }
}


/// The name of an IRI reference: a full IRI shows in its qualified form and
/// links to itself; a prefixed name shows its local part.
pub open spec fn iri_ref_name(pm: Seq<(Seq<char>, Seq<char>)>, iri_ref: IriRef) -> NameView {
    match iri_ref {
        IriRef::Iri(iri) => NameView { name: qualify_spec(pm, iri@), href: Some(iri@) },
        IriRef::Prefixed { prefix: _, local } => NameView { name: local@, href: None },
    }
}

/// The name of an IRI reference.
pub fn iri_ref2name(iri_ref: &IriRef, _config: &ShEx2HtmlConfig, prefixmap: &PrefixMap) -> (res:
    Result<Name, ShEx2HtmlError>)
    ensures
        res matches Ok(n) && n@ == iri_ref_name(prefixmap@, *iri_ref),
{
    match iri_ref {
        IriRef::Iri(iri) => Ok(Name::new(prefixmap.qualify(iri.as_str()).as_str(), Some(iri.as_str()))),
        IriRef::Prefixed { prefix: _, local } => Ok(Name::new(local.as_str(), None)),
    }
}

/// The settings of the conversion.
#[derive(Debug)]
pub struct ShEx2HtmlConfig {
    pub title: String,
    pub landing_page_name: String,
}

/// What a triple constraint says of the values of its predicate.
#[derive(Debug)]
pub enum ValueConstraint {
    Datatype(Name),
    NoConstraint,
}

/// The view of a value constraint.
pub enum ValueConstraintView {
    Datatype(NameView),
    NoConstraint,
}

impl View for ValueConstraint {
    type V = ValueConstraintView;

    open spec fn view(&self) -> ValueConstraintView {
        match self {
            ValueConstraint::Datatype(n) => ValueConstraintView::Datatype(n@),
            ValueConstraint::NoConstraint => ValueConstraintView::NoConstraint,
        }
    }
}

impl ValueConstraint {
    pub fn datatype(name: Name) -> (res: ValueConstraint)
        ensures
            res@ == ValueConstraintView::Datatype(name@),
    {
        ValueConstraint::Datatype(name)
    }
}

impl Default for ValueConstraint {
    fn default() -> (res: ValueConstraint)
        ensures
            res@ == ValueConstraintView::NoConstraint,
    {
        ValueConstraint::NoConstraint
    }
}

/// A row of the page of a shape: a predicate, its value constraint and its
/// cardinality.
#[derive(Debug)]
pub struct Entry {
    pub name: Name,
    pub value_constraint: ValueConstraint,
    pub card: Cardinality,
}

/// The view of a row.
pub struct EntryView {
    pub name: NameView,
    pub value_constraint: ValueConstraintView,
    pub card: Cardinality,
}

impl View for Entry {
    type V = EntryView;

    open spec fn view(&self) -> EntryView {
        EntryView { name: self.name@, value_constraint: self.value_constraint@, card: self.card }
    }
}

impl Entry {
    pub fn new(name: Name, value_constraint: ValueConstraint, card: Cardinality) -> (res: Entry)
        ensures
            res@ == (EntryView { name: name@, value_constraint: value_constraint@, card }),
    {
        Entry { name, value_constraint, card }
    }
}

/// The page of a shape: its name and its rows.
#[derive(Debug)]
pub struct HtmlShape {
    name: Name,
    entries: Vec<Entry>,
}

/// The view of the page of a shape.
pub struct HtmlShapeView {
    pub name: NameView,
    pub entries: Seq<EntryView>,
}

impl View for HtmlShape {
    type V = HtmlShapeView;

    closed spec fn view(&self) -> HtmlShapeView {
        HtmlShapeView { name: self.name@, entries: self.entries@.map_values(|e: Entry| e@) }
    }
}

impl HtmlShape {
    pub fn new(name: Name) -> (res: HtmlShape)
        ensures
            res@ == (HtmlShapeView { name: name@, entries: Seq::empty() }),
    {
        let res = HtmlShape { name, entries: Vec::new() };
        assert(res@.entries =~= Seq::<EntryView>::empty());
        res
    }

    pub fn add_entry(&mut self, entry: Entry)
        ensures
            final(self)@ == (HtmlShapeView {
                name: old(self)@.name,
                entries: old(self)@.entries.push(entry@),
            }),
    {
        let ghost e = entry@;
        self.entries.push(entry);
        assert(self@.entries =~= old(self)@.entries.push(e));
    }

    pub fn name(&self) -> (res: Name)
        ensures
            res@ == self@.name,
    {
        self.name.copy()
    }

    /// The rows of the page.
    pub fn entries(&self) -> (res: &Vec<Entry>)
        ensures
            res@.map_values(|e: Entry| e@) == self@.entries,
    {
        &self.entries
    }
}

/// Writes the item of the landing page for a shape.
pub fn write_li_shape(shape: &HtmlShape, writer: &mut String)
    ensures
        final(writer)@ == old(writer)@ + tag_txt_text("li"@, name_html(shape@.name)),
{
    tag_txt("li", name2html(shape.name()).as_str(), writer);
}


/// A value expression that the conversion handles: a node constraint with a
/// datatype, or a reference to a shape by its IRI.
pub open spec fn supported_value_expr(se: ShapeExpr) -> bool {
    match se {
        ShapeExpr::NodeConstraint(nc) => nc.datatype is Some,
        ShapeExpr::Ref(label) => label is IriRef,
        _ => false,
    }
}

/// The value constraint that a value expression shows as: the name of the
/// datatype of a node constraint; nothing for a reference to a shape.
pub open spec fn value_constraint_of(pm: Seq<(Seq<char>, Seq<char>)>, se: ShapeExpr) -> ValueConstraintView {
    match se {
        ShapeExpr::NodeConstraint(nc) => match nc.datatype {
            Some(d) => ValueConstraintView::Datatype(iri_ref_name(pm, d)),
            None => ValueConstraintView::NoConstraint,
        },
        _ => ValueConstraintView::NoConstraint,
    }
}

/// A triple expression that the conversion handles inside a shape: a triple
/// constraint whose value expression, if any, it handles where it reads it,
/// that is, where the cardinality is right.
pub open spec fn supported_triple_constraint(te: TripleExpr) -> bool {
    match te {
        TripleExpr::TripleConstraint { value_expr, min, max, .. } => spec_card(min, max) is Ok ==> match value_expr {
            Some(b) => supported_value_expr(*b),
            None => true,
        },
        _ => false,
    }
}

/// The row that a triple constraint gives, if any, or the bounds of a wrong
/// cardinality. A constraint without a value constraint gives no row.
pub open spec fn triple_constraint_entry(pm: Seq<(Seq<char>, Seq<char>)>, te: TripleExpr) -> Result<
    Option<EntryView>,
    (i32, i32),
> {
    match te {
        TripleExpr::TripleConstraint { predicate, value_expr, min, max, .. } => match spec_card(
            min,
            max,
        ) {
            Err(e) => Err(e),
            Ok(card) => {
                let vc = match value_expr {
                    Some(b) => value_constraint_of(pm, *b),
                    None => ValueConstraintView::NoConstraint,
                };
                if vc is NoConstraint {
                    Ok(None)
                } else {
                    Ok(
                        Some(
                            EntryView { name: iri_ref_name(pm, predicate), value_constraint: vc, card },
                        ),
                    )
                }
            },
        },
        _ => Ok(None),
    }
}

/// The rows of a sequence of triple constraints, in order, or the bounds of
/// the first wrong cardinality.
pub open spec fn entries_of(pm: Seq<(Seq<char>, Seq<char>)>, tes: Seq<TripleExprWrapper>) -> Result<
    Seq<EntryView>,
    (i32, i32),
>
    decreases tes.len(),
{
    if tes.len() == 0 {
        Ok(Seq::empty())
    } else {
        match entries_of(pm, tes.drop_last()) {
            Err(e) => Err(e),
            Ok(es) => match triple_constraint_entry(pm, tes.last().te) {
                Err(e) => Err(e),
                Ok(None) => Ok(es),
                Ok(Some(e)) => Ok(es.push(e)),
            },
        }
    }
}

/// Once the rows of a prefix fail, so do the rows of the whole sequence.
pub proof fn lemma_entries_of_error_persists(
    pm: Seq<(Seq<char>, Seq<char>)>,
    tes: Seq<TripleExprWrapper>,
    i: int,
)
    requires
        0 <= i <= tes.len(),
        entries_of(pm, tes.take(i)) is Err,
    ensures
        entries_of(pm, tes) == entries_of(pm, tes.take(i)),
    decreases tes.len() - i,
{
    if i < tes.len() {
        assert(tes.take(i + 1).drop_last() =~= tes.take(i));
        lemma_entries_of_error_persists(pm, tes, i + 1);
    } else {
        assert(tes.take(i) =~= tes);
    }
}

/// A shape that the conversion handles: without a triple expression, with a
/// triple constraint it handles, or with an `EachOf` of constraints that it
/// handles up to the first wrong cardinality, after which it reads none.
pub open spec fn supported_shape(pm: Seq<(Seq<char>, Seq<char>)>, shape: Shape) -> bool {
    match shape.expression {
        None => true,
        Some(w) => match w.te {
            TripleExpr::EachOf { expressions, .. } => forall|i: int|
                0 <= i < expressions@.len() && entries_of(pm, expressions@.take(i)) is Ok
                    ==> supported_triple_constraint(#[trigger] expressions@[i].te),
            TripleExpr::TripleConstraint { .. } => supported_triple_constraint(w.te),
            _ => false,
        },
    }
}

/// The rows of the page of a shape.
pub open spec fn shape_entries(pm: Seq<(Seq<char>, Seq<char>)>, shape: Shape) -> Result<
    Seq<EntryView>,
    (i32, i32),
> {
    match shape.expression {
        None => Ok(Seq::empty()),
        Some(w) => match w.te {
            TripleExpr::EachOf { expressions, .. } => entries_of(pm, expressions@),
            _ => entries_of(pm, seq![w]),
        },
    }
}

/// Why a conversion stops.
pub enum ConvertError {
    Card(i32, i32),
    NotImplemented,
}

/// A declaration that the conversion handles: labelled by an IRI, and, where
/// its expression is a shape, a shape it handles.
pub open spec fn decl_supported(pm: Seq<(Seq<char>, Seq<char>)>, d: ShapeDecl) -> bool {
    &&& d.id is IriRef
    &&& (d.shape_expr matches ShapeExpr::Shape(s) ==> supported_shape(pm, s))
}

/// The name of the label of a declaration.
pub open spec fn decl_name(pm: Seq<(Seq<char>, Seq<char>)>, d: ShapeDecl) -> NameView {
    match d.id {
        ShapeExprLabel::IriRef { value } => iri_ref_name(pm, value),
        _ => NameView { name: Seq::empty(), href: None },
    }
}

/// The site after converting one declaration: its label is added, then the
/// page of its shape; an expression that is not a shape, or a wrong
/// cardinality, stops the conversion after the label.
pub open spec fn convert_step(
    pm: Seq<(Seq<char>, Seq<char>)>,
    st: HtmlSchemaView,
    d: ShapeDecl,
) -> (HtmlSchemaView, Option<ConvertError>) {
    let name = decl_name(pm, d);
    let (st1, node) = add_label_spec(st, name);
    match d.shape_expr {
        ShapeExpr::Shape(s) => match shape_entries(pm, s) {
            Ok(es) => (
                HtmlSchemaView {
                    labels: st1.labels,
                    shapes: st1.shapes.push((node, HtmlShapeView { name, entries: es })),
                },
                None,
            ),
            Err((m, n)) => (st1, Some(ConvertError::Card(m, n))),
        },
        _ => (st1, Some(ConvertError::NotImplemented)),
    }
}

/// The site after converting the declarations in order, up to the first that
/// stops the conversion.
pub open spec fn convert_spec(
    pm: Seq<(Seq<char>, Seq<char>)>,
    st: HtmlSchemaView,
    decls: Seq<ShapeDecl>,
) -> (HtmlSchemaView, Option<ConvertError>)
    decreases decls.len(),
{
    if decls.len() == 0 {
        (st, None)
    } else {
        let (st1, e) = convert_spec(pm, st, decls.drop_last());
        if e is Some {
            (st1, e)
        } else {
            convert_step(pm, st1, decls.last())
        }
    }
}

/// Once the conversion of a prefix of the declarations stops, the conversion
/// of all of them stops there too.
pub proof fn lemma_convert_stop_persists(
    pm: Seq<(Seq<char>, Seq<char>)>,
    st: HtmlSchemaView,
    decls: Seq<ShapeDecl>,
    i: int,
)
    requires
        0 <= i <= decls.len(),
        convert_spec(pm, st, decls.take(i)).1 is Some,
    ensures
        convert_spec(pm, st, decls) == convert_spec(pm, st, decls.take(i)),
    decreases decls.len() - i,
{
    if i < decls.len() {
        assert(decls.take(i + 1).drop_last() =~= decls.take(i));
        lemma_convert_stop_persists(pm, st, decls, i + 1);
    } else {
        assert(decls.take(i) =~= decls);
    }
}

/// Converting declarations keeps the labels and the pages already in the
/// site, in order, and adds one page per declaration when no declaration
/// stops the conversion.
pub proof fn law_convert_extends_site(
    pm: Seq<(Seq<char>, Seq<char>)>,
    st: HtmlSchemaView,
    decls: Seq<ShapeDecl>,
)
    ensures
        st.labels.is_prefix_of(convert_spec(pm, st, decls).0.labels),
        st.shapes.is_prefix_of(convert_spec(pm, st, decls).0.shapes),
        convert_spec(pm, st, decls).1 is None ==> convert_spec(pm, st, decls).0.shapes.len()
            == st.shapes.len() + decls.len(),
    decreases decls.len(),
{
    if decls.len() > 0 {
        law_convert_extends_site(pm, st, decls.drop_last());
        let (st1, e) = convert_spec(pm, st, decls.drop_last());
        if e is None {
            let d = decls.last();
            let (st2, _node) = add_label_spec(st1, decl_name(pm, d));
            assert(st1.labels.is_prefix_of(st2.labels));
            assert(st2.shapes == st1.shapes);
            let st3 = convert_step(pm, st1, d).0;
            assert(st2.labels == st3.labels);
            assert(st2.shapes.is_prefix_of(st3.shapes));
            assert(st.labels.is_prefix_of(st3.labels)) by {
                assert forall|k: int| 0 <= k < st.labels.len() implies st3.labels[k] == st.labels[k] by {
                    assert(st1.labels[k] == st.labels[k]);
                }
            }
            assert(st.shapes.is_prefix_of(st3.shapes)) by {
                assert forall|k: int| 0 <= k < st.shapes.len() implies st3.shapes[k] == st.shapes[k] by {
                    assert(st1.shapes[k] == st.shapes[k]);
                }
            }
        }
    }
}

/// The prefixes of a schema; a schema without a prefix map has none.
pub open spec fn schema_prefixes(shex: Schema) -> Seq<(Seq<char>, Seq<char>)> {
    match shex.prefixmap {
        Some(pm) => pm@,
        None => Seq::empty(),
    }
}

/// The items of the landing page, one per page.
pub open spec fn shape_items(shapes: Seq<(nat, HtmlShapeView)>) -> Seq<char>
    decreases shapes.len(),
{
    if shapes.len() == 0 {
        Seq::empty()
    } else {
        shape_items(shapes.drop_last()) + tag_txt_text("li"@, name_html(shapes.last().1.name))
    }
}

/// The items of the pages of two parts of a site are those of the first
/// part followed by those of the second.
pub proof fn law_shape_items_concat(a: Seq<(nat, HtmlShapeView)>, b: Seq<(nat, HtmlShapeView)>)
    ensures
        shape_items(a + b) == shape_items(a) + shape_items(b),
    decreases b.len(),
{
    if b.len() == 0 {
        assert(a + b =~= a);
        assert(shape_items(b) =~= Seq::<char>::empty());
        assert(shape_items(a) + shape_items(b) =~= shape_items(a));
    } else {
        law_shape_items_concat(a, b.drop_last());
        assert((a + b).drop_last() =~= a + b.drop_last());
        assert((a + b).last() == b.last());
        assert(shape_items(a + b) =~= shape_items(a) + shape_items(b));
    }
}

/// Every page of a site is listed on the landing page by one item, a link
/// to it by its name, whatever rows the page has.
pub proof fn law_every_page_listed(p: (nat, HtmlShapeView))
    ensures
        shape_items(seq![p]) == "<li>"@ + name_html(p.1.name) + "</li>"@,
{
    let e = Seq::<(nat, HtmlShapeView)>::empty();
    assert(seq![p].drop_last() =~= e);
    assert(shape_items(e) == Seq::<char>::empty());
    assert(shape_items(seq![p]) =~= tag_txt_text("li"@, name_html(p.1.name)));
    reveal_strlit("<");
    reveal_strlit(">");
    reveal_strlit("</");
    reveal_strlit("li");
    reveal_strlit("<li>");
    reveal_strlit("</li>");
    assert(open_tag_text("li"@) =~= "<li>"@);
    assert(close_tag_text("li"@) =~= "</li>"@);
}

/// Adding a page to a site adds its item to the landing page, just before
/// the end of the list.
pub proof fn law_landing_page_grows_by_an_item(title: Seq<char>, shapes: Seq<(nat, HtmlShapeView)>, p: (nat, HtmlShapeView))
    ensures
        landing_page_text(title, shapes.push(p)).len() == landing_page_text(title, shapes).len() + (
        "<li>"@ + name_html(p.1.name) + "</li>"@).len(),
{
    law_shape_items_concat(shapes, seq![p]);
    assert(shapes.push(p) =~= shapes + seq![p]);
    law_every_page_listed(p);
}

/// The landing page: the title, then the list of the pages.
pub open spec fn landing_page_text(title: Seq<char>, shapes: Seq<(nat, HtmlShapeView)>) -> Seq<char> {
    open_tag_text("html"@) + open_tag_text("head"@) + close_tag_text("head"@) + open_tag_text(
        "body"@,
    ) + tag_txt_text("h1"@, title) + open_tag_text("ul"@) + shape_items(shapes) + close_tag_text(
        "ul"@,
    ) + close_tag_text("body"@) + close_tag_text("html"@)
}

/// Writes the landing page of a site.
pub fn generate_landing_page(writer: &mut String, html_schema: &HtmlSchema, config: &ShEx2HtmlConfig)
    ensures
        final(writer)@ == old(writer)@ + landing_page_text(config.title@, html_schema@.shapes),
{
    open_html(writer);
    open_tag("head", writer);
    close_tag("head", writer);
    open_tag("body", writer);
    tag_txt("h1", config.title.as_str(), writer);
    open_tag("ul", writer);
    let ghost before_items = writer@;
    let n = html_schema.len();
    let mut i: usize = 0;
    assert(html_schema@.shapes.take(0) =~= Seq::<(nat, HtmlShapeView)>::empty());
    assert(writer@ =~= before_items + shape_items(html_schema@.shapes.take(0)));
    while i < n
        invariant
            n == html_schema@.shapes.len(),
            i <= n,
            writer@ == before_items + shape_items(html_schema@.shapes.take(i as int)),
        decreases n - i,
    {
        let html_shape = html_schema.shape(i);
        write_li_shape(html_shape, writer);
        assert(html_schema@.shapes.take(i + 1).drop_last() =~= html_schema@.shapes.take(i as int));
        assert(html_schema@.shapes.take(i + 1).last() == html_schema@.shapes[i as int]);
        i = i + 1;
        assert(writer@ =~= before_items + shape_items(html_schema@.shapes.take(i as int)));
    }
    assert(html_schema@.shapes.take(n as int) =~= html_schema@.shapes);
    close_tag("ul", writer);
    close_tag("body", writer);
    close_html(writer);
    assert(writer@ =~= old(writer)@ + landing_page_text(config.title@, html_schema@.shapes));
}

/// Identifies a labelled shape of the generated site.
#[derive(Debug, Clone, Copy, PartialEq, Eq)]
pub struct NodeId(pub usize);

/// The index of the first label in `labels` whose text is `name`.
pub open spec fn label_index(labels: Seq<NameView>, name: Seq<char>) -> Option<int>
    decreases labels.len(),
{
    if labels.len() == 0 {
        None
    } else {
        match label_index(labels.drop_last(), name) {
            Some(k) => Some(k),
            None => if labels.last().name == name {
                Some(labels.len() - 1)
            } else {
                None
            },
        }
    }
}

proof fn lemma_label_index(labels: Seq<NameView>, name: Seq<char>)
    ensures
        match label_index(labels, name) {
            Some(k) => 0 <= k < labels.len() && labels[k].name == name && forall|j: int|
                0 <= j < k ==> (#[trigger] labels[j]).name != name,
            None => forall|j: int| 0 <= j < labels.len() ==> (#[trigger] labels[j]).name != name,
        },
    decreases labels.len(),
{
    if labels.len() > 0 {
        lemma_label_index(labels.drop_last(), name);
        assert forall|j: int| 0 <= j < labels.len() - 1 implies labels.drop_last()[j] == labels[j] by {}
    }
}

/// Adding a label whose text the site already holds, once or again, leaves
/// the site as it is and gives the node of the first label with that text.
pub proof fn law_add_label_idempotent(st: HtmlSchemaView, name: NameView, again: NameView)
    requires
        again.name == name.name,
    ensures
        add_label_spec(add_label_spec(st, name).0, again) == (
            add_label_spec(st, name).0,
            add_label_spec(st, name).1,
        ),
{
    let (st1, n1) = add_label_spec(st, name);
    lemma_label_index(st.labels, name.name);
    lemma_label_index(st1.labels, name.name);
    match label_index(st.labels, name.name) {
        Some(k) => {},
        None => {
            assert(st1.labels[st.labels.len() as int] == name);
            match label_index(st1.labels, name.name) {
                Some(k) => {
                    if k < st.labels.len() {
                        assert(st1.labels[k] == st.labels[k]);
                    }
                },
                None => {
                    assert(st1.labels[st.labels.len() as int].name == name.name);
                },
            }
        },
    }
}

/// The view of the labels and the pages of a site.
pub struct HtmlSchemaView {
    pub labels: Seq<NameView>,
    pub shapes: Seq<(nat, HtmlShapeView)>,
}

/// The site under construction: the labels of the shapes, each with its node
/// identifier (its position), and the pages added for them, in order.
#[derive(Debug)]
pub struct HtmlSchema {
    labels: Vec<Name>,
    shapes: Vec<(NodeId, HtmlShape)>,
}

impl View for HtmlSchema {
    type V = HtmlSchemaView;

    closed spec fn view(&self) -> HtmlSchemaView {
        HtmlSchemaView {
            labels: self.labels@.map_values(|n: Name| n@),
            shapes: self.shapes@.map_values(|p: (NodeId, HtmlShape)| (p.0.0 as nat, p.1@)),
        }
    }
}

/// The site after `add_label(name)`, and the node of the label.
pub open spec fn add_label_spec(st: HtmlSchemaView, name: NameView) -> (HtmlSchemaView, nat) {
    match label_index(st.labels, name.name) {
        Some(k) => (st, k as nat),
        None => (
            HtmlSchemaView { labels: st.labels.push(name), shapes: st.shapes },
            st.labels.len(),
        ),
    }
}

impl HtmlSchema {
    pub fn new() -> (res: HtmlSchema)
        ensures
            res@.labels == Seq::<NameView>::empty(),
            res@.shapes == Seq::<(nat, HtmlShapeView)>::empty(),
    {
        let res = HtmlSchema { labels: Vec::new(), shapes: Vec::new() };
        assert(res@.labels =~= Seq::<NameView>::empty());
        assert(res@.shapes =~= Seq::<(nat, HtmlShapeView)>::empty());
        res
    }

    /// The node of the label with the text of `name`, added if it is new.
    pub fn add_label(&mut self, name: &Name) -> (res: NodeId)
        ensures
            add_label_spec(old(self)@, name@) == (final(self)@, res.0 as nat),
    {
        let n = self.labels.len();
        let mut i: usize = 0;
        let ghost views = self@.labels;
        proof {
            lemma_label_index(views, name@.name);
        }
        while i < n
            invariant
                n == self.labels@.len(),
                views == self@.labels,
                *self == *old(self),
                i <= n,
                forall|j: int| 0 <= j < i ==> (#[trigger] views[j]).name != name@.name,
                match label_index(views, name@.name) {
                    Some(k) => 0 <= k < views.len() && views[k].name == name@.name && forall|j: int|
                        0 <= j < k ==> (#[trigger] views[j]).name != name@.name,
                    None => forall|j: int|
                        0 <= j < views.len() ==> (#[trigger] views[j]).name != name@.name,
                },
            decreases n - i,
        {
            assert(views[i as int] == self.labels@[i as int]@);
            if self.labels[i].name().eq(&name.name()) {
                return NodeId(i);
            }
            i = i + 1;
        }
        self.labels.push(name.copy());
        assert(self@.labels =~= views.push(name@));
        assert(self@.shapes =~= old(self)@.shapes);
        NodeId(n)
    }

    /// Adds the page of the shape of a node.
    pub fn add_component(&mut self, node: NodeId, component: HtmlShape) -> (res: Result<(), ShEx2HtmlError>)
        ensures
            res is Ok,
            final(self)@ == (HtmlSchemaView {
                labels: old(self)@.labels,
                shapes: old(self)@.shapes.push((node.0 as nat, component@)),
            }),
    {
        let ghost c = component@;
        self.shapes.push((node, component));
        assert(self@.shapes =~= old(self)@.shapes.push((node.0 as nat, c)));
        assert(self@.labels =~= old(self)@.labels);
        Ok(())
    }

    /// The number of pages.
    pub fn len(&self) -> (res: usize)
        ensures
            res == self@.shapes.len(),
    {
        self.shapes.len()
    }

    /// The page at position `i`.
    pub fn shape(&self, i: usize) -> (res: &HtmlShape)
        requires
            i < self@.shapes.len(),
        ensures
            res@ == self@.shapes[i as int].1,
    {
        &self.shapes[i].1
    }
}

/// Converts ShEx schemas into the pages of a site.
pub struct ShEx2Html {
    config: ShEx2HtmlConfig,
    current_html: HtmlSchema,
}

impl ShEx2Html {
    /// The settings of the conversion.
    pub closed spec fn settings(&self) -> &ShEx2HtmlConfig {
        &self.config
    }

    /// The site built so far.
    pub closed spec fn site(&self) -> HtmlSchemaView {
        self.current_html@
    }

    /// A converter with the given settings and an empty site.
    pub fn new(config: ShEx2HtmlConfig) -> (res: ShEx2Html)
        ensures
            *res.settings() == config,
            res.site().labels == Seq::<NameView>::empty(),
            res.site().shapes == Seq::<(nat, HtmlShapeView)>::empty(),
    {
        ShEx2Html { config, current_html: HtmlSchema::new() }
    }

    /// The settings of the conversion.
    pub fn config(&self) -> (res: &ShEx2HtmlConfig)
        ensures
            res == self.settings(),
    {
        &self.config
    }

    /// The site built so far.
    pub fn current_html(&self) -> (res: &HtmlSchema)
        ensures
            res@ == self.site(),
    {
        &self.current_html
    }

    /// Adds to the site the labels and the pages of the shapes of a schema.
    pub fn convert(&mut self, shex: &Schema) -> (res: Result<(), ShEx2HtmlError>)
        requires
            match shex.shapes {
                Some(ds) => forall|i: int|
                    0 <= i < ds@.len() && convert_spec(schema_prefixes(*shex), old(self).site(), ds@.take(i)).1 is None
                        ==> decl_supported(schema_prefixes(*shex), #[trigger] ds@[i]),
                None => true,
            },
        ensures
            final(self).settings() == old(self).settings(),
            match shex.shapes {
                None => res is Ok && final(self).site() == old(self).site(),
                Some(ds) => {
                    let (st, e) = convert_spec(schema_prefixes(*shex), old(self).site(), ds@);
                    &&& final(self).site() == st
                    &&& match e {
                        None => res is Ok,
                        Some(ConvertError::Card(m, n)) => res == Err::<(), ShEx2HtmlError>(
                            ShEx2HtmlError::WrongCardinality { min: m, max: n },
                        ),
                        Some(ConvertError::NotImplemented) => res matches Err(
                            ShEx2HtmlError::NotImplemented { msg },
                        ) && msg@ == "Complex shape expressions are not implemented yet"@,
                    }
                },
            },
    {
        let prefixmap = match &shex.prefixmap {
            Some(pm) => pm.copy(),
            None => PrefixMap::new(),
        };
        let ghost pm = schema_prefixes(*shex);
        if let Some(shapes) = &shex.shapes {
            let ghost st0 = self.site();
            let n = shapes.len();
            let mut i: usize = 0;
            assert(shapes@.take(0) =~= Seq::<ShapeDecl>::empty());
            while i < n
                invariant
                    n == shapes@.len(),
                    shex.shapes == Some(*shapes),
                    st0 == old(self).site(),
                    i <= n,
                    prefixmap@ == pm,
                    pm == schema_prefixes(*shex),
                    self.settings() == old(self).settings(),
                    forall|j: int|
                        0 <= j < shapes@.len() && convert_spec(pm, st0, shapes@.take(j)).1 is None
                            ==> decl_supported(pm, #[trigger] shapes@[j]),
                    convert_spec(pm, st0, shapes@.take(i as int)) == (self.site(), None::<ConvertError>),
                decreases n - i,
            {
                let shape_decl = &shapes[i];
                assert(decl_supported(pm, shapes@[i as int]));
                assert(shapes@.take(i + 1).drop_last() =~= shapes@.take(i as int));
                assert(shapes@.take(i + 1).last() == shapes@[i as int]);
                let ghost site_i = self.site();
                let name = self.shape_label2name(&shape_decl.id, &prefixmap)?;
                assert(name@ == decl_name(pm, shapes@[i as int]));
                let node_id = self.current_html.add_label(&name);
                assert(add_label_spec(site_i, name@) == (self.site(), node_id.0 as nat));
                let component = match self.shape_expr2htmlshape(
                    &name,
                    &shape_decl.shape_expr,
                    &prefixmap,
                    &node_id,
                ) {
                    Ok(c) => c,
                    Err(e) => {
                        proof {
                            lemma_convert_stop_persists(pm, st0, shapes@, i + 1);
                        }
                        return Err(e);
                    },
                };
                let r = self.current_html.add_component(node_id, component);
                assert(r is Ok);
                r?;
                i = i + 1;
            }
            assert(shapes@.take(n as int) =~= shapes@);
        }
        Ok(())
    }

    /// The name of the label of a declaration.
    fn shape_label2name(&mut self, label: &ShapeExprLabel, prefixmap: &PrefixMap) -> (res: Result<
        Name,
        ShEx2HtmlError,
    >)
        requires
            *label is IriRef,
        ensures
            *final(self) == *old(self),
            match *label {
                ShapeExprLabel::IriRef { value } => res matches Ok(n) && n@ == iri_ref_name(
                    prefixmap@,
                    value,
                ),
                _ => false,
            },
    {
        match label {
            ShapeExprLabel::IriRef { value } => iri_ref2name(value, &self.config, prefixmap),
            _ => unreached(),
        }
    }

    /// The page of a shape expression; only a shape has one.
    fn shape_expr2htmlshape(
        &mut self,
        name: &Name,
        shape_expr: &ShapeExpr,
        prefixmap: &PrefixMap,
        current_node_id: &NodeId,
    ) -> (res: Result<HtmlShape, ShEx2HtmlError>)
        requires
            *shape_expr matches ShapeExpr::Shape(s) ==> supported_shape(prefixmap@, s),
        ensures
            *final(self) == *old(self),
            match *shape_expr {
                ShapeExpr::Shape(s) => match shape_entries(prefixmap@, s) {
                    Ok(es) => res matches Ok(h) && h@ == (HtmlShapeView { name: name@, entries: es }),
                    Err((m, n)) => res == Err::<HtmlShape, ShEx2HtmlError>(
                        ShEx2HtmlError::WrongCardinality { min: m, max: n },
                    ),
                },
                _ => res matches Err(ShEx2HtmlError::NotImplemented { msg })
                    && msg@ == "Complex shape expressions are not implemented yet"@,
            },
    {
        match shape_expr {
            ShapeExpr::Shape(shape) => self.shape2htmlshape(name, shape, prefixmap, current_node_id),
            _ => Err(
                ShEx2HtmlError::NotImplemented {
                    msg: String::from_str("Complex shape expressions are not implemented yet"),
                },
            ),
        }
    }

    /// The value constraint of a value expression.
    fn value_expr2value_constraint(
        &mut self,
        value_expr: &ShapeExpr,
        prefixmap: &PrefixMap,
        _current_node_id: &NodeId,
        _current_predicate: &Name,
        _current_card: &Cardinality,
    ) -> (res: Result<ValueConstraint, ShEx2HtmlError>)
        requires
            supported_value_expr(*value_expr),
        ensures
            *final(self) == *old(self),
            res matches Ok(vc) && vc@ == value_constraint_of(prefixmap@, *value_expr),
    {
        match value_expr {
            ShapeExpr::NodeConstraint(nc) => {
                if let Some(datatype) = nc.datatype() {
                    let name = iri_ref2name(&datatype, &self.config, prefixmap)?;
                    Ok(ValueConstraint::datatype(name))
                } else {
                    unreached()
                }
            },
            ShapeExpr::Ref(r) => match r {
                ShapeExprLabel::IriRef { value } => {
                    let _ref_name = iri_ref2name(value, &self.config, prefixmap)?;
                    Ok(ValueConstraint::NoConstraint)
                },
                _ => unreached(),
            },
            _ => unreached(),
        }
    }

    /// Adds to `html_shape` the row of a triple constraint, if it has one.
    fn triple_constraint2entry(
        &mut self,
        te: &TripleExpr,
        prefixmap: &PrefixMap,
        current_node_id: &NodeId,
        html_shape: &mut HtmlShape,
    ) -> (res: Result<(), ShEx2HtmlError>)
        requires
            supported_triple_constraint(*te),
        ensures
            *final(self) == *old(self),
            match triple_constraint_entry(prefixmap@, *te) {
                Ok(None) => res is Ok && final(html_shape)@ == old(html_shape)@,
                Ok(Some(e)) => res is Ok && final(html_shape)@ == (HtmlShapeView {
                    name: old(html_shape)@.name,
                    entries: old(html_shape)@.entries.push(e),
                }),
                Err((m, n)) => res == Err::<(), ShEx2HtmlError>(
                    ShEx2HtmlError::WrongCardinality { min: m, max: n },
                ) && final(html_shape)@ == old(html_shape)@,
            },
    {
        match te {
            TripleExpr::TripleConstraint { predicate, value_expr, min, max, .. } => {
                let pred_name = iri_ref2name(predicate, &self.config, prefixmap)?;
                let card = mk_card(min, max)?;
                let value_constraint = if let Some(se) = value_expr {
                    self.value_expr2value_constraint(
                        se,
                        prefixmap,
                        current_node_id,
                        &pred_name,
                        &card,
                    )?
                } else {
                    ValueConstraint::default()
                };
                match value_constraint {
                    ValueConstraint::NoConstraint => {},
                    _ => {
                        let entry = Entry::new(pred_name, value_constraint, card);
                        html_shape.add_entry(entry)
                    },
                }
                Ok(())
            },
            _ => unreached(),
        }
    }

    /// The page of a shape with the given name.
    fn shape2htmlshape(
        &mut self,
        name: &Name,
        shape: &Shape,
        prefixmap: &PrefixMap,
        current_node_id: &NodeId,
    ) -> (res: Result<HtmlShape, ShEx2HtmlError>)
        requires
            supported_shape(prefixmap@, *shape),
        ensures
            *final(self) == *old(self),
            match shape_entries(prefixmap@, *shape) {
                Ok(es) => res matches Ok(h) && h@ == (HtmlShapeView { name: name@, entries: es }),
                Err((m, n)) => res == Err::<HtmlShape, ShEx2HtmlError>(
                    ShEx2HtmlError::WrongCardinality { min: m, max: n },
                ),
            },
    {
        let mut html_shape = HtmlShape::new(name.copy());
        if let Some(te) = &shape.expression {
            match &te.te {
                TripleExpr::EachOf { expressions, .. } => {
                    let n = expressions.len();
                    let mut i: usize = 0;
                    assert(expressions@.take(0) =~= Seq::<TripleExprWrapper>::empty());
                    assert(html_shape@.entries =~= Seq::<EntryView>::empty());
                    while i < n
                        invariant
                            *self == *old(self),
                            n == expressions@.len(),
                            shape_entries(prefixmap@, *shape) == entries_of(
                                prefixmap@,
                                expressions@,
                            ),
                            i <= n,
                            forall|j: int|
                                0 <= j < expressions@.len() && entries_of(prefixmap@, expressions@.take(j)) is Ok
                                    ==> supported_triple_constraint(#[trigger] expressions@[j].te),
                            entries_of(prefixmap@, expressions@.take(i as int)) matches Ok(es)
                                && html_shape@ == (HtmlShapeView { name: name@, entries: es }),
                        decreases n - i,
                    {
                        let ghost before = html_shape@;
                        assert(supported_triple_constraint(expressions@[i as int].te));
                        let r = self.triple_constraint2entry(
                            &expressions[i].te,
                            prefixmap,
                            current_node_id,
                            &mut html_shape,
                        );
                        assert(expressions@.take(i + 1).drop_last() =~= expressions@.take(
                            i as int,
                        ));
                        assert(expressions@.take(i + 1).last() == expressions@[i as int]);
                        match r {
                            Ok(()) => {},
                            Err(e) => {
                                proof {
                                    lemma_entries_of_error_persists(
                                        prefixmap@,
                                        expressions@,
                                        i + 1,
                                    );
                                }
                                return Err(e);
                            },
                        }
                        i = i + 1;
                    }
                    assert(expressions@.take(n as int) =~= expressions@);
                },
                TripleExpr::TripleConstraint { .. } => {
                    let r = self.triple_constraint2entry(
                        &te.te,
                        prefixmap,
                        current_node_id,
                        &mut html_shape,
                    );
                    assert(seq![*te].drop_last() =~= Seq::<TripleExprWrapper>::empty());
                    assert(entries_of(prefixmap@, Seq::<TripleExprWrapper>::empty()) == Ok::<
                        Seq<EntryView>,
                        (i32, i32),
                    >(Seq::empty()));
                    assert(seq![*te].last() == *te);
                    match r {
                        Ok(()) => {},
                        Err(e) => {
                            return Err(e);
                        },
                    }
                },
                _ => unreached(),
            }
            Ok(html_shape)
        } else {
            Ok(html_shape)
        }
    }
}

} // verus!
