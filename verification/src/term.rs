//! RDF terms: IRIs, blank nodes and literals, with their mathematical views.
use vstd::prelude::*;

verus! {

/// An RDF node that may stand in any position of a triple: an IRI, a blank
/// node (by its label) or a literal (by its lexical form).
#[derive(Debug, PartialEq, Eq)]
pub enum Term {
    Iri(String),
    BlankNode(String),
    Literal(String),
}

/// An RDF node that may stand as the subject of a triple.
#[derive(Debug, PartialEq, Eq)]
pub enum Subject {
    Iri(String),
    BlankNode(String),
}

/// The value of a term, with its text as a sequence of characters.
pub enum TermView {
    Iri(Seq<char>),
    BlankNode(Seq<char>),
    Literal(Seq<char>),
}

impl View for Term {
    type V = TermView;

    open spec fn view(&self) -> TermView {
        match self {
            Term::Iri(s) => TermView::Iri(s@),
            Term::BlankNode(s) => TermView::BlankNode(s@),
            Term::Literal(s) => TermView::Literal(s@),
        }
    }
}

impl View for Subject {
    type V = TermView;

    open spec fn view(&self) -> TermView {
        match self {
            Subject::Iri(s) => TermView::Iri(s@),
            Subject::BlankNode(s) => TermView::BlankNode(s@),
        }
    }
}

impl Clone for Term {
    fn clone(&self) -> (res: Self)
        ensures
            res == *self,
    {
        match self {
            Term::Iri(s) => Term::Iri(s.clone()),
            Term::BlankNode(s) => Term::BlankNode(s.clone()),
            Term::Literal(s) => Term::Literal(s.clone()),
        }
    }
}

impl Clone for Subject {
    fn clone(&self) -> (res: Self)
        ensures
            res == *self,
    {
        match self {
            Subject::Iri(s) => Subject::Iri(s.clone()),
            Subject::BlankNode(s) => Subject::BlankNode(s.clone()),
        }
    }
}

impl Term {
    /// Whether two terms are the same term.
    pub fn same(&self, other: &Term) -> (res: bool)
        ensures
            res == (self@ == other@),
    {
        match (self, other) {
            (Term::Iri(a), Term::Iri(b)) => a.eq(b),
            (Term::BlankNode(a), Term::BlankNode(b)) => a.eq(b),
            (Term::Literal(a), Term::Literal(b)) => a.eq(b),
            _ => false,
        }
    }
}

impl Subject {
    /// Whether two subjects are the same node.
    pub fn same(&self, other: &Subject) -> (res: bool)
        ensures
            res == (self@ == other@),
    {
        match (self, other) {
            (Subject::Iri(a), Subject::Iri(b)) => a.eq(b),
            (Subject::BlankNode(a), Subject::BlankNode(b)) => a.eq(b),
            _ => false,
        }
    }
}

/// The text of a term: `<iri>`, `_:label` or `"lexical form"`.
pub open spec fn term_text(t: TermView) -> Seq<char> {
    match t {
        TermView::Iri(s) => "<"@ + s + ">"@,
        TermView::BlankNode(s) => "_:"@ + s,
        TermView::Literal(s) => "\""@ + s + "\""@,
    }
}

impl Term {
    /// Writes the text of the term.
    pub fn write_text(&self, out: &mut String)
        ensures
            final(out)@ == old(out)@ + term_text(self@),
    {
        match self {
            Term::Iri(s) => {
                out.append("<");
                out.append(s.as_str());
                out.append(">");
            },
            Term::BlankNode(s) => {
                out.append("_:");
                out.append(s.as_str());
            },
            Term::Literal(s) => {
                out.append("\"");
                out.append(s.as_str());
                out.append("\"");
            },
        }
        assert(out@ =~= old(out)@ + term_text(self@));
    }

    /// The text of the term.
    pub fn to_string(&self) -> (res: String)
        ensures
            res@ == term_text(self@),
    {
        let mut res = String::new();
        self.write_text(&mut res);
        assert(res@ =~= term_text(self@));
        res
    }
}

/// The views of a sequence of terms.
pub open spec fn terms_view(s: Seq<Term>) -> Seq<TermView> {
    s.map_values(|t: Term| t@)
}

/// The views of a sequence of subjects.
pub open spec fn subjects_view(s: Seq<Subject>) -> Seq<TermView> {
    s.map_values(|t: Subject| t@)
}

/// The views of a sequence of strings.
pub open spec fn strings_view(s: Seq<String>) -> Seq<Seq<char>> {
    s.map_values(|t: String| t@)
}

/// A term can stand as a subject exactly when it is an IRI or a blank node.
pub open spec fn is_subject_view(t: TermView) -> bool {
    !(t is Literal)
}

/// Converts a term into a subject; literals have no subject form.
pub fn term_as_subject(term: &Term) -> (res: Option<Subject>)
    ensures
        res is Some <==> is_subject_view(term@),
        res matches Some(s) ==> s@ == term@,
{
    match term {
        Term::Iri(s) => Some(Subject::Iri(s.clone())),
        Term::BlankNode(s) => Some(Subject::BlankNode(s.clone())),
        Term::Literal(_) => None,
    }
}

/// Converts a subject into a term.
pub fn subject_as_term(subject: &Subject) -> (res: Term)
    ensures
        res@ == subject@,
{
    match subject {
        Subject::Iri(s) => Term::Iri(s.clone()),
        Subject::BlankNode(s) => Term::BlankNode(s.clone()),
    }
}

/// The term that names an IRI.
pub fn iri_as_term(iri: &String) -> (res: Term)
    ensures
        res == Term::Iri(*iri),
{
    Term::Iri(iri.clone())
}

/// The IRI of a term, when the term is an IRI.
pub fn object_as_iri(term: &Term) -> (res: Option<String>)
    ensures
        res is Some <==> term@ is Iri,
        res matches Some(i) ==> term@ == TermView::Iri(i@),
{
    match term {
        Term::Iri(s) => Some(s.clone()),
        _ => None,
    }
}

/// Whether a term is a blank node.
pub fn term_is_bnode(term: &Term) -> (res: bool)
    ensures
        res == (term@ is BlankNode),
{
    match term {
        Term::BlankNode(_) => true,
        _ => false,
    }
}

/// The IRI of `rdf:type`.
pub open spec fn rdf_type_iri() -> Seq<char> {
    "http://www.w3.org/1999/02/22-rdf-syntax-ns#type"@
}

/// The IRI of `rdf:first`.
pub open spec fn rdf_first_iri() -> Seq<char> {
    "http://www.w3.org/1999/02/22-rdf-syntax-ns#first"@
}

/// The IRI of `rdf:rest`.
pub open spec fn rdf_rest_iri() -> Seq<char> {
    "http://www.w3.org/1999/02/22-rdf-syntax-ns#rest"@
}

/// The IRI of `rdf:nil`.
pub open spec fn rdf_nil_iri() -> Seq<char> {
    "http://www.w3.org/1999/02/22-rdf-syntax-ns#nil"@
}

/// The RDF vocabulary that the parsers rely on.
pub struct Vocab;

impl Vocab {
    pub fn rdf_type() -> (res: String)
        ensures
            res@ == rdf_type_iri(),
    {
        String::from_str("http://www.w3.org/1999/02/22-rdf-syntax-ns#type")
    }

    pub fn rdf_first() -> (res: String)
        ensures
            res@ == rdf_first_iri(),
    {
        String::from_str("http://www.w3.org/1999/02/22-rdf-syntax-ns#first")
    }

    pub fn rdf_rest() -> (res: String)
        ensures
            res@ == rdf_rest_iri(),
    {
        String::from_str("http://www.w3.org/1999/02/22-rdf-syntax-ns#rest")
    }

    pub fn rdf_nil() -> (res: String)
        ensures
            res@ == rdf_nil_iri(),
    {
        String::from_str("http://www.w3.org/1999/02/22-rdf-syntax-ns#nil")
    }
}

} // verus!
