//! SHACL constraint components that compare properties or match patterns,
//! evaluated natively or through SPARQL queries.
use vstd::prelude::*;

use crate::prefixmap::IriRef;
use crate::srdf::SRDFError;
use crate::term::{term_is_bnode, term_text, Term, TermView};

verus! {

/// The errors of the evaluation of a constraint.
#[derive(Debug)]
pub enum ConstraintError {
    NotImplemented,
}

/// A violation of a constraint: the focus node and the offending value.
#[derive(Debug)]
pub struct ValidationResult {
    pub focus_node: Term,
    pub value_node: Option<Term>,
}

/// The view of a violation.
pub open spec fn result_view(r: ValidationResult) -> (TermView, Option<TermView>) {
    (
        r.focus_node@,
        match r.value_node {
            Some(v) => Some(v@),
            None => None,
        },
    )
}

/// The views of a list of violations.
pub open spec fn results_view(rs: Seq<ValidationResult>) -> Seq<(TermView, Option<TermView>)> {
    rs.map_values(|r: ValidationResult| result_view(r))
}

/// The views of a list of (focus node, value node) pairs.
pub open spec fn value_nodes_view(vns: Seq<(Term, Term)>) -> Seq<(TermView, TermView)> {
    vns.map_values(|p: (Term, Term)| (p.0@, p.1@))
}

/// A store that answers SPARQL ASK queries.
///
/// `may_answer(q, a)` says which outcomes `a` a run of the query `q` may
/// have: `Some(b)` for the answer `b`, `None` for a failure. What a store
/// answers rests on its data; a store that says nothing of it keeps the
/// default, which admits every outcome.
pub trait QuerySRDF {
    open spec fn may_answer(&self, query: Seq<char>, answer: Option<bool>) -> bool {
        true
    }

    fn query_ask(&self, query: &String) -> (res: Result<bool, SRDFError>)
        ensures
            self.may_answer(
                query@,
                match res {
                    Ok(b) => Some(b),
                    Err(_) => None,
                },
            ),
    ;
}

/// sh:disjoint: the value nodes share no value with the objects of the
/// focus node for a given property.
pub struct Disjoint {
    iri_ref: IriRef,
}

impl Disjoint {
    pub fn new(iri_ref: IriRef) -> (res: Disjoint)
        ensures
            res.iri_ref() == iri_ref,
    {
        Disjoint { iri_ref }
    }

    pub closed spec fn iri_ref(&self) -> IriRef {
        self.iri_ref
    }

    /// Native evaluation is not implemented.
    pub fn evaluate_default(&self, _value_nodes: &Vec<(Term, Term)>) -> (res: Result<
        Vec<ValidationResult>,
        ConstraintError,
    >)
        ensures
            res matches Err(ConstraintError::NotImplemented),
    {
        Err(ConstraintError::NotImplemented)
    }

    /// Evaluation through SPARQL is not implemented.
    pub fn evaluate_sparql<S: QuerySRDF>(&self, _store: &S, _value_nodes: &Vec<(Term, Term)>) -> (res:
        Result<Vec<ValidationResult>, ConstraintError>)
        ensures
            res matches Err(ConstraintError::NotImplemented),
    {
        Err(ConstraintError::NotImplemented)
    }
}

/// sh:lessThan: each value node is smaller than the objects of the focus
/// node for a given property.
pub struct LessThan {
    iri_ref: IriRef,
}

impl LessThan {
    pub fn new(iri_ref: IriRef) -> (res: LessThan)
        ensures
            res.iri_ref() == iri_ref,
    {
        LessThan { iri_ref }
    }

    pub closed spec fn iri_ref(&self) -> IriRef {
        self.iri_ref
    }

    /// Native evaluation is not implemented.
    pub fn evaluate_default(&self, _value_nodes: &Vec<(Term, Term)>) -> (res: Result<
        Vec<ValidationResult>,
        ConstraintError,
    >)
        ensures
            res matches Err(ConstraintError::NotImplemented),
    {
        Err(ConstraintError::NotImplemented)
    }

    /// Evaluation through SPARQL is not implemented.
    pub fn evaluate_sparql<S: QuerySRDF>(&self, _store: &S, _value_nodes: &Vec<(Term, Term)>) -> (res:
        Result<Vec<ValidationResult>, ConstraintError>)
        ensures
            res matches Err(ConstraintError::NotImplemented),
    {
        Err(ConstraintError::NotImplemented)
    }
}


/// The violations of the native evaluation of a pattern: a blank node value
/// cannot match, so each blank node value is a violation; other values are
/// left to a SPARQL evaluation.
pub open spec fn bnode_results(vns: Seq<(TermView, TermView)>) -> Seq<(TermView, Option<TermView>)>
    decreases vns.len(),
{
    if vns.len() == 0 {
        Seq::empty()
    } else {
        let rest = bnode_results(vns.drop_last());
        let (f, v) = vns.last();
        if v is BlankNode {
            rest.push((f, Some(v)))
        } else {
            rest
        }
    }
}

/// The violations of the SPARQL evaluation of a pattern, where `answers[i]`
/// is the answer of the store to the query for the `i`-th value (`None` when
/// the store failed): a blank node value is a violation; another value is
/// one when the store answered that it does not match; a failed query gives
/// no violation.
pub open spec fn sparql_results(
    vns: Seq<(TermView, TermView)>,
    answers: Seq<Option<bool>>,
) -> Seq<(TermView, Option<TermView>)>
    decreases vns.len(),
{
    if vns.len() == 0 {
        Seq::empty()
    } else {
        let rest = sparql_results(vns.drop_last(), answers.take(vns.len() - 1));
        let (f, v) = vns.last();
        if v is BlankNode || answers[vns.len() - 1] == Some(false) {
            rest.push((f, Some(v)))
        } else {
            rest
        }
    }
}

/// A blank node value is a violation of a pattern, natively and through
/// SPARQL, whatever the store answers.
pub proof fn law_blank_values_violate(
    vns: Seq<(TermView, TermView)>,
    answers: Seq<Option<bool>>,
    i: int,
)
    requires
        0 <= i < vns.len(),
        answers.len() == vns.len(),
        vns[i].1 is BlankNode,
    ensures
        bnode_results(vns).contains((vns[i].0, Some(vns[i].1))),
        sparql_results(vns, answers).contains((vns[i].0, Some(vns[i].1))),
    decreases vns.len(),
{
    let last = vns.len() - 1;
    if i == last {
        assert(bnode_results(vns).last() == (vns[i].0, Some(vns[i].1)));
        assert(sparql_results(vns, answers).last() == (vns[i].0, Some(vns[i].1)));
    } else {
        law_blank_values_violate(vns.drop_last(), answers.take(last), i);
        let r1 = bnode_results(vns.drop_last());
        let k1 = choose|k: int| 0 <= k < r1.len() && r1[k] == (vns[i].0, Some(vns[i].1));
        assert(bnode_results(vns)[k1] == r1[k1]);
        let r2 = sparql_results(vns.drop_last(), answers.take(last));
        let k2 = choose|k: int| 0 <= k < r2.len() && r2[k] == (vns[i].0, Some(vns[i].1));
        assert(sparql_results(vns, answers)[k2] == r2[k2]);
    }
}

/// Through SPARQL, a value is reported exactly when it is a blank node or the
/// store answered `false` to its query: every violation is the focus node
/// and value of such an entry, and every such entry is reported.
pub proof fn law_sparql_violations(vns: Seq<(TermView, TermView)>, answers: Seq<Option<bool>>)
    requires
        answers.len() == vns.len(),
    ensures
        forall|k: int|
            0 <= k < sparql_results(vns, answers).len() ==> exists|j: int|
                0 <= j < vns.len() && #[trigger] sparql_results(vns, answers)[k] == (vns[j].0, Some(vns[j].1))
                    && (vns[j].1 is BlankNode || answers[j] == Some(false)),
        forall|j: int|
            0 <= j < vns.len() && (#[trigger] vns[j].1 is BlankNode || answers[j] == Some(false)) ==> sparql_results(
                vns,
                answers,
            ).contains((vns[j].0, Some(vns[j].1))),
    decreases vns.len(),
{
    if vns.len() > 0 {
        let last = vns.len() - 1;
        let vd = vns.drop_last();
        let ad = answers.take(last);
        law_sparql_violations(vd, ad);
        let r = sparql_results(vns, answers);
        let rd = sparql_results(vd, ad);
        assert forall|k: int|
            0 <= k < r.len() implies exists|j: int|
                0 <= j < vns.len() && #[trigger] r[k] == (vns[j].0, Some(vns[j].1))
                    && (vns[j].1 is BlankNode || answers[j] == Some(false)) by {
            if k < rd.len() {
                assert(r[k] == rd[k]);
                let j = choose|j: int|
                    0 <= j < vd.len() && #[trigger] rd[k] == (vd[j].0, Some(vd[j].1))
                        && (vd[j].1 is BlankNode || ad[j] == Some(false));
                assert(vd[j] == vns[j] && ad[j] == answers[j]);
            } else {
                assert(r[k] == (vns[last].0, Some(vns[last].1)));
            }
        }
        assert forall|j: int|
            0 <= j < vns.len() && (#[trigger] vns[j].1 is BlankNode || answers[j] == Some(false)) implies r.contains(
                (vns[j].0, Some(vns[j].1)),
            ) by {
            if j < last {
                assert(vd[j] == vns[j] && ad[j] == answers[j]);
                assert(rd.contains((vd[j].0, Some(vd[j].1))));
                let k = choose|k: int| 0 <= k < rd.len() && rd[k] == (vd[j].0, Some(vd[j].1));
                assert(r[k] == rd[k]);
            } else {
                assert(r[r.len() - 1] == (vns[j].0, Some(vns[j].1)));
            }
        }
    }
}

/// The focus nodes play no part in deciding what is a violation: with the
/// same values and answers, other focus nodes give as many violations, with
/// the same values in the same order.
pub proof fn law_sparql_focus_plays_no_role(
    vns: Seq<(TermView, TermView)>,
    vns2: Seq<(TermView, TermView)>,
    answers: Seq<Option<bool>>,
)
    requires
        answers.len() == vns.len(),
        vns2.len() == vns.len(),
        forall|j: int| 0 <= j < vns.len() ==> #[trigger] vns[j].1 == vns2[j].1,
    ensures
        sparql_results(vns, answers).len() == sparql_results(vns2, answers).len(),
        forall|k: int|
            0 <= k < sparql_results(vns, answers).len() ==> #[trigger] sparql_results(vns, answers)[k].1
                == sparql_results(vns2, answers)[k].1,
    decreases vns.len(),
{
    if vns.len() > 0 {
        let last = vns.len() - 1;
        assert forall|j: int| 0 <= j < last implies #[trigger] vns.drop_last()[j].1 == vns2.drop_last()[j].1 by {
            assert(vns[j].1 == vns2[j].1);
        }
        law_sparql_focus_plays_no_role(vns.drop_last(), vns2.drop_last(), answers.take(last));
        assert(vns[last].1 == vns2[last].1);
        let r = sparql_results(vns, answers);
        let r2 = sparql_results(vns2, answers);
        let rd = sparql_results(vns.drop_last(), answers.take(last));
        let rd2 = sparql_results(vns2.drop_last(), answers.take(last));
        assert forall|k: int| 0 <= k < r.len() implies #[trigger] r[k].1 == r2[k].1 by {
            if k < rd.len() {
                assert(r[k] == rd[k]);
                assert(r2[k] == rd2[k]);
            }
        }
    }
}

/// sh:pattern: each value node matches a regular expression.
pub struct Pattern {
    pattern: String,
    flags: Option<String>,
}

impl Pattern {
    pub closed spec fn pattern(&self) -> Seq<char> {
        self.pattern@
    }

    pub closed spec fn flags(&self) -> Option<Seq<char>> {
        match self.flags {
            Some(f) => Some(f@),
            None => None,
        }
    }

    pub fn new(pattern: String, flags: Option<String>) -> (res: Pattern)
        ensures
            res.pattern() == pattern@,
            res.flags() == match flags {
                Some(f) => Some(f@),
                None => None::<Seq<char>>,
            },
    {
        Pattern { pattern, flags }
    }

    /// The ASK query that tests whether a value matches the pattern.
    pub open spec fn query_text(&self, value: TermView) -> Seq<char> {
        match self.flags() {
            Some(f) => "ASK { FILTER (regex(str("@ + term_text(value) + "), "@ + self.pattern()
                + ", "@ + f + ")) }"@,
            None => "ASK { FILTER (regex(str("@ + term_text(value) + "), "@ + self.pattern()
                + ")) }"@,
        }
    }

    /// The ASK query that tests whether a value matches the pattern.
    pub fn query(&self, value: &Term) -> (res: String)
        ensures
            res@ == self.query_text(value@),
    {
        let mut q = String::from_str("ASK { FILTER (regex(str(");
        value.write_text(&mut q);
        q.append("), ");
        q.append(self.pattern.as_str());
        match &self.flags {
            Some(flags) => {
                q.append(", ");
                q.append(flags.as_str());
            },
            None => {},
        }
        q.append(")) }");
        assert(q@ =~= self.query_text(value@));
        q
    }

    /// The violation that the answer of the store to the query for a value
    /// gives: one when the store answered that the value does not match.
    pub fn result_for_answer(focus_node: &Term, value_node: &Term, answer: &Result<bool, SRDFError>) -> (res: Option<ValidationResult>)
        ensures
            match res {
                Some(r) => result_view(r) == (focus_node@, Some(value_node@)) && *answer matches Ok(false),
                None => !(*answer matches Ok(false)),
            },
    {
        match answer {
            Ok(ask) => {
                if !*ask {
                    Some(ValidationResult { focus_node: focus_node.clone(), value_node: Some(value_node.clone()) })
                } else {
                    None
                }
            },
            Err(_) => None,
        }
    }

    /// Native evaluation: every blank node value is a violation.
    pub fn evaluate_default(&self, value_nodes: &Vec<(Term, Term)>) -> (res: Result<
        Vec<ValidationResult>,
        ConstraintError,
    >)
        ensures
            res matches Ok(rs) && results_view(rs@) == bnode_results(value_nodes_view(value_nodes@)),
    {
        let ghost vns = value_nodes_view(value_nodes@);
        let mut results: Vec<ValidationResult> = Vec::new();
        let n = value_nodes.len();
        let mut i: usize = 0;
        assert(vns.take(0) =~= Seq::<(TermView, TermView)>::empty());
        assert(results_view(results@) =~= bnode_results(vns.take(0)));
        while i < n
            invariant
                n == value_nodes@.len(),
                vns == value_nodes_view(value_nodes@),
                i <= n,
                results_view(results@) == bnode_results(vns.take(i as int)),
            decreases n - i,
        {
            let (focus_node, value_node) = &value_nodes[i];
            let ghost before = results_view(results@);
            if term_is_bnode(value_node) {
                results.push(ValidationResult { focus_node: focus_node.clone(), value_node: Some(value_node.clone()) });
                assert(results_view(results@) =~= before.push((focus_node@, Some(value_node@))));
            }
            assert(vns.take(i + 1).drop_last() =~= vns.take(i as int));
            assert(vns.take(i + 1).last() == (focus_node@, value_node@));
            i = i + 1;
        }
        assert(vns.take(n as int) =~= vns);
        Ok(results)
    }

    /// Evaluation through SPARQL: a blank node value is a violation; any
    /// other value is one when the store answers that it does not match the
    /// pattern. A value whose query fails is skipped.
    pub fn evaluate_sparql<S: QuerySRDF>(&self, store: &S, value_nodes: &Vec<(Term, Term)>) -> (res:
        Result<Vec<ValidationResult>, ConstraintError>)
        ensures
            res matches Ok(rs) && exists|answers: Seq<Option<bool>>|
                #![trigger sparql_results(value_nodes_view(value_nodes@), answers)]
                {
                    &&& answers.len() == value_nodes@.len()
                    &&& results_view(rs@) == sparql_results(value_nodes_view(value_nodes@), answers)
                    &&& forall|i: int|
                        0 <= i < value_nodes@.len() && !(value_nodes_view(value_nodes@)[i].1 is BlankNode)
                            ==> store.may_answer(
                            self.query_text(value_nodes_view(value_nodes@)[i].1),
                            #[trigger] answers[i],
                        )
                },
    {
        let ghost vns = value_nodes_view(value_nodes@);
        let ghost mut answers: Seq<Option<bool>> = Seq::empty();
        let mut results: Vec<ValidationResult> = Vec::new();
        let n = value_nodes.len();
        let mut i: usize = 0;
        assert(vns.take(0) =~= Seq::<(TermView, TermView)>::empty());
        assert(results_view(results@) =~= sparql_results(vns.take(0), answers));
        while i < n
            invariant
                n == value_nodes@.len(),
                vns == value_nodes_view(value_nodes@),
                i <= n,
                answers.len() == i,
                results_view(results@) == sparql_results(vns.take(i as int), answers),
                forall|j: int|
                    0 <= j < i && !(vns[j].1 is BlankNode) ==> store.may_answer(
                        self.query_text(vns[j].1),
                        #[trigger] answers[j],
                    ),
            decreases n - i,
        {
            let (focus_node, value_node) = &value_nodes[i];
            let ghost before = results_view(results@);
            let ghost old_answers = answers;
            if term_is_bnode(value_node) {
                results.push(ValidationResult { focus_node: focus_node.clone(), value_node: Some(value_node.clone()) });
                proof {
                    answers = answers.push(None);
                }
                assert(results_view(results@) =~= before.push((focus_node@, Some(value_node@))));
            } else {
                let query = self.query(value_node);
                let answer = store.query_ask(&query);
                proof {
                    answers = answers.push(
                        match answer {
                            Ok(b) => Some(b),
                            Err(_) => None,
                        },
                    );
                }
                match Self::result_for_answer(focus_node, value_node, &answer) {
                    Some(r) => {
                        let ghost rv = result_view(r);
                        results.push(r);
                        assert(results_view(results@) =~= before.push(rv));
                    },
                    None => {},
                }
            }
            assert(vns.take(i + 1).drop_last() =~= vns.take(i as int));
            assert(vns.take(i + 1).last() == (focus_node@, value_node@));
            assert(answers.take(i as int) =~= old_answers);
            i = i + 1;
        }
        assert(vns.take(n as int) =~= vns);
        Ok(results)
    }
}

} // verus!
