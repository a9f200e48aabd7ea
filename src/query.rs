//! Compiled queries, and selecting the documents that satisfy them.
use crate::cfg::{
    self, Cfg, Criterion, CriterionModel, SimpleCriterion, SimpleCriterionModel,
};
use crate::doc::{recorded, DocRead, DocView, MetaError, MetaState};
use crate::meta::MetaValue;
use crate::meta::{field_of, str_match, value_match, MetaOp, MetaOpModel};
use crate::pattern::{regex_compiles, regex_finds, Pattern};
use crate::text::{str_eq, str_starts_with};
use vstd::prelude::*;

verus! {

/// A test that a document passes or fails.
pub enum Matcher {
    Always,
    Never,
    Negate(Box<Matcher>),
    /// The base name matches a regex.
    NameRegex(Pattern),
    /// The base name equals the pattern.
    SmartNameExact(String),
    /// The base name starts with the pattern.
    SmartNamePrefix(String),
    /// A metadata field, or the path when the key is `path`, passes a
    /// comparison.
    Meta { key: String, op: MetaOp },
}

/// A matcher, as text.
pub enum MatcherModel {
    Always,
    Never,
    Negate(Box<MatcherModel>),
    NameRegex(Seq<char>),
    SmartNameExact(Seq<char>),
    SmartNamePrefix(Seq<char>),
    Meta { key: Seq<char>, op: MetaOpModel },
}

pub open spec fn matcher_model(m: Matcher) -> MatcherModel
    decreases m,
{
    match m {
        Matcher::Always => MatcherModel::Always,
        Matcher::Never => MatcherModel::Never,
        Matcher::Negate(inner) => MatcherModel::Negate(Box::new(matcher_model(*inner))),
        Matcher::NameRegex(p) => MatcherModel::NameRegex(p.source()),
        Matcher::SmartNameExact(s) => MatcherModel::SmartNameExact(s@),
        Matcher::SmartNamePrefix(s) => MatcherModel::SmartNamePrefix(s@),
        Matcher::Meta { key, op } => MatcherModel::Meta { key: key@, op: op@ },
    }
}

impl View for Matcher {
    type V = MatcherModel;

    open spec fn view(&self) -> MatcherModel {
        matcher_model(*self)
    }
}

/// What a matcher makes of a document.
#[derive(Clone, Copy, Debug, PartialEq, Eq, Structural)]
pub enum Verdict {
    Match,
    NoMatch,
    /// The metadata has to be read before the matcher can decide.
    NeedsMetadata,
    /// The metadata could not be read.
    Fault,
}

/// The reserved key that stands for the document's path.
pub open spec fn path_key() -> Seq<char> {
    seq!['p', 'a', 't', 'h']
}

/// A definite `true` matches; `false` and uncomparable do not.
pub open spec fn outcome(t: Option<bool>) -> Verdict {
    if t == Some(true) {
        Verdict::Match
    } else {
        Verdict::NoMatch
    }
}

/// `prefix` begins `s`.
pub open spec fn chars_start_with(s: Seq<char>, prefix: Seq<char>) -> bool {
    prefix.len() <= s.len() && s.subrange(0, prefix.len() as int) == prefix
}

/// The verdict of a matcher on a document.
pub open spec fn verdict(m: MatcherModel, d: DocView) -> Verdict
    decreases m,
{
    match m {
        MatcherModel::Always => Verdict::Match,
        MatcherModel::Never => Verdict::NoMatch,
        MatcherModel::Negate(inner) => match verdict(*inner, d) {
            Verdict::Match => Verdict::NoMatch,
            Verdict::NoMatch => Verdict::Match,
            v => v,
        },
        MatcherModel::NameRegex(p) => match d.stem {
            Some(s) => if regex_finds(p, s) {
                Verdict::Match
            } else {
                Verdict::NoMatch
            },
            None => Verdict::NoMatch,
        },
        MatcherModel::SmartNameExact(p) => if d.stem == Some(p) {
            Verdict::Match
        } else {
            Verdict::NoMatch
        },
        MatcherModel::SmartNamePrefix(p) => match d.stem {
            Some(s) => if chars_start_with(s, p) {
                Verdict::Match
            } else {
                Verdict::NoMatch
            },
            None => Verdict::NoMatch,
        },
        MatcherModel::Meta { key, op } => if key == path_key() {
            outcome(Some(str_match(op, d.path)))
        } else {
            match d.meta {
                MetaState::Unfetched => Verdict::NeedsMetadata,
                MetaState::Failed(_) => Verdict::Fault,
                MetaState::Fetched(v) => outcome(value_match(op, field_of(v, key))),
            }
        },
    }
}

impl Matcher {
    /// Applies the matcher to a document.
    pub fn judge(&self, doc: &DocRead) -> (r: Verdict)
        ensures
            r == verdict(self@, doc@),
        decreases self,
    {
        match self {
            Matcher::Always => Verdict::Match,
            Matcher::Never => Verdict::NoMatch,
            Matcher::Negate(inner) => {
                let v = inner.judge(doc);
                match v {
                    Verdict::Match => Verdict::NoMatch,
                    Verdict::NoMatch => Verdict::Match,
                    _ => v,
                }
            },
            Matcher::NameRegex(p) => match doc.stem() {
                Some(s) => if p.is_match(s) {
                    Verdict::Match
                } else {
                    Verdict::NoMatch
                },
                None => Verdict::NoMatch,
            },
            Matcher::SmartNameExact(p) => match doc.stem() {
                Some(s) => if str_eq(s, p.as_str()) {
                    Verdict::Match
                } else {
                    Verdict::NoMatch
                },
                None => Verdict::NoMatch,
            },
            Matcher::SmartNamePrefix(p) => match doc.stem() {
                Some(s) => if str_starts_with(s, p.as_str()) {
                    Verdict::Match
                } else {
                    Verdict::NoMatch
                },
                None => Verdict::NoMatch,
            },
            Matcher::Meta { key, op } => {
                proof {
                    reveal_strlit("path");
                    assert("path"@ =~= path_key());
                }
                if str_eq(key.as_str(), "path") {
                    let t = match op {
                        MetaOp::Eq(rhs) => str_eq(doc.path(), rhs.as_str()),
                        MetaOp::Regex(p) => p.is_match(doc.path()),
                    };
                    if t {
                        Verdict::Match
                    } else {
                        Verdict::NoMatch
                    }
                } else {
                    match doc.meta() {
                        None => Verdict::NeedsMetadata,
                        Some(Err(_)) => Verdict::Fault,
                        Some(Ok(v)) => {
                            let field = v.field(key.as_str());
                            if op.matches(field) == Some(true) {
                                Verdict::Match
                            } else {
                                Verdict::NoMatch
                            }
                        },
                    }
                }
            },
        }
    }
}

/// A compiled query: an optional smart name and the matchers that every
/// selected document passes, in order.
pub struct Query {
    smart_name: Option<String>,
    matchers: Vec<Matcher>,
}

/// A compiled query, as text.
pub struct QueryModel {
    pub smart_name: Option<Seq<char>>,
    pub matchers: Seq<MatcherModel>,
}

impl View for Query {
    type V = QueryModel;

    closed spec fn view(&self) -> QueryModel {
        QueryModel {
            smart_name: match self.smart_name {
                Some(s) => Some(s@),
                None => None,
            },
            matchers: self.matchers@.map_values(|m: Matcher| m@),
        }
    }
}

/// Why a query could not be compiled.
#[derive(Debug)]
pub enum QueryError {
    /// The preset is neither `default` nor empty.
    UnknownPreset(String),
    /// More than one smart name criterion.
    DuplicateSmartName,
    /// A regex that does not compile, and what the regex crate said of it.
    InvalidRegex(String, regex::Error),
}

/// Why a query could not be compiled, as text.
pub enum QueryErrorModel {
    UnknownPreset(Seq<char>),
    DuplicateSmartName,
    InvalidRegex(Seq<char>),
}

impl View for QueryError {
    type V = QueryErrorModel;

    open spec fn view(&self) -> QueryErrorModel {
        match self {
            QueryError::UnknownPreset(s) => QueryErrorModel::UnknownPreset(s@),
            QueryError::DuplicateSmartName => QueryErrorModel::DuplicateSmartName,
            QueryError::InvalidRegex(p, _) => QueryErrorModel::InvalidRegex(p@),
        }
    }
}

/// Negates `m` when asked to.
pub open spec fn negated_if(negate: bool, m: MatcherModel) -> MatcherModel {
    if negate {
        MatcherModel::Negate(Box::new(m))
    } else {
        m
    }
}

/// The matcher of a simple criterion, or the regex that does not compile.
pub open spec fn compile_simple(negate: bool, sc: SimpleCriterionModel) -> Result<MatcherModel, Seq<char>> {
    match sc {
        SimpleCriterionModel::NameRegex(p) => if regex_compiles(p) {
            Ok(negated_if(negate, MatcherModel::NameRegex(p)))
        } else {
            Err(p)
        },
        SimpleCriterionModel::MetaEq(k, v) => Ok(
            negated_if(negate, MatcherModel::Meta { key: k, op: MetaOpModel::Eq(v) }),
        ),
        SimpleCriterionModel::MetaRegex(k, p) => if regex_compiles(p) {
            Ok(negated_if(negate, MatcherModel::Meta { key: k, op: MetaOpModel::Regex(p) }))
        } else {
            Err(p)
        },
    }
}

/// The smart name and matchers of the first `n` criteria, or the first
/// error among them.
pub open spec fn compile_upto(cs: Seq<CriterionModel>, n: nat) -> Result<
    (Option<Seq<char>>, Seq<MatcherModel>),
    QueryErrorModel,
>
    decreases n,
{
    if n == 0 {
        Ok((None, Seq::empty()))
    } else {
        match compile_upto(cs, (n - 1) as nat) {
            Err(e) => Err(e),
            Ok((smart, ms)) => match cs[n - 1] {
                CriterionModel::NameSmart(s) => if smart is Some {
                    Err(QueryErrorModel::DuplicateSmartName)
                } else {
                    Ok((Some(s), ms))
                },
                CriterionModel::Simple { negate, simple_criterion } => match compile_simple(
                    negate,
                    simple_criterion,
                ) {
                    Ok(m) => Ok((smart, ms.push(m))),
                    Err(p) => Err(QueryErrorModel::InvalidRegex(p)),
                },
            },
        }
    }
}

/// Once a criterion is refused, the criteria after it do not matter.
proof fn lemma_error_sticks(cs: Seq<CriterionModel>, i: nat, n: nat)
    requires
        i <= n,
        compile_upto(cs, i) is Err,
    ensures
        compile_upto(cs, n) == compile_upto(cs, i),
    decreases n - i,
{
    if i < n {
        lemma_error_sticks(cs, i, (n - 1) as nat);
    }
}

/// The query that a preset and criteria compile to. Only the empty preset
/// and `default` are known; at most one smart name is allowed; every regex
/// must compile; matchers keep the order of their criteria.
pub open spec fn compile_query(preset: Seq<char>, cs: Seq<CriterionModel>) -> Result<
    QueryModel,
    QueryErrorModel,
> {
    if !(preset.len() == 0 || preset == seq!['d', 'e', 'f', 'a', 'u', 'l', 't']) {
        Err(QueryErrorModel::UnknownPreset(preset))
    } else {
        match compile_upto(cs, cs.len()) {
            Ok((smart, ms)) => Ok(QueryModel { smart_name: smart, matchers: ms }),
            Err(e) => Err(e),
        }
    }
}

/// The criteria of a command-line query, as text.
pub open spec fn criteria_of(q: cfg::Query) -> Seq<CriterionModel> {
    q.criteria@.map_values(|c: Criterion| c@)
}

/// Which smart name test a selection pass applies.
#[derive(Clone, Copy, Debug, PartialEq, Eq, Structural)]
pub enum Phase {
    /// The base name equals the smart name.
    Exact,
    /// The base name starts with the smart name.
    Prefix,
}

/// The smart name matcher of a pass: without a smart name, every document
/// passes the first pass and none the second.
pub open spec fn smart_matcher(smart: Option<Seq<char>>, phase: Phase) -> MatcherModel {
    match (smart, phase) {
        (Some(s), Phase::Exact) => MatcherModel::SmartNameExact(s),
        (Some(s), Phase::Prefix) => MatcherModel::SmartNamePrefix(s),
        (None, Phase::Exact) => MatcherModel::Always,
        (None, Phase::Prefix) => MatcherModel::Never,
    }
}

/// The matchers from `i` on, applied in order: the first verdict that is
/// not a match decides.
pub open spec fn chain_from(ms: Seq<MatcherModel>, d: DocView, i: int) -> Verdict
    decreases ms.len() - i,
{
    if i < 0 || i >= ms.len() {
        Verdict::Match
    } else {
        let v = verdict(ms[i], d);
        if v == Verdict::Match {
            chain_from(ms, d, i + 1)
        } else {
            v
        }
    }
}

/// The verdict of a query on a document in a pass: the smart name matcher
/// first, then every matcher in order.
pub open spec fn query_verdict(q: QueryModel, phase: Phase, d: DocView) -> Verdict {
    let v = verdict(smart_matcher(q.smart_name, phase), d);
    if v == Verdict::Match {
        chain_from(q.matchers, d, 0)
    } else {
        v
    }
}

impl Query {
    /// Compiles the query given on the command line. The configuration is
    /// not consulted yet.
    pub fn from_opt(_cfg: &Cfg, in_query: &cfg::Query) -> (r: Result<Query, QueryError>)
        ensures
            match r {
                Ok(q) => compile_query(in_query.preset@, criteria_of(*in_query)) == Ok::<
                    QueryModel,
                    QueryErrorModel,
                >(q@),
                Err(e) => compile_query(in_query.preset@, criteria_of(*in_query)) == Err::<
                    QueryModel,
                    QueryErrorModel,
                >(e@),
            },
    {
        let preset = in_query.preset.as_str();
        proof {
            reveal_strlit("default");
            assert("default"@ =~= seq!['d', 'e', 'f', 'a', 'u', 'l', 't']);
        }
        if !(preset.is_empty() || str_eq(preset, "default")) {
            return Err(QueryError::UnknownPreset(in_query.preset.clone()));
        }
        let ghost cs = criteria_of(*in_query);
        let criteria = &in_query.criteria;
        let mut smart_name: Option<String> = None;
        let mut matchers: Vec<Matcher> = Vec::new();
        let mut i: usize = 0;
        assert(matchers@.map_values(|m: Matcher| m@) =~= Seq::<MatcherModel>::empty());
        while i < criteria.len()
            invariant
                cs == criteria_of(*in_query),
                cs.len() == criteria@.len(),
                in_query.preset@.len() == 0 || in_query.preset@ == seq!['d', 'e', 'f', 'a', 'u', 'l', 't'],
                criteria == &in_query.criteria,
                i <= criteria@.len(),
                compile_upto(cs, i as nat) == Ok::<
                    (Option<Seq<char>>, Seq<MatcherModel>),
                    QueryErrorModel,
                >(
                    (
                        match smart_name {
                            Some(s) => Some(s@),
                            None => None,
                        },
                        matchers@.map_values(|m: Matcher| m@),
                    ),
                ),
            decreases criteria@.len() - i,
        {
            assert(cs[i as int] == criteria@[i as int]@);
            match &criteria[i] {
                Criterion::NameSmart(s) => {
                    if smart_name.is_some() {
                        proof {
                            lemma_error_sticks(cs, (i + 1) as nat, cs.len());
                        }
                        return Err(QueryError::DuplicateSmartName);
                    }
                    smart_name = Some(s.clone());
                },
                Criterion::Simple { negate, simple_criterion } => {
                    let m = match simple_criterion {
                        SimpleCriterion::NameRegex(p) => match Pattern::compile(p.as_str()) {
                            Ok(re) => Matcher::NameRegex(re),
                            Err(e) => {
                                proof {
                                    lemma_error_sticks(cs, (i + 1) as nat, cs.len());
                                }
                                return Err(QueryError::InvalidRegex(p.clone(), e));
                            },
                        },
                        SimpleCriterion::MetaEq(k, v) => Matcher::Meta {
                            key: k.clone(),
                            op: MetaOp::Eq(v.clone()),
                        },
                        SimpleCriterion::MetaRegex(k, p) => match Pattern::compile(p.as_str()) {
                            Ok(re) => Matcher::Meta { key: k.clone(), op: MetaOp::Regex(re) },
                            Err(e) => {
                                proof {
                                    lemma_error_sticks(cs, (i + 1) as nat, cs.len());
                                }
                                return Err(QueryError::InvalidRegex(p.clone(), e));
                            },
                        },
                    };
                    let ghost m0 = m@;
                    assert(compile_simple(false, simple_criterion@) == Ok::<MatcherModel, Seq<char>>(m0));
                    let m = if *negate {
                        Matcher::Negate(Box::new(m))
                    } else {
                        m
                    };
                    assert(m@ == negated_if(*negate, m0));
                    assert(compile_simple(*negate, simple_criterion@) == Ok::<
                        MatcherModel,
                        Seq<char>,
                    >(m@));
                    let ghost before = matchers@;
                    matchers.push(m);
                    assert(matchers@.map_values(|m: Matcher| m@) =~= before.map_values(
                        |m: Matcher| m@,
                    ).push(m@));
                },
            }
            i = i + 1;
        }
        assert(cs.len() == criteria@.len());
        Ok(Query { smart_name, matchers })
    }

    /// The smart name matcher of a pass.
    pub fn smart_name_matcher(&self, phase: Phase) -> (r: Matcher)
        ensures
            r@ == smart_matcher(self@.smart_name, phase),
    {
        match (&self.smart_name, phase) {
            (Some(s), Phase::Exact) => Matcher::SmartNameExact(s.clone()),
            (Some(s), Phase::Prefix) => Matcher::SmartNamePrefix(s.clone()),
            (None, Phase::Exact) => Matcher::Always,
            (None, Phase::Prefix) => Matcher::Never,
        }
    }

    /// Whether there is a smart name, and so a second pass.
    pub fn has_smart_name(&self) -> (r: bool)
        ensures
            r == self@.smart_name is Some,
    {
        self.smart_name.is_some()
    }

    /// Applies the query to a document in a pass: the smart name matcher,
    /// then each matcher in order, stopping at the first verdict that is not
    /// a match.
    pub fn judge(&self, phase: Phase, doc: &DocRead) -> (r: Verdict)
        ensures
            r == query_verdict(self@, phase, doc@),
    {
        let smart = self.smart_name_matcher(phase);
        let v = smart.judge(doc);
        if v != Verdict::Match {
            return v;
        }
        let ghost ms = self@.matchers;
        let mut i: usize = 0;
        while i < self.matchers.len()
            invariant
                verdict(smart_matcher(self@.smart_name, phase), doc@) == Verdict::Match,
                ms == self@.matchers,
                ms.len() == self.matchers@.len(),
                i <= ms.len(),
                chain_from(ms, doc@, 0) == chain_from(ms, doc@, i as int),
            decreases ms.len() - i,
        {
            let w = self.matchers[i].judge(doc);
            assert(ms[i as int] == self.matchers@[i as int]@);
            if w != Verdict::Match {
                return w;
            }
            i = i + 1;
        }
        Verdict::Match
    }
}

/// An item of a selection that is not a document: an error of the
/// enumeration, or a document whose metadata could not be read.
pub enum SelectFault<E> {
    Entry(E),
    Metadata(DocRead),
}

/// What a pass makes of an entry of the enumeration: an enumeration error
/// and a document whose metadata failed are passed on as errors, a matching
/// document as itself, anything else is dropped.
pub open spec fn outcome_of<E>(q: QueryModel, phase: Phase, e: Result<DocRead, E>) -> Option<
    Result<DocRead, SelectFault<E>>,
> {
    match e {
        Err(x) => Some(Err(SelectFault::Entry(x))),
        Ok(d) => match query_verdict(q, phase, d@) {
            Verdict::Match => Some(Ok(d)),
            Verdict::Fault => Some(Err(SelectFault::Metadata(d))),
            _ => None,
        },
    }
}

/// What a pass produces from the first `n` entries, in order.
pub open spec fn results_upto<E>(q: QueryModel, phase: Phase, es: Seq<Result<DocRead, E>>, n: int) -> Seq<
    Result<DocRead, SelectFault<E>>,
>
    decreases n,
{
    if n <= 0 {
        Seq::empty()
    } else {
        let prev = results_upto(q, phase, es, n - 1);
        match outcome_of(q, phase, es[n - 1]) {
            Some(x) => prev.push(x),
            None => prev,
        }
    }
}

/// Entry `e` cannot be decided in a pass until its metadata is read.
pub open spec fn pending<E>(q: QueryModel, phase: Phase, e: Result<DocRead, E>) -> bool {
    e matches Ok(d) && query_verdict(q, phase, d@) == Verdict::NeedsMetadata
}

/// None of the first `n` entries waits for its metadata in a pass.
pub open spec fn settled<E>(q: QueryModel, phase: Phase, es: Seq<Result<DocRead, E>>, n: int) -> bool {
    forall|i: int| 0 <= i < n ==> !pending(q, phase, #[trigger] es[i])
}

/// The result of a selection: the exact-name pass if it produced anything
/// (or if there is no smart name), otherwise the prefix pass. The two passes
/// are never mixed.
pub open spec fn select_all_spec<E>(q: QueryModel, es: Seq<Result<DocRead, E>>) -> Seq<
    Result<DocRead, SelectFault<E>>,
> {
    let first = results_upto(q, Phase::Exact, es, es.len() as int);
    if first.len() > 0 || q.smart_name is None {
        first
    } else {
        results_upto(q, Phase::Prefix, es, es.len() as int)
    }
}

/// No entry that the selection result depends on still waits for its
/// metadata.
pub open spec fn all_settled<E>(q: QueryModel, es: Seq<Result<DocRead, E>>) -> bool {
    &&& settled(q, Phase::Exact, es, es.len() as int)
    &&& (results_upto(q, Phase::Exact, es, es.len() as int).len() == 0 && q.smart_name is Some)
        ==> settled(q, Phase::Prefix, es, es.len() as int)
}

/// The selection result is entirely the exact pass's or entirely the
/// prefix pass's, and the prefix pass counts only when the exact pass found
/// nothing at all.
pub proof fn lemma_passes_never_mix<E>(q: QueryModel, es: Seq<Result<DocRead, E>>)
    ensures
        ({
            let first = results_upto(q, Phase::Exact, es, es.len() as int);
            let second = results_upto(q, Phase::Prefix, es, es.len() as int);
            ||| select_all_spec(q, es) == first && (first.len() > 0 || q.smart_name is None)
            ||| select_all_spec(q, es) == second && first.len() == 0
        }),
{
}

/// `b` is the entry `a`, with perhaps its metadata recorded since.
pub open spec fn same_but_meta<E>(a: Result<DocRead, E>, b: Result<DocRead, E>) -> bool {
    match (a, b) {
        (Err(x), Err(y)) => x == y,
        (Ok(d), Ok(d2)) => d2@.path == d@.path && d2@.stem == d@.stem && (d@.meta is Unfetched
            || d2@.meta == d@.meta),
        _ => false,
    }
}

/// A matcher that decided without the metadata decides the same once the
/// metadata has been read.
proof fn lemma_verdict_stable(m: MatcherModel, d: DocView, d2: DocView)
    requires
        d2.path == d.path,
        d2.stem == d.stem,
        d.meta is Unfetched,
        verdict(m, d) != Verdict::NeedsMetadata,
    ensures
        verdict(m, d2) == verdict(m, d),
    decreases m,
{
    if let MatcherModel::Negate(inner) = m {
        lemma_verdict_stable(*inner, d, d2);
    }
}

proof fn lemma_chain_stable(ms: Seq<MatcherModel>, d: DocView, d2: DocView, i: int)
    requires
        d2.path == d.path,
        d2.stem == d.stem,
        d.meta is Unfetched,
        chain_from(ms, d, i) != Verdict::NeedsMetadata,
    ensures
        chain_from(ms, d2, i) == chain_from(ms, d, i),
    decreases ms.len() - i,
{
    if 0 <= i < ms.len() {
        lemma_verdict_stable(ms[i], d, d2);
        if verdict(ms[i], d) == Verdict::Match {
            lemma_chain_stable(ms, d, d2, i + 1);
        }
    }
}

proof fn lemma_entry_stable<E>(q: QueryModel, phase: Phase, a: Result<DocRead, E>, b: Result<DocRead, E>)
    requires
        same_but_meta(a, b),
        !pending(q, phase, a),
    ensures
        !pending(q, phase, b),
        a is Ok ==> b is Ok && query_verdict(q, phase, b->Ok_0@) == query_verdict(q, phase, a->Ok_0@),
{
    if let (Ok(d), Ok(d2)) = (a, b) {
        if d@.meta is Unfetched {
            lemma_verdict_stable(smart_matcher(q.smart_name, phase), d@, d2@);
            if verdict(smart_matcher(q.smart_name, phase), d@) == Verdict::Match {
                lemma_chain_stable(q.matchers, d@, d2@, 0);
            }
        } else {
            assert(d2@ == d@);
        }
    }
}

/// Entries that only had metadata recorded leave the results of the
/// settled entries as they were, in count.
proof fn lemma_prefix_stable<E>(
    q: QueryModel,
    phase: Phase,
    es: Seq<Result<DocRead, E>>,
    es2: Seq<Result<DocRead, E>>,
    n: int,
)
    requires
        0 <= n <= es.len(),
        es2.len() == es.len(),
        forall|j: int| 0 <= j < n ==> same_but_meta(#[trigger] es[j], es2[j]),
        settled(q, phase, es, n),
    ensures
        settled(q, phase, es2, n),
        results_upto(q, phase, es2, n).len() == results_upto(q, phase, es, n).len(),
    decreases n,
{
    if n > 0 {
        lemma_prefix_stable(q, phase, es, es2, n - 1);
        assert(same_but_meta(es[n - 1], es2[n - 1]));
        lemma_entry_stable(q, phase, es[n - 1], es2[n - 1]);
    }
}

/// A selection over the entries of an enumeration, run pass by pass and
/// paused whenever a document's metadata has to be read.
pub struct Selection<E> {
    query: Query,
    entries: Vec<Result<DocRead, E>>,
    phase: Phase,
    cursor: usize,
    produced: usize,
    limit: usize,
    done: bool,
}

impl<E> Selection<E> {
    pub closed spec fn query_model(&self) -> QueryModel {
        self.query@
    }

    pub closed spec fn entries_model(&self) -> Seq<Result<DocRead, E>> {
        self.entries@
    }

    /// Every pass has run to its end, or the limit on results is reached.
    pub closed spec fn is_done(&self) -> bool {
        self.done
    }

    /// The most results the selection gathers.
    pub closed spec fn limit(&self) -> nat {
        self.limit as nat
    }

    pub closed spec fn wf(&self) -> bool {
        let q = self.query@;
        let es = self.entries@;
        &&& self.cursor <= es.len()
        &&& self.produced == results_upto(q, self.phase, es, self.cursor as int).len()
        &&& settled(q, self.phase, es, self.cursor as int)
        &&& self.phase == Phase::Prefix ==> {
            &&& q.smart_name is Some
            &&& settled(q, Phase::Exact, es, es.len() as int)
            &&& results_upto(q, Phase::Exact, es, es.len() as int).len() == 0
        }
        &&& self.produced <= self.limit
        &&& self.done ==> {
            &&& self.cursor == es.len() || self.produced == self.limit
            &&& self.cursor == es.len() ==> !(self.phase == Phase::Exact && self.produced == 0
                && q.smart_name is Some)
        }
    }

    /// Starts a selection of `entries`, in the order of the enumeration.
    pub fn new(query: Query, entries: Vec<Result<DocRead, E>>) -> (r: Selection<E>)
        ensures
            r.wf(),
            r.query_model() == query@,
            r.entries_model() == entries@,
            r.limit() == entries@.len(),
            !r.is_done(),
    {
        let limit = entries.len();
        Selection { query, entries, phase: Phase::Exact, cursor: 0, produced: 0, limit, done: false }
    }

    /// Starts a selection of `entries` that stops once it has `limit`
    /// results.
    pub fn with_limit(query: Query, entries: Vec<Result<DocRead, E>>, limit: usize) -> (r: Selection<E>)
        ensures
            r.wf(),
            r.query_model() == query@,
            r.entries_model() == entries@,
            r.limit() == limit,
            !r.is_done(),
    {
        Selection { query, entries, phase: Phase::Exact, cursor: 0, produced: 0, limit, done: false }
    }

    /// Whether every pass has run to its end.
    pub fn done(&self) -> (r: bool)
        ensures
            r == self.is_done(),
    {
        self.done
    }

    /// Runs the passes until a document's metadata is needed, and returns
    /// its index, or until they are over.
    pub fn advance(&mut self) -> (r: Option<usize>)
        requires
            old(self).wf(),
        ensures
            final(self).wf(),
            final(self).query_model() == old(self).query_model(),
            final(self).entries_model() == old(self).entries_model(),
            final(self).limit() == old(self).limit(),
            match r {
                Some(i) => {
                    &&& i < final(self).entries_model().len()
                    &&& final(self).entries_model()[i as int] matches Ok(d)
                    &&& d@.meta is Unfetched
                    &&& !final(self).is_done()
                },
                None => final(self).is_done(),
            },
    {
        if self.done {
            return None;
        }
        loop
            invariant
                self.wf(),
                !self.done,
                self.query@ == old(self).query@,
                self.entries@ == old(self).entries@,
                self.limit == old(self).limit,
            decreases (if self.phase == Phase::Exact { 1int } else { 0int }),
                self.entries@.len() - self.cursor,
        {
            let ghost q = self.query@;
            let ghost es = self.entries@;
            let n = self.entries.len();
            if self.cursor < n && self.produced < self.limit {
                let i = self.cursor;
                let produce = match &self.entries[i] {
                    Err(_) => true,
                    Ok(d) => {
                        let v = self.query.judge(self.phase, d);
                        if v == Verdict::NeedsMetadata {
                            proof {
                                if d@.meta is Fetched || d@.meta is Failed {
                                    lemma_needs_means_unfetched(q, self.phase, d@);
                                }
                            }
                            return Some(i);
                        }
                        v == Verdict::Match || v == Verdict::Fault
                    },
                };
                proof {
                    assert(produce <==> outcome_of(q, self.phase, es[i as int]) is Some);
                    assert(settled(q, self.phase, es, i + 1));
                }
                proof {
                    lemma_results_len(q, self.phase, es, i as int);
                }
                if produce {
                    self.produced = self.produced + 1;
                }
                self.cursor = i + 1;
            } else if self.cursor == n && self.phase == Phase::Exact && self.produced == 0
                && self.query.has_smart_name() {
                self.phase = Phase::Prefix;
                self.cursor = 0;
            } else {
                self.done = true;
                return None;
            }
        }
    }

    /// The index of an entry whose metadata is needed: its path.
    pub fn path_of(&self, i: usize) -> (r: Option<&str>)
        ensures
            match r {
                Some(p) => {
                    &&& i < self.entries_model().len()
                    &&& self.entries_model()[i as int] matches Ok(d)
                    &&& p@ == d@.path
                },
                None => i >= self.entries_model().len() || self.entries_model()[i as int] is Err,
            },
    {
        if i < self.entries.len() {
            match &self.entries[i] {
                Ok(d) => Some(d.path()),
                Err(_) => None,
            }
        } else {
            None
        }
    }

    /// Records the outcome of reading the metadata of entry `i`. Other
    /// entries, and a document whose metadata is already recorded, stay as
    /// they are.
    pub fn supply(&mut self, i: usize, meta: Result<MetaValue, MetaError>)
        requires
            old(self).wf(),
        ensures
            final(self).wf(),
            final(self).query_model() == old(self).query_model(),
            final(self).is_done() == old(self).is_done(),
            final(self).limit() == old(self).limit(),
            final(self).entries_model().len() == old(self).entries_model().len(),
            forall|j: int|
                0 <= j < old(self).entries_model().len() && j != i ==> final(self).entries_model()[j]
                    == old(self).entries_model()[j],
            i < old(self).entries_model().len() ==> match old(self).entries_model()[i as int] {
                Ok(d) => {
                    &&& final(self).entries_model()[i as int] matches Ok(d2)
                    &&& d2@.path == d@.path
                    &&& d2@.stem == d@.stem
                    &&& d2@.meta == recorded(d@.meta, meta)
                },
                Err(_) => final(self).entries_model()[i as int] == old(self).entries_model()[i as int],
            },
    {
        if i >= self.entries.len() {
            return;
        }
        let ghost es = self.entries@;
        let ghost q = self.query@;
        if let Ok(d) = &mut self.entries[i] {
            d.record_meta(meta);
        }
        proof {
            let es2 = self.entries@;
            assert forall|j: int| 0 <= j < es.len() implies same_but_meta(#[trigger] es[j], es2[j]) by {
                if j == i {
                    if let Ok(d) = es[j] {
                        assert(d@.meta is Unfetched || recorded(d@.meta, meta) == d@.meta);
                    }
                } else {
                    assert(es2[j] == es[j]);
                }
            }
            lemma_prefix_stable(q, self.phase, es, es2, self.cursor as int);
            if self.phase == Phase::Prefix {
                lemma_prefix_stable(q, Phase::Exact, es, es2, es.len() as int);
            }
        }
    }

    /// The documents selected, once the passes are over: the first of the
    /// results of the exact pass, or of the prefix pass when the exact pass
    /// found nothing, as many as the limit allows. When the limit did not
    /// cut them short, no entry they depend on waits for its metadata.
    pub fn finish(self) -> (r: Vec<Result<DocRead, SelectFault<E>>>)
        requires
            self.wf(),
            self.is_done(),
        ensures
            ({
                let full = select_all_spec(self.query_model(), self.entries_model());
                &&& r@.len() == if full.len() < self.limit() {
                    full.len()
                } else {
                    self.limit()
                }
                &&& r@ == full.take(r@.len() as int)
            }),
            r@.len() < self.limit() ==> all_settled(self.query_model(), self.entries_model()),
    {
        let ghost q = self.query@;
        let ghost es = self.entries@;
        let total = self.entries.len();
        let cursor = self.cursor;
        proof {
            let n = es.len() as int;
            let got = results_upto(q, self.phase, es, cursor as int);
            lemma_results_prefix(q, self.phase, es, cursor as int, n);
            lemma_results_prefix(q, Phase::Exact, es, cursor as int, n);
            assert(got.take(got.len() as int) =~= got);
            if self.produced == 0 {
                assert(got.len() == 0);
            }
            let full = select_all_spec(q, es);
            assert(full.take(got.len() as int) == got);
        }
        let Selection { query, entries, phase, .. } = self;
        let mut out: Vec<Result<DocRead, SelectFault<E>>> = Vec::new();
        let mut j: usize = 0;
        for e in it: entries.into_iter()
            invariant
                j == it.index(),
                it.seq() == es,
                total == es.len(),
                cursor <= total,
                query@ == q,
                out@ == results_upto(q, phase, es, if j < cursor {
                    j as int
                } else {
                    cursor as int
                }),
        {
            if j < cursor {
                match e {
                    Err(x) => {
                        out.push(Err(SelectFault::Entry(x)));
                    },
                    Ok(d) => {
                        let v = query.judge(phase, &d);
                        if v == Verdict::Match {
                            out.push(Ok(d));
                        } else if v == Verdict::Fault {
                            out.push(Err(SelectFault::Metadata(d)));
                        }
                    },
                }
            }
            j = j + 1;
        }
        out
    }
}

/// The results of a pass over fewer entries begin the results over more.
proof fn lemma_results_prefix<E>(q: QueryModel, phase: Phase, es: Seq<Result<DocRead, E>>, n: int, m: int)
    requires
        0 <= n <= m,
    ensures
        results_upto(q, phase, es, n).len() <= results_upto(q, phase, es, m).len(),
        results_upto(q, phase, es, m).take(results_upto(q, phase, es, n).len() as int)
            == results_upto(q, phase, es, n),
    decreases m - n,
{
    let rn = results_upto(q, phase, es, n);
    if n < m {
        lemma_results_prefix(q, phase, es, n, m - 1);
        let prev = results_upto(q, phase, es, m - 1);
        assert(prev.take(rn.len() as int) == rn);
        match outcome_of(q, phase, es[m - 1]) {
            Some(x) => {
                assert(prev.push(x).take(rn.len() as int) =~= prev.take(rn.len() as int));
            },
            None => {},
        }
    } else {
        assert(rn.take(rn.len() as int) =~= rn);
    }
}

proof fn lemma_results_len<E>(q: QueryModel, phase: Phase, es: Seq<Result<DocRead, E>>, n: int)
    ensures
        results_upto(q, phase, es, n).len() <= if n < 0 {
            0
        } else {
            n
        },
    decreases n,
{
    if n > 0 {
        lemma_results_len(q, phase, es, n - 1);
    }
}

/// A document that waits for its metadata has none recorded yet.
proof fn lemma_needs_means_unfetched(q: QueryModel, phase: Phase, d: DocView)
    requires
        !(d.meta is Unfetched),
    ensures
        query_verdict(q, phase, d) != Verdict::NeedsMetadata,
{
    lemma_no_needs(smart_matcher(q.smart_name, phase), d);
    lemma_chain_no_needs(q.matchers, d, 0);
}

proof fn lemma_no_needs(m: MatcherModel, d: DocView)
    requires
        !(d.meta is Unfetched),
    ensures
        verdict(m, d) != Verdict::NeedsMetadata,
    decreases m,
{
    if let MatcherModel::Negate(inner) = m {
        lemma_no_needs(*inner, d);
    }
}

proof fn lemma_chain_no_needs(ms: Seq<MatcherModel>, d: DocView, i: int)
    requires
        !(d.meta is Unfetched),
    ensures
        chain_from(ms, d, i) != Verdict::NeedsMetadata,
    decreases ms.len() - i,
{
    if 0 <= i < ms.len() {
        lemma_no_needs(ms[i], d);
        lemma_chain_no_needs(ms, d, i + 1);
    }
}

/// Why a selection did not come down to one document.
pub enum SelectOneError<F> {
    /// Nothing matched.
    Empty,
    /// More than one document matched: the first ones, and whether there
    /// were more than those listed.
    Ambiguous { candidates: Vec<DocRead>, truncated: bool },
    /// An error came up among the first results.
    Misc(F),
}

/// How many candidates an ambiguous selection lists at most.
pub const CANDIDATES_SHOWN: usize = 10;

/// How many results selecting one document looks at.
pub open spec fn looked_at(n: nat) -> int {
    if n < 11 {
        n as int
    } else {
        11
    }
}

/// `j` is the first error among the first `k` items.
pub open spec fn first_error_at<F>(items: Seq<Result<DocRead, F>>, k: int, j: int) -> bool {
    &&& 0 <= j < k
    &&& items[j] is Err
    &&& forall|i: int| 0 <= i < j ==> #[trigger] items[i] is Ok
}

/// What selecting one document out of `items` gives. Only the first eleven
/// items are looked at: an error among them is reported; otherwise no item
/// is `Empty`, one item is that document, and more are `Ambiguous` with the
/// first ten at most, `truncated` when there are more than ten.
pub open spec fn select_one_spec<F>(items: Seq<Result<DocRead, F>>, r: Result<DocRead, SelectOneError<F>>) -> bool {
    let n = items.len();
    let k = looked_at(n);
    if exists|j: int| 0 <= j < k && #[trigger] items[j] is Err {
        exists|j: int|
            first_error_at(items, k, j) && r == Err::<DocRead, SelectOneError<F>>(
                SelectOneError::Misc(items[j]->Err_0),
            )
    } else if n == 0 {
        r matches Err(SelectOneError::Empty)
    } else if n == 1 {
        r == Ok::<DocRead, SelectOneError<F>>(items[0]->Ok_0)
    } else {
        &&& r matches Err(SelectOneError::Ambiguous { candidates, truncated })
        &&& truncated == (n > 10)
        &&& candidates@.len() == if n > 10 {
            10
        } else {
            n as int
        }
        &&& forall|i: int|
            0 <= i < candidates@.len() ==> items[i] == Ok::<DocRead, F>(#[trigger] candidates@[i])
    }
}

/// Reduces the results of a selection to the one document they should
/// hold.
pub fn select_one<F>(items: Vec<Result<DocRead, F>>) -> (r: Result<DocRead, SelectOneError<F>>)
    ensures
        select_one_spec(items@, r),
{
    let ghost all = items@;
    let mut items = items;
    let n = items.len();
    let k: usize = if n < CANDIDATES_SHOWN + 1 {
        n
    } else {
        CANDIDATES_SHOWN + 1
    };
    let mut j: usize = 0;
    while j < k
        invariant
            items@ == all,
            k <= all.len(),
            j <= k,
            forall|i: int| 0 <= i < j ==> #[trigger] all[i] is Ok,
        ensures
            j <= k,
            forall|i: int| 0 <= i < j ==> #[trigger] all[i] is Ok,
            j < k ==> all[j as int] is Err,
        decreases k - j,
    {
        if items[j].is_err() {
            break ;
        }
        j = j + 1;
    }
    if j < k {
        proof {
            assert(first_error_at(all, k as int, j as int));
        }
        let e = items.swap_remove(j);
        match e {
            Err(f) => {
                let r = Err(SelectOneError::Misc(f));
                proof {
                    assert(e == all[j as int]);
                    assert(all[j as int] is Err);
                    assert(looked_at(all.len()) == k);
                    assert(exists|jj: int| 0 <= jj < k && #[trigger] all[jj] is Err);
                    assert(first_error_at(all, k as int, j as int) && r == Err::<DocRead, SelectOneError<F>>(
                        SelectOneError::Misc(all[j as int]->Err_0),
                    ));
                    assert(select_one_spec(all, r));
                }
                return r;
            },
            Ok(_) => {
                proof {
                    assert(false);
                }
                return Err(SelectOneError::Empty);
            },
        }
    }
    proof {
        assert forall|i: int| 0 <= i < k implies #[trigger] all[i] is Ok by {}
    }
    if n == 0 {
        return Err(SelectOneError::Empty);
    }
    if n == 1 {
        match items.pop() {
            Some(Ok(d)) => {
                return Ok(d);
            },
            _ => {
                proof {
                    assert(false);
                }
                return Err(SelectOneError::Empty);
            },
        }
    }
    let truncated = n > CANDIDATES_SHOWN;
    let shown: usize = if truncated {
        CANDIDATES_SHOWN
    } else {
        n
    };
    items.truncate(shown);
    let ghost kept = items@;
    assert(kept =~= all.take(shown as int));
    let mut candidates: Vec<DocRead> = Vec::new();
    for e in it: items.into_iter()
        invariant
            it.seq() == kept,
            kept =~= all.take(shown as int),
            shown <= k,
            k <= all.len(),
            kept.len() == shown,
            forall|i: int| 0 <= i < k ==> #[trigger] all[i] is Ok,
            candidates@.len() == it.index(),
            forall|i: int|
                0 <= i < candidates@.len() ==> all[i] == Ok::<DocRead, F>(#[trigger] candidates@[i]),
    {
        let ghost idx = candidates@.len() as int;
        proof {
            assert(0 <= idx < shown);
            assert(kept[idx] == all[idx]);
            assert(all[idx] is Ok);
        }
        match e {
            Ok(d) => {
                candidates.push(d);
                assert(all[idx] == Ok::<DocRead, F>(candidates@[idx]));
            },
            Err(_) => {
                proof {
                    assert(false);
                }
            },
        }
    }
    Err(SelectOneError::Ambiguous { candidates, truncated })
}

} // verus!
