//! Selection of seed nodes: by identifier, name, package URL or CPE, or by
//! a conjunction of `key=value` and `key~value` constraints.
use crate::model::{GraphNode, NodeKind};
use crate::service::AnalysisError;
use crate::walk::{first_index, lemma_first_index};
use vstd::prelude::*;

verus! {

/// `pat` occurs in `s` as a contiguous run of characters.
pub open spec fn has_substring(s: Seq<char>, pat: Seq<char>) -> bool {
    exists|i: int| 0 <= i && i + pat.len() <= s.len() && #[trigger] s.subrange(i, i + pat.len()) == pat
}

/// Relies on `str::contains` with a `&str` pattern: whether `pat` occurs in `s`.
#[verifier::external_body]
fn str_contains(s: &str, pat: &str) -> (r: bool)
    ensures
        r == has_substring(s@, pat@),
{
    s.contains(pat)
}

/// Relies on `str::chars`, collected: the characters of `s`.
#[verifier::external_body]
fn chars_of(s: &str) -> (r: Vec<char>)
    ensures
        r@ == s@,
{
    s.chars().collect()
}

/// Relies on `String: FromIterator<&char>`: the string of the characters `v`.
#[verifier::external_body]
fn string_of(v: &[char]) -> (r: String)
    ensures
        r@ == v@,
{
    v.iter().collect()
}

/// How a component is named.
pub enum ComponentReference {
    /// The node identifier, exactly.
    Id(String),
    /// The node name, exactly.
    Name(String),
    /// A package node with a package URL that contains this text.
    Purl(String),
    /// A package node with a CPE that contains this text.
    Cpe(String),
}

/// How a constraint compares a context value.
#[derive(Clone, Copy, Debug, PartialEq, Eq, Structural)]
pub enum Operator {
    /// `key=value`: the value is exactly this text.
    Equals,
    /// `key~value`: the value contains this text.
    Contains,
}

/// One `key=value` or `key~value` constraint.
pub struct Constraint {
    pub key: String,
    pub operator: Operator,
    pub value: String,
}

/// What a retrieve call looks for.
pub enum GraphQuery {
    Component(ComponentReference),
    /// Every constraint holds.
    Query(Vec<Constraint>),
}

/// Some string of `v` contains `pat`.
pub open spec fn any_contains(v: Seq<String>, pat: Seq<char>) -> bool {
    exists|i: int| 0 <= i < v.len() && has_substring(#[trigger] v[i]@, pat)
}

/// The value of `key` in the context of node `n`: its SBOM, identifier and
/// name; a package's version; an external node's document reference and
/// node identifier.
pub open spec fn context_value(n: GraphNode, key: Seq<char>) -> Option<Seq<char>> {
    if key == "sbom_id"@ {
        Some(n.sbom_id@)
    } else if key == "node_id"@ {
        Some(n.node_id@)
    } else if key == "name"@ {
        Some(n.name@)
    } else {
        match n.kind {
            NodeKind::Package { version, .. } => if key == "version"@ {
                Some(version@)
            } else {
                None
            },
            NodeKind::External { external_document_reference, external_node_id } => if key
                == "external_document_reference"@ {
                Some(external_document_reference@)
            } else if key == "external_node_id"@ {
                Some(external_node_id@)
            } else {
                None
            },
            NodeKind::Unknown => None,
        }
    }
}

/// The context of `n` has the constraint's key, with a value that meets it.
pub open spec fn meets(n: GraphNode, c: Constraint) -> bool {
    match context_value(n, c.key@) {
        None => false,
        Some(v) => match c.operator {
            Operator::Equals => v == c.value@,
            Operator::Contains => has_substring(v, c.value@),
        },
    }
}

/// Node `n` is selected by query `q`.
pub open spec fn selects(q: GraphQuery, n: GraphNode) -> bool {
    match q {
        GraphQuery::Component(ComponentReference::Id(id)) => n.node_id@ == id@,
        GraphQuery::Component(ComponentReference::Name(name)) => n.name@ == name@,
        GraphQuery::Component(ComponentReference::Purl(p)) => match n.kind {
            NodeKind::Package { purl, .. } => any_contains(purl@, p@),
            _ => false,
        },
        GraphQuery::Component(ComponentReference::Cpe(p)) => match n.kind {
            NodeKind::Package { cpe, .. } => any_contains(cpe@, p@),
            _ => false,
        },
        GraphQuery::Query(cs) => forall|i: int| 0 <= i < cs@.len() ==> meets(n, #[trigger] cs@[i]),
    }
}

/// Whether some string of `v` contains `pat`.
fn contains_in_any(v: &Vec<String>, pat: &String) -> (r: bool)
    ensures
        r == any_contains(v@, pat@),
{
    let mut i: usize = 0;
    while i < v.len()
        invariant
            i <= v@.len(),
            forall|j: int| 0 <= j < i ==> !has_substring(#[trigger] v@[j]@, pat@),
        decreases v@.len() - i,
    {
        if str_contains(v[i].as_str(), pat.as_str()) {
            return true;
        }
        i = i + 1;
    }
    false
}

/// The value of `key` in the context of node `n`.
pub fn context_lookup<'a>(n: &'a GraphNode, key: &String) -> (r: Option<&'a String>)
    ensures
        r matches Some(v) ==> context_value(*n, key@) == Some(v@),
        r is None ==> context_value(*n, key@) is None,
{
    proof {
        reveal_strlit("sbom_id");
        reveal_strlit("node_id");
        reveal_strlit("name");
        reveal_strlit("version");
        reveal_strlit("external_document_reference");
        reveal_strlit("external_node_id");
    }
    let k = key.as_str();
    if str_eq(k, "sbom_id") {
        Some(&n.sbom_id)
    } else if str_eq(k, "node_id") {
        Some(&n.node_id)
    } else if str_eq(k, "name") {
        Some(&n.name)
    } else {
        match &n.kind {
            NodeKind::Package { version, .. } => if str_eq(k, "version") {
                Some(version)
            } else {
                None
            },
            NodeKind::External { external_document_reference, external_node_id } => if str_eq(
                k,
                "external_document_reference",
            ) {
                Some(external_document_reference)
            } else if str_eq(k, "external_node_id") {
                Some(external_node_id)
            } else {
                None
            },
            NodeKind::Unknown => None,
        }
    }
}

/// Whether two strings hold the same characters.
pub fn str_eq(a: &str, b: &str) -> (r: bool)
    ensures
        r == (a@ == b@),
{
    let x = chars_of(a);
    let y = chars_of(b);
    if x.len() != y.len() {
        return false;
    }
    let mut i: usize = 0;
    while i < x.len()
        invariant
            x@ == a@,
            y@ == b@,
            x@.len() == y@.len(),
            i <= x@.len(),
            forall|j: int| 0 <= j < i ==> x@[j] == y@[j],
        decreases x@.len() - i,
    {
        if x[i] != y[i] {
            return false;
        }
        i = i + 1;
    }
    proof {
        assert(x@ =~= y@);
    }
    true
}

/// Whether node `n` meets constraint `c`.
pub fn meets_constraint(n: &GraphNode, c: &Constraint) -> (r: bool)
    ensures
        r == meets(*n, *c),
{
    match context_lookup(n, &c.key) {
        None => false,
        Some(v) => match c.operator {
            Operator::Equals => *v == c.value,
            Operator::Contains => str_contains(v.as_str(), c.value.as_str()),
        },
    }
}

/// Whether node `n` meets every constraint of `cs`.
pub fn meets_all(n: &GraphNode, cs: &Vec<Constraint>) -> (r: bool)
    ensures
        r == forall|i: int| 0 <= i < cs@.len() ==> meets(*n, #[trigger] cs@[i]),
{
    let mut i: usize = 0;
    while i < cs.len()
        invariant
            i <= cs@.len(),
            forall|j: int| 0 <= j < i ==> meets(*n, #[trigger] cs@[j]),
        decreases cs@.len() - i,
    {
        if !meets_constraint(n, &cs[i]) {
            proof {
                assert(!meets(*n, cs@[i as int]));
            }
            return false;
        }
        i = i + 1;
    }
    true
}

/// Whether query `q` selects node `n`.
pub fn filter(q: &GraphQuery, n: &GraphNode) -> (r: bool)
    ensures
        r == selects(*q, *n),
{
    match q {
        GraphQuery::Component(ComponentReference::Id(id)) => n.node_id == *id,
        GraphQuery::Component(ComponentReference::Name(name)) => n.name == *name,
        GraphQuery::Component(ComponentReference::Purl(p)) => match &n.kind {
            NodeKind::Package { purl, .. } => contains_in_any(purl, p),
            _ => false,
        },
        GraphQuery::Component(ComponentReference::Cpe(p)) => match &n.kind {
            NodeKind::Package { cpe, .. } => contains_in_any(cpe, p),
            _ => false,
        },
        GraphQuery::Query(cs) => meets_all(n, cs),
    }
}

/// The pieces of `s` between the `&` separators, in order; `s` without a
/// separator is one piece.
pub open spec fn split_amp(s: Seq<char>) -> Seq<Seq<char>>
    decreases s.len(),
{
    if s.len() == 0 {
        seq![Seq::empty()]
    } else {
        let prev = split_amp(s.drop_last());
        if s.last() == '&' {
            prev.push(Seq::empty())
        } else {
            prev.update(prev.len() - 1, prev.last().push(s.last()))
        }
    }
}

/// The character is an operator: `=` or `~`.
pub open spec fn is_operator() -> spec_fn(char) -> bool {
    |c: char| c == '=' || c == '~'
}

/// A constraint as characters: key, operator and value.
pub struct ConstraintModel {
    pub key: Seq<char>,
    pub operator: Operator,
    pub value: Seq<char>,
}

/// The constraint a piece states: the key before its first operator, the
/// value after it; `None` for a piece without operator.
pub open spec fn constraint_of(p: Seq<char>) -> Option<ConstraintModel> {
    match first_index(p, is_operator()) {
        None => None,
        Some(k) => Some(
            ConstraintModel {
                key: p.subrange(0, k),
                operator: if p[k] == '=' {
                    Operator::Equals
                } else {
                    Operator::Contains
                },
                value: p.subrange(k + 1, p.len() as int),
            },
        ),
    }
}

/// The constraints of a query text, when each of its pieces states one.
pub open spec fn parsed(q: Seq<char>) -> Option<Seq<ConstraintModel>> {
    let pieces = split_amp(q);
    if forall|i: int| 0 <= i < pieces.len() ==> constraint_of(#[trigger] pieces[i]) is Some {
        Some(pieces.map_values(|p: Seq<char>| constraint_of(p).unwrap()))
    } else {
        None
    }
}

/// The constraint as characters.
pub open spec fn constraint_model(c: Constraint) -> ConstraintModel {
    ConstraintModel { key: c.key@, operator: c.operator, value: c.value@ }
}

/// The pieces of `s` between `&` separators.
fn split_pieces(s: &Vec<char>) -> (r: Vec<Vec<char>>)
    ensures
        r@.map_values(|v: Vec<char>| v@) == split_amp(s@),
{
    let mut done: Vec<Vec<char>> = Vec::new();
    let mut cur: Vec<char> = Vec::new();
    let mut i: usize = 0;
    proof {
        assert(s@.subrange(0, 0) =~= Seq::<char>::empty());
        assert(done@.map_values(|v: Vec<char>| v@).push(cur@) =~= seq![Seq::<char>::empty()]);
    }
    while i < s.len()
        invariant
            i <= s@.len(),
            done@.map_values(|v: Vec<char>| v@).push(cur@) == split_amp(s@.subrange(0, i as int)),
        decreases s@.len() - i,
    {
        let c = s[i];
        let ghost prev = split_amp(s@.subrange(0, i as int));
        proof {
            assert(s@.subrange(0, i + 1).drop_last() =~= s@.subrange(0, i as int));
        }
        if c == '&' {
            let mut piece: Vec<char> = Vec::new();
            std::mem::swap(&mut piece, &mut cur);
            done.push(piece);
            proof {
                assert(done@.map_values(|v: Vec<char>| v@).push(cur@) =~= prev.push(Seq::empty()));
            }
        } else {
            cur.push(c);
            proof {
                assert(done@.map_values(|v: Vec<char>| v@).push(cur@) =~= prev.update(prev.len() - 1, prev.last().push(c)));
            }
        }
        i = i + 1;
    }
    done.push(cur);
    proof {
        assert(s@.subrange(0, s@.len() as int) =~= s@);
    }
    done
}

/// The constraint a piece states, if any.
fn parse_piece(p: &Vec<char>) -> (r: Option<Constraint>)
    ensures
        match constraint_of(p@) {
            None => r is None,
            Some(m) => r matches Some(c) && constraint_model(c) == m,
        },
{
    let ghost op = is_operator();
    let mut k: usize = 0;
    while k < p.len()
        invariant
            k <= p@.len(),
            op == is_operator(),
            forall|j: int| 0 <= j < k ==> !op(#[trigger] p@[j]),
        decreases p@.len() - k,
    {
        if p[k] == '=' || p[k] == '~' {
            proof {
                lemma_first_index(p@, op, k as int);
            }
            let mut key: Vec<char> = Vec::new();
            let mut j: usize = 0;
            while j < k
                invariant
                    j <= k,
                    k < p@.len(),
                    key@ == p@.subrange(0, j as int),
                decreases k - j,
            {
                key.push(p[j]);
                j = j + 1;
                proof {
                    assert(key@ =~= p@.subrange(0, j as int));
                }
            }
            let mut value: Vec<char> = Vec::new();
            let mut m: usize = k + 1;
            while m < p.len()
                invariant
                    k + 1 <= m <= p@.len(),
                    value@ == p@.subrange(k + 1, m as int),
                decreases p@.len() - m,
            {
                value.push(p[m]);
                m = m + 1;
                proof {
                    assert(value@ =~= p@.subrange(k + 1, m as int));
                }
            }
            let operator = if p[k] == '=' {
                Operator::Equals
            } else {
                Operator::Contains
            };
            return Some(Constraint { key: string_of(key.as_slice()), operator, value: string_of(value.as_slice()) });
        }
        k = k + 1;
    }
    None
}

/// Parses a query text: constraints `key=value` (the value is exactly the
/// text) or `key~value` (the value contains the text) joined by `&`. A piece
/// without `=` or `~` makes the whole query invalid.
pub fn parse_query(q: &String) -> (r: Result<Vec<Constraint>, AnalysisError>)
    ensures
        match parsed(q@) {
            None => r matches Err(e) && e is InvalidReference,
            Some(ms) => r matches Ok(cs) && cs@.map_values(|c: Constraint| constraint_model(c)) == ms,
        },
{
    let chars = chars_of(q.as_str());
    let pieces = split_pieces(&chars);
    let ghost ps = split_amp(q@);
    proof {
        assert(pieces@.len() == ps.len());
        assert forall|i: int| 0 <= i < ps.len() implies #[trigger] ps[i] == pieces@[i]@ by {
            assert(pieces@.map_values(|v: Vec<char>| v@)[i] == pieces@[i]@);
        }
    }
    let mut out: Vec<Constraint> = Vec::new();
    let mut i: usize = 0;
    while i < pieces.len()
        invariant
            i <= pieces@.len(),
            ps == split_amp(q@),
            pieces@.len() == ps.len(),
            forall|j: int| 0 <= j < ps.len() ==> #[trigger] ps[j] == pieces@[j]@,
            out@.len() == i,
            forall|j: int| 0 <= j < i ==> constraint_of(#[trigger] ps[j]) is Some,
            forall|j: int| 0 <= j < i ==> constraint_model(#[trigger] out@[j]) == constraint_of(ps[j]).unwrap(),
        decreases pieces@.len() - i,
    {
        match parse_piece(&pieces[i]) {
            None => {
                proof {
                    assert(constraint_of(ps[i as int]) is None);
                }
                return Err(AnalysisError::InvalidReference(q.clone()));
            },
            Some(c) => {
                out.push(c);
            },
        }
        i = i + 1;
    }
    proof {
        assert(out@.map_values(|c: Constraint| constraint_model(c)) =~= ps.map_values(|p: Seq<char>| constraint_of(p).unwrap()));
    }
    Ok(out)
}

} // verus!
