use vstd::prelude::*;
use vstd::string::StringExecFns;
use vstd::utf8::{decode_utf8, valid_utf8};

use sxd_xpath::{Context, Factory, Value};

use crate::role::{parse_role_spec, role_round_trip, Role, RoleError, RoleErrorKind};

verus! {

/// The bytes that standard base64 decoding gives for a text, if it is valid.
pub uninterp spec fn base64_decoded(text: Seq<char>) -> Option<Seq<u8>>;

/// Whether a text is a well-formed XML document.
pub uninterp spec fn xml_parses(text: Seq<char>) -> bool;

/// What the role query (`ROLE_QUERY`, with `ASSERTION_PREFIX` bound to
/// `ASSERTION_NAMESPACE`) selects from a well-formed document: `None` when
/// its evaluation fails, `Some(None)` when the result is not a node set,
/// otherwise the text of each selected element in document order.
pub uninterp spec fn role_query_select(doc: Seq<char>) -> Option<Option<Seq<Seq<char>>>>;

/// Relies on base64::decode (standard alphabet): `None` exactly when the
/// text is not valid base64.
#[verifier::external_body]
fn decode_base64(s: &str) -> (r: Option<Vec<u8>>)
    ensures
        match r {
            Some(v) => base64_decoded(s@) == Some(v@),
            None => base64_decoded(s@) is None,
        },
{
    base64::decode(s).ok()
}

/// Relies on String::from_utf8: succeeds exactly on valid UTF-8, and then
/// holds the decoded characters.
#[verifier::external_body]
fn utf8_text(bytes: Vec<u8>) -> (r: Option<String>)
    ensures
        r is Some <==> valid_utf8(bytes@),
        r is Some ==> r->Some_0@ == decode_utf8(bytes@),
{
    String::from_utf8(bytes).ok()
}

/// The outcome of evaluating an XPath expression on a document text.
pub enum Selection {
    /// The text is not well-formed XML.
    Malformed,
    /// The expression does not compile, or its evaluation fails.
    Failed,
    /// The result is a boolean, a number or a string.
    NotNodes,
    /// The text of each selected node, in document order.
    Nodes(Vec<String>),
}

/// Relies on `sxd_document::parser::parse` (which fails exactly on text that
/// is not well-formed XML), `sxd_xpath::Factory::build`, `Context::set_namespace`,
/// `XPath::evaluate` from the document root and `Node::string_value`. Only the
/// role query is admitted: it binds its one prefix and selects elements
/// alone, which `Nodeset::document_order` ranks distinctly, so the result
/// depends on the document alone and the evaluation does not panic.
#[verifier::external_body]
fn select(doc: &str, expr: &str, prefix: &str, uri: &str) -> (r: Selection)
    requires
        expr@ == ROLE_QUERY@,
        prefix@ == ASSERTION_PREFIX@,
        uri@ == ASSERTION_NAMESPACE@,
    ensures
        (r is Malformed) <==> !xml_parses(doc@),
        match r {
            Selection::Malformed => true,
            Selection::Failed => role_query_select(doc@) is None,
            Selection::NotNodes => role_query_select(doc@) == Some(
                None::<Seq<Seq<char>>>,
            ),
            Selection::Nodes(v) => role_query_select(doc@) == Some(
                Some(texts(v@)),
            ),
        },
{
    let package = match sxd_document::parser::parse(doc) { Ok(p) => p, Err(_) => return Selection::Malformed };
    let xpath = match Factory::new().build(expr) { Ok(Some(x)) => x, _ => return Selection::Failed };
    let mut context = Context::new();
    context.set_namespace(prefix, uri);
    match xpath.evaluate(&context, package.as_document().root()) {
        Ok(Value::Nodeset(n)) => Selection::Nodes(n.document_order().iter().map(|x| x.string_value()).collect()),
        Ok(Value::Boolean(_)) => Selection::NotNodes,
        Ok(Value::Number(_)) => Selection::NotNodes,
        Ok(Value::String(_)) => Selection::NotNodes,
        Err(_) => Selection::Failed,
    }
}

/// The query that selects the role attribute values of an assertion.
pub const ROLE_QUERY: &'static str =
    "//saml2:Attribute[@Name='https://aws.amazon.com/SAML/Attributes/Role']/saml2:AttributeValue";

/// The prefix that the query uses for the assertion namespace.
pub const ASSERTION_PREFIX: &'static str = "saml2";

/// The assertion namespace.
pub const ASSERTION_NAMESPACE: &'static str = "urn:oasis:names:tc:SAML:2.0:assertion";

/// Why an assertion could not be read.
#[derive(Debug)]
pub enum SamlError {
    /// Not base64, or not UTF-8 once decoded.
    Encoding,
    /// Not a well-formed XML document.
    Document,
    /// The role query could not be compiled or evaluated.
    Query,
    /// A role attribute value is not a role identifier.
    Role(RoleError),
}

impl SamlError {
    /// The error as text.
    pub fn message(&self) -> (r: String)
        ensures
            match self {
                SamlError::Role(e) => r@ == (match e.kind {
                    RoleErrorKind::NotEnoughElements => "Not enough elements in "@,
                    RoleErrorKind::TooManyElements => "Too many elements in "@,
                    RoleErrorKind::EmptyComponent => "Empty element in "@,
                }) + e.text@,
                SamlError::Encoding => r@ == "invalid assertion encoding"@,
                SamlError::Document => r@ == "malformed assertion document"@,
                SamlError::Query => r@ == "role query failed"@,
            },
    {
        match self {
            SamlError::Role(e) => e.message(),
            SamlError::Encoding => String::from_str("invalid assertion encoding"),
            SamlError::Document => String::from_str("malformed assertion document"),
            SamlError::Query => String::from_str("role query failed"),
        }
    }
}

/// An identity assertion: its encoded form, kept verbatim, and the set of
/// roles it grants, each once, in order of first occurrence.
#[derive(Debug)]
pub struct Response {
    pub raw: String,
    pub roles: Vec<Role>,
}

/// Every text of `values` is a role identifier.
pub open spec fn all_roles_valid(values: Seq<Seq<char>>) -> bool {
    forall|i: int| 0 <= i < values.len() ==> parse_role_spec(#[trigger] values[i]) is Ok
}

/// `i` is the first text of `values` that is not a role identifier.
pub open spec fn first_invalid_role(values: Seq<Seq<char>>, i: int) -> bool {
    &&& 0 <= i < values.len()
    &&& parse_role_spec(values[i]) is Err
    &&& forall|j: int| 0 <= j < i ==> parse_role_spec(#[trigger] values[j]) is Ok
}

/// The identifier that a valid role text parses to.
pub open spec fn parsed_role(v: Seq<char>) -> (Seq<char>, Seq<char>) {
    parse_role_spec(v)->Ok_0
}

/// `roles` are the identifiers that `values` parse to, each once.
pub open spec fn roles_of(values: Seq<Seq<char>>, roles: Seq<Role>) -> bool {
    &&& forall|i: int|
        0 <= i < values.len() ==> exists|j: int|
            0 <= j < roles.len() && #[trigger] roles[j]@ == parsed_role(#[trigger] values[i])
    &&& forall|j: int|
        0 <= j < roles.len() ==> exists|i: int|
            0 <= i < values.len() && #[trigger] roles[j]@ == parsed_role(#[trigger] values[i])
    &&& forall|j: int, k: int|
        0 <= j < roles.len() && 0 <= k < roles.len() && j != k ==> #[trigger] roles[j]@
            != #[trigger] roles[k]@
}

/// No text occurs twice in `values`.
pub open spec fn distinct_texts(values: Seq<Seq<char>>) -> bool {
    forall|i: int, j: int|
        0 <= i < values.len() && 0 <= j < values.len() && i != j ==> #[trigger] values[i]
            != #[trigger] values[j]
}

fn contains_role(roles: &Vec<Role>, role: &Role) -> (r: bool)
    ensures
        r == exists|j: int| 0 <= j < roles@.len() && #[trigger] roles@[j]@ == role@,
{
    let mut j: usize = 0;
    while j < roles.len()
        invariant
            j <= roles@.len(),
            forall|k: int| 0 <= k < j ==> #[trigger] roles@[k]@ != role@,
        decreases roles@.len() - j,
    {
        if roles[j].eq(role) {
            return true;
        }
        j = j + 1;
    }
    false
}

/// The document text that an encoded assertion carries: base64, then UTF-8.
pub open spec fn assertion_text(s: Seq<char>) -> Option<Seq<char>> {
    match base64_decoded(s) {
        Some(b) => if valid_utf8(b) {
            Some(decode_utf8(b))
        } else {
            None
        },
        None => None,
    }
}

/// The role attribute values of an assertion document, in document order;
/// `None` when the query cannot be evaluated.
pub open spec fn role_values(doc: Seq<char>) -> Option<Seq<Seq<char>>> {
    match role_query_select(doc) {
        None => None,
        Some(None) => Some(Seq::empty()),
        Some(Some(v)) => Some(v),
    }
}

pub open spec fn texts(values: Seq<String>) -> Seq<Seq<char>> {
    values.map_values(|v: String| v@)
}

impl Response {
    /// Builds an assertion from its encoded form and the role attribute
    /// values found in it: the set of roles that the values parse to, in
    /// order of first occurrence, or the error of the first value that is
    /// not a role identifier. Distinct values give as many roles.
    #[verifier::rlimit(100)]
    pub fn from_attribute_values(raw: String, values: &Vec<String>) -> (r: Result<
        Response,
        SamlError,
    >)
        ensures
            r is Ok <==> all_roles_valid(texts(values@)),
            r is Ok ==> r->Ok_0.raw@ == raw@ && roles_of(texts(values@), r->Ok_0.roles@),
            r is Ok && distinct_texts(texts(values@)) ==> r->Ok_0.roles@.len() == values@.len(),
            r is Err ==> exists|i: int|
                #![auto]
                first_invalid_role(texts(values@), i) && (r->Err_0 matches SamlError::Role(e) && (
                e.text@ == values@[i]@ && parse_role_spec(values@[i]@) == Err::<
                    (Seq<char>, Seq<char>),
                    RoleErrorKind,
                >(e.kind))),
    {
        let ghost vs = texts(values@);
        let mut roles: Vec<Role> = Vec::new();
        let mut i: usize = 0;
        while i < values.len()
            invariant
                vs == texts(values@),
                i <= values@.len(),
                forall|k: int| 0 <= k < i ==> parse_role_spec(#[trigger] vs[k]) is Ok,
                forall|k: int|
                    0 <= k < i ==> exists|j: int|
                        0 <= j < roles@.len() && #[trigger] roles@[j]@ == parsed_role(
                            #[trigger] vs[k],
                        ),
                forall|j: int|
                    0 <= j < roles@.len() ==> exists|k: int|
                        0 <= k < i && #[trigger] roles@[j]@ == parsed_role(#[trigger] vs[k]),
                forall|j: int, k: int|
                    0 <= j < roles@.len() && 0 <= k < roles@.len() && j != k ==> #[trigger] roles@[j]@
                        != #[trigger] roles@[k]@,
                distinct_texts(vs.take(i as int)) ==> roles@.len() == i,
            decreases values.len() - i,
        {
            assert(vs[i as int] == values@[i as int]@);
            match Role::from_str(values[i].as_str()) {
                Ok(role) => {
                    let ghost r0 = roles@;
                    let found = contains_role(&roles, &role);
                    proof {
                        if found && distinct_texts(vs.take(i + 1)) {
                            let j = choose|j: int| 0 <= j < r0.len() && #[trigger] r0[j]@ == role@;
                            let k = choose|k: int| 0 <= k < i && #[trigger] r0[j]@ == parsed_role(#[trigger] vs[k]);
                            role_round_trip(vs[k]);
                            role_round_trip(vs[i as int]);
                            assert(vs.take(i + 1)[k] == vs[k]);
                            assert(vs.take(i + 1)[i as int] == vs[i as int]);
                        }
                        if distinct_texts(vs.take(i + 1)) {
                            assert forall|a: int, b: int|
                                0 <= a < i && 0 <= b < i && a != b implies #[trigger] vs.take(i as int)[a]
                                    != #[trigger] vs.take(i as int)[b] by {
                                assert(vs.take(i + 1)[a] != vs.take(i + 1)[b]);
                            }
                        }
                    }
                    if !found {
                        roles.push(role);
                        proof {
                            assert(roles@[r0.len() as int]@ == parsed_role(vs[i as int]));
                            assert forall|j: int| 0 <= j < roles@.len() implies exists|k: int|
                                0 <= k < i + 1 && #[trigger] roles@[j]@ == parsed_role(#[trigger] vs[k]) by {
                                if j < r0.len() {
                                    assert(roles@[j] == r0[j]);
                                    let k = choose|k: int| 0 <= k < i && #[trigger] r0[j]@ == parsed_role(#[trigger] vs[k]);
                                    assert(roles@[j]@ == parsed_role(vs[k]));
                                } else {
                                    assert(roles@[j]@ == parsed_role(vs[i as int]));
                                }
                            }
                            assert forall|k: int| 0 <= k < i + 1 implies exists|j: int|
                                0 <= j < roles@.len() && #[trigger] roles@[j]@ == parsed_role(#[trigger] vs[k]) by {
                                if k < i {
                                    let j = choose|j: int| 0 <= j < r0.len() && #[trigger] r0[j]@ == parsed_role(vs[k]);
                                    assert(roles@[j] == r0[j]);
                                } else {
                                    assert(roles@[r0.len() as int]@ == parsed_role(vs[k]));
                                }
                            }
                        }
                    } else {
                        proof {
                            let j = choose|j: int| 0 <= j < r0.len() && #[trigger] r0[j]@ == role@;
                            assert(roles@[j]@ == parsed_role(vs[i as int]));
                        }
                    }
                },
                Err(e) => {
                    assert(first_invalid_role(texts(values@), i as int));
                    return Err(SamlError::Role(e));
                },
            }
            i = i + 1;
        }
        assert(vs.take(i as int) =~= vs);
        assert(all_roles_valid(texts(values@)));
        Ok(Response { raw, roles })
    }

    /// Reads an encoded assertion: base64, then UTF-8, then XML, then the
    /// role attribute values under the assertion namespace. A query result
    /// that is not a node set grants no role.
    pub fn from_str(s: &str) -> (r: Result<Response, SamlError>)
        ensures
            (r matches Err(SamlError::Encoding)) <==> assertion_text(s@) is None,
            assertion_text(s@) is Some ==> ((r matches Err(SamlError::Document)) <==> !xml_parses(
                assertion_text(s@)->Some_0,
            )),
            assertion_text(s@) is Some && xml_parses(assertion_text(s@)->Some_0) ==> ({
                let values = role_values(assertion_text(s@)->Some_0);
                &&& (r matches Err(SamlError::Query)) <==> values is None
                &&& values is Some ==> (r is Ok <==> all_roles_valid(values->Some_0))
                &&& r is Ok ==> r->Ok_0.raw@ == s@ && roles_of(values->Some_0, r->Ok_0.roles@)
                &&& r matches Err(SamlError::Role(e)) ==> exists|i: int|
                    #![auto]
                    first_invalid_role(values->Some_0, i) && e.text@ == values->Some_0[i]
                        && parse_role_spec(values->Some_0[i]) == Err::<
                        (Seq<char>, Seq<char>),
                        RoleErrorKind,
                    >(e.kind)
            }),
    {
        let bytes = match decode_base64(s) {
            Some(b) => b,
            None => return Err(SamlError::Encoding),
        };
        let text = match utf8_text(bytes) {
            Some(t) => t,
            None => return Err(SamlError::Encoding),
        };
        let values = match select(text.as_str(), ROLE_QUERY, ASSERTION_PREFIX, ASSERTION_NAMESPACE) {
            Selection::Malformed => return Err(SamlError::Document),
            Selection::Failed => return Err(SamlError::Query),
            Selection::NotNodes => Vec::new(),
            Selection::Nodes(v) => v,
        };
        assert(texts(values@) == role_values(text@)->Some_0);
        Response::from_attribute_values(s.to_owned(), &values)
    }
}

} // verus!
