use vstd::prelude::*;
use vstd::string::{StrSliceExecFns, StringExecFns};

verus! {

/// Number of occurrences of `c` in `s`.
pub open spec fn char_count(s: Seq<char>, c: char) -> nat
    decreases s.len(),
{
    if s.len() == 0 {
        0
    } else {
        char_count(s.drop_last(), c) + if s.last() == c { 1nat } else { 0nat }
    }
}

/// Index of the first `c` in `s` (meaningful when `char_count(s, c) > 0`).
pub open spec fn first_index(s: Seq<char>, c: char) -> int
    decreases s.len(),
{
    if s.len() == 0 {
        0
    } else if char_count(s.drop_last(), c) > 0 {
        first_index(s.drop_last(), c)
    } else {
        s.len() - 1
    }
}

pub open spec fn comma_count(s: Seq<char>) -> nat {
    char_count(s, ',')
}

pub open spec fn first_comma(s: Seq<char>) -> int {
    first_index(s, ',')
}

/// Why a role identifier string was rejected.
#[derive(Debug, Clone, Copy, PartialEq, Eq, Structural)]
pub enum RoleErrorKind {
    NotEnoughElements,
    TooManyElements,
    EmptyComponent,
}

/// A rejected role identifier string, with the offending text.
#[derive(Debug, Clone)]
pub struct RoleError {
    pub kind: RoleErrorKind,
    pub text: String,
}

/// The meaning of a `provider-arn,role-arn` string: the two components, or
/// why it is malformed.
pub open spec fn parse_role_spec(s: Seq<char>) -> Result<(Seq<char>, Seq<char>), RoleErrorKind> {
    if comma_count(s) == 0 {
        Err(RoleErrorKind::NotEnoughElements)
    } else if comma_count(s) > 1 {
        Err(RoleErrorKind::TooManyElements)
    } else {
        let i = first_comma(s);
        let p = s.take(i);
        let r = s.skip(i + 1);
        if p.len() == 0 || r.len() == 0 {
            Err(RoleErrorKind::EmptyComponent)
        } else {
            Ok((p, r))
        }
    }
}

/// The text form of a role identifier.
pub open spec fn render_role_spec(provider: Seq<char>, role: Seq<char>) -> Seq<char> {
    provider + seq![','] + role
}

/// The name of a role: what follows the single `/` of its ARN.
pub open spec fn role_name_spec(arn: Seq<char>) -> Option<Seq<char>> {
    if char_count(arn, '/') == 1 {
        Some(arn.skip(first_index(arn, '/') + 1))
    } else {
        None
    }
}

pub proof fn lemma_comma_count_concat(a: Seq<char>, b: Seq<char>)
    ensures
        comma_count(a + b) == comma_count(a) + comma_count(b),
    decreases b.len(),
{
    if b.len() == 0 {
        assert(a + b =~= a);
    } else {
        assert((a + b).drop_last() =~= a + b.drop_last());
        lemma_comma_count_concat(a, b.drop_last());
    }
}

pub proof fn lemma_comma_count_zero(s: Seq<char>)
    ensures
        comma_count(s) == 0 <==> forall|i: int| 0 <= i < s.len() ==> s[i] != ',',
    decreases s.len(),
{
    if s.len() > 0 {
        lemma_comma_count_zero(s.drop_last());
        if comma_count(s) == 0 {
            assert forall|i: int| 0 <= i < s.len() implies s[i] != ',' by {
                if i < s.len() - 1 {
                    assert(s.drop_last()[i] == s[i]);
                }
            }
        } else {
            if comma_count(s.drop_last()) > 0 {
                let k = choose|k: int| 0 <= k < s.drop_last().len() && s.drop_last()[k] == ',';
                assert(s[k] == ',');
            }
        }
    }
}

pub proof fn lemma_first_index(s: Seq<char>, c: char)
    requires
        char_count(s, c) > 0,
    ensures
        0 <= first_index(s, c) < s.len(),
        s[first_index(s, c)] == c,
        char_count(s.take(first_index(s, c)), c) == 0,
    decreases s.len(),
{
    if char_count(s.drop_last(), c) > 0 {
        lemma_first_index(s.drop_last(), c);
        let i = first_index(s, c);
        assert(s.drop_last().take(i) =~= s.take(i));
    } else {
        assert(s.take(s.len() - 1) =~= s.drop_last());
    }
}

pub proof fn lemma_first_comma(s: Seq<char>)
    requires
        comma_count(s) > 0,
    ensures
        0 <= first_comma(s) < s.len(),
        s[first_comma(s)] == ',',
        comma_count(s.take(first_comma(s))) == 0,
{
    lemma_first_index(s, ',');
}

/// A federation provider and a role, the pair that temporary credentials are
/// requested for.
#[derive(Debug, Clone, Eq, Hash)]
pub struct Role {
    pub provider_arn: String,
    pub role_arn: String,
}

impl View for Role {
    type V = (Seq<char>, Seq<char>);

    open spec fn view(&self) -> (Seq<char>, Seq<char>) {
        (self.provider_arn@, self.role_arn@)
    }
}

impl PartialEq for Role {
    fn eq(&self, o: &Role) -> (r: bool)
        ensures
            r == (self@ == o@),
    {
        self.provider_arn == o.provider_arn && self.role_arn == o.role_arn
    }
}

impl vstd::std_specs::cmp::PartialEqSpecImpl for Role {
    open spec fn obeys_eq_spec() -> bool {
        true
    }

    open spec fn eq_spec(&self, o: &Role) -> bool {
        self@ == o@
    }
}

impl RoleError {
    /// The error as text.
    pub fn message(&self) -> (r: String)
        ensures
            r@ == (match self.kind {
                RoleErrorKind::NotEnoughElements => "Not enough elements in "@,
                RoleErrorKind::TooManyElements => "Too many elements in "@,
                RoleErrorKind::EmptyComponent => "Empty element in "@,
            }) + self.text@,
    {
        let head = match self.kind {
            RoleErrorKind::NotEnoughElements => String::from_str("Not enough elements in "),
            RoleErrorKind::TooManyElements => String::from_str("Too many elements in "),
            RoleErrorKind::EmptyComponent => String::from_str("Empty element in "),
        };
        proof {
            reveal_strlit("Not enough elements in ");
            reveal_strlit("Too many elements in ");
            reveal_strlit("Empty element in ");
        }
        head.concat(self.text.as_str())
    }
}

impl Role {
    /// Parses `provider-arn,role-arn`.
    pub fn from_str(s: &str) -> (r: Result<Role, RoleError>)
        ensures
            match r {
                Ok(role) => parse_role_spec(s@) == Ok::<(Seq<char>, Seq<char>), RoleErrorKind>(
                    (role.provider_arn@, role.role_arn@),
                ),
                Err(e) => parse_role_spec(s@) == Err::<(Seq<char>, Seq<char>), RoleErrorKind>(
                    e.kind,
                ) && e.text@ == s@,
            },
    {
        let n = s.unicode_len();
        let mut i: usize = 0;
        let mut count: usize = 0;
        let mut pos: usize = 0;
        while i < n
            invariant
                n == s@.len(),
                i <= n,
                count == comma_count(s@.take(i as int)),
                count <= i,
                count > 0 ==> pos == first_comma(s@.take(i as int)),
            decreases n - i,
        {
            let c = s.get_char(i);
            proof {
                assert(s@.take(i + 1).drop_last() =~= s@.take(i as int));
            }
            if c == ',' {
                if count == 0 {
                    pos = i;
                }
                count = count + 1;
            }
            i = i + 1;
        }
        assert(s@.take(n as int) =~= s@);
        if count == 0 {
            Err(RoleError { kind: RoleErrorKind::NotEnoughElements, text: s.to_owned() })
        } else if count > 1 {
            Err(RoleError { kind: RoleErrorKind::TooManyElements, text: s.to_owned() })
        } else {
            proof {
                lemma_first_comma(s@);
            }
            if pos == 0 || pos + 1 == n {
                Err(RoleError { kind: RoleErrorKind::EmptyComponent, text: s.to_owned() })
            } else {
                let provider = s.substring_char(0, pos).to_owned();
                let role = s.substring_char(pos + 1, n).to_owned();
                assert(s@.subrange(0, pos as int) =~= s@.take(pos as int));
                assert(s@.subrange(pos + 1, n as int) =~= s@.skip(pos + 1));
                Ok(Role { provider_arn: provider, role_arn: role })
            }
        }
    }

    /// Renders the identifier as `provider-arn,role-arn`.
    pub fn to_string(&self) -> (r: String)
        ensures
            r@ == render_role_spec(self.provider_arn@, self.role_arn@),
    {
        let mut out = self.provider_arn.clone();
        out.append(",");
        proof {
            reveal_strlit(",");
        }
        out.append(self.role_arn.as_str());
        out
    }

    /// The role's name: what follows the single `/` of the role ARN.
    pub fn role_name(&self) -> (r: Option<String>)
        ensures
            match r {
                Some(name) => role_name_spec(self.role_arn@) == Some(name@),
                None => role_name_spec(self.role_arn@) is None,
            },
    {
        let arn = self.role_arn.as_str();
        let n = arn.unicode_len();
        let mut i: usize = 0;
        let mut count: usize = 0;
        let mut pos: usize = 0;
        while i < n
            invariant
                n == arn@.len(),
                arn@ == self.role_arn@,
                i <= n,
                count == char_count(arn@.take(i as int), '/'),
                count <= i,
                count > 0 ==> pos == first_index(arn@.take(i as int), '/'),
            decreases n - i,
        {
            let c = arn.get_char(i);
            proof {
                assert(arn@.take(i + 1).drop_last() =~= arn@.take(i as int));
            }
            if c == '/' {
                if count == 0 {
                    pos = i;
                }
                count = count + 1;
            }
            i = i + 1;
        }
        assert(arn@.take(n as int) =~= arn@);
        if count == 1 {
            proof {
                lemma_first_index(arn@, '/');
            }
            let name = arn.substring_char(pos + 1, n).to_owned();
            assert(arn@.subrange(pos + 1, n as int) =~= arn@.skip(pos + 1));
            Some(name)
        } else {
            None
        }
    }
}

/// Rendering a parsed identifier gives back the text it was parsed from.
pub proof fn role_round_trip(s: Seq<char>)
    requires
        parse_role_spec(s) is Ok,
    ensures
        render_role_spec(parse_role_spec(s)->Ok_0.0, parse_role_spec(s)->Ok_0.1) == s,
{
    lemma_first_comma(s);
    let i = first_comma(s);
    assert(s.take(i) + seq![','] + s.skip(i + 1) =~= s);
}

/// A string with no comma, or with an empty component before or after its
/// comma, is rejected.
pub proof fn malformed_role_rejected(s: Seq<char>)
    requires
        (forall|i: int| 0 <= i < s.len() ==> s[i] != ',') || (s.len() > 0 && (s[0] == ','
            || s.last() == ',')),
    ensures
        parse_role_spec(s) is Err,
{
    lemma_comma_count_zero(s);
    if comma_count(s) == 1 {
        lemma_first_comma(s);
        let i = first_comma(s);
        if s[0] == ',' {
            if i > 0 {
                lemma_comma_count_zero(s.take(i));
                assert(s.take(i)[0] == ',');
            }
        } else if s.last() == ',' && i < s.len() - 1 {
            lemma_comma_count_concat(s.take(i + 1), s.skip(i + 1));
            assert(s.take(i + 1) + s.skip(i + 1) =~= s);
            lemma_comma_count_concat(s.take(i), seq![s[i]]);
            assert(s.take(i) + seq![s[i]] =~= s.take(i + 1));
            assert(seq![s[i]].drop_last() =~= Seq::<char>::empty());
            lemma_comma_count_zero(s.skip(i + 1));
            assert(s.skip(i + 1)[s.len() - i - 2] == ',');
        }
    }
}

/// Whether two strings hold the same characters.
pub fn same_text(a: &str, b: &str) -> (r: bool)
    ensures
        r == (a@ == b@),
{
    let n = a.unicode_len();
    if n != b.unicode_len() {
        return false;
    }
    let mut i: usize = 0;
    while i < n
        invariant
            n == a@.len(),
            a@.len() == b@.len(),
            i <= n,
            forall|j: int| 0 <= j < i ==> a@[j] == b@[j],
        decreases n - i,
    {
        if a.get_char(i) != b.get_char(i) {
            return false;
        }
        i = i + 1;
    }
    assert(a@ =~= b@);
    true
}

} // verus!
