use vstd::prelude::*;
use vstd::string::{StrSliceExecFns, StringExecFns};

use crate::role::{char_count, first_index, lemma_first_index, same_text};

verus! {

/// What a profile holds: access key id, secret access key, and the session
/// token of temporary credentials.
pub type CredentialsView = (Seq<char>, Seq<char>, Option<Seq<char>>);

/// The credentials of one profile: temporary ones, which this library
/// writes, or a long-lived pair, which it only keeps.
#[derive(Debug)]
pub enum ProfileCredentials {
    Sts { access_key_id: String, secret_access_key: String, session_token: String },
    Iam { access_key_id: String, secret_access_key: String },
}

impl View for ProfileCredentials {
    type V = CredentialsView;

    open spec fn view(&self) -> CredentialsView {
        match self {
            ProfileCredentials::Sts { access_key_id, secret_access_key, session_token } => (
                access_key_id@,
                secret_access_key@,
                Some(session_token@),
            ),
            ProfileCredentials::Iam { access_key_id, secret_access_key } => (
                access_key_id@,
                secret_access_key@,
                None,
            ),
        }
    }
}

impl PartialEq for ProfileCredentials {
    fn eq(&self, o: &ProfileCredentials) -> (r: bool)
        ensures
            r == (self@ == o@),
    {
        match (self, o) {
            (
                ProfileCredentials::Sts { access_key_id: a1, secret_access_key: s1, session_token: t1 },
                ProfileCredentials::Sts { access_key_id: a2, secret_access_key: s2, session_token: t2 },
            ) => *a1 == *a2 && *s1 == *s2 && *t1 == *t2,
            (
                ProfileCredentials::Iam { access_key_id: a1, secret_access_key: s1 },
                ProfileCredentials::Iam { access_key_id: a2, secret_access_key: s2 },
            ) => *a1 == *a2 && *s1 == *s2,
            _ => false,
        }
    }
}

impl vstd::std_specs::cmp::PartialEqSpecImpl for ProfileCredentials {
    open spec fn obeys_eq_spec() -> bool {
        true
    }

    open spec fn eq_spec(&self, o: &ProfileCredentials) -> bool {
        self@ == o@
    }
}

impl ProfileCredentials {
    /// Temporary credentials, as a role assumption returns them.
    pub fn sts(access_key_id: String, secret_access_key: String, session_token: String) -> (r:
        ProfileCredentials)
        ensures
            r@ == (access_key_id@, secret_access_key@, Some(session_token@)),
    {
        ProfileCredentials::Sts { access_key_id, secret_access_key, session_token }
    }

    pub fn is_sts(&self) -> (r: bool)
        ensures
            r == (self@.2 is Some),
    {
        match self {
            ProfileCredentials::Sts { .. } => true,
            ProfileCredentials::Iam { .. } => false,
        }
    }
}

/// Strict order of profile names: character by character, a proper prefix
/// first. It agrees with the byte order of their UTF-8 encodings.
pub open spec fn key_less(a: Seq<char>, b: Seq<char>) -> bool
    decreases a.len(),
{
    if a.len() == 0 {
        b.len() > 0
    } else if b.len() == 0 {
        false
    } else if a[0] != b[0] {
        a[0] < b[0]
    } else {
        key_less(a.drop_first(), b.drop_first())
    }
}

pub proof fn lemma_key_total(a: Seq<char>, b: Seq<char>)
    requires
        a != b,
        !key_less(a, b),
    ensures
        key_less(b, a),
    decreases a.len(),
{
    if a.len() == 0 {
        assert(b.len() == 0);
        assert(a =~= b);
    } else if b.len() == 0 {
    } else if a[0] != b[0] {

    } else {
        if a.drop_first() == b.drop_first() {
            assert(a =~= seq![a[0]] + a.drop_first());
            assert(b =~= seq![b[0]] + b.drop_first());
        }
        lemma_key_total(a.drop_first(), b.drop_first());
    }
}

fn key_less_exec(a: &str, b: &str) -> (r: bool)
    ensures
        r == key_less(a@, b@),
{
    let na = a.unicode_len();
    let nb = b.unicode_len();
    let mut i: usize = 0;
    assert(a@.skip(0) =~= a@);
    assert(b@.skip(0) =~= b@);
    while i < na && i < nb
        invariant
            na == a@.len(),
            nb == b@.len(),
            i <= na,
            i <= nb,
            key_less(a@, b@) == key_less(a@.skip(i as int), b@.skip(i as int)),
        decreases na - i,
    {
        let ca = a.get_char(i);
        let cb = b.get_char(i);
        if ca != cb {
            return ca < cb;
        }
        assert(a@.skip(i as int).drop_first() =~= a@.skip(i + 1));
        assert(b@.skip(i as int).drop_first() =~= b@.skip(i + 1));
        i = i + 1;
    }
    i < nb
}

/// The profile names of `e` are pairwise distinct.
pub open spec fn keys_unique(e: Seq<(String, ProfileCredentials)>) -> bool {
    forall|i: int, j: int|
        0 <= i < e.len() && 0 <= j < e.len() && i != j ==> #[trigger] e[i].0@ != #[trigger] e[j].0@
}

/// The profile names of `e` are in increasing order.
pub open spec fn keys_sorted(e: Seq<(String, ProfileCredentials)>) -> bool {
    forall|i: int| 0 <= i < e.len() - 1 ==> key_less(#[trigger] e[i].0@, e[i + 1].0@)
}

pub open spec fn has_key(e: Seq<(String, ProfileCredentials)>, k: Seq<char>) -> bool {
    exists|i: int| 0 <= i < e.len() && #[trigger] e[i].0@ == k
}

/// The mapping from profile name to credentials that `e` holds.
pub open spec fn entries_map(e: Seq<(String, ProfileCredentials)>) -> Map<
    Seq<char>,
    CredentialsView,
> {
    Map::new(
        |k: Seq<char>| has_key(e, k),
        |k: Seq<char>| e[choose|i: int| 0 <= i < e.len() && #[trigger] e[i].0@ == k].1@,
    )
}

pub proof fn lemma_entries_map_at(e: Seq<(String, ProfileCredentials)>, i: int)
    requires
        keys_unique(e),
        0 <= i < e.len(),
    ensures
        entries_map(e).contains_key(e[i].0@),
        entries_map(e)[e[i].0@] == e[i].1@,
{
    assert(has_key(e, e[i].0@));
    let j = choose|j: int| 0 <= j < e.len() && #[trigger] e[j].0@ == e[i].0@;
    assert(j == i);
}

/// Profiles and their credentials, kept in increasing order of name, each
/// name once.
#[derive(Debug)]
pub struct CredentialsStore {
    pub credentials: Vec<(String, ProfileCredentials)>,
}

/// Why a store could not be read or changed.
#[derive(Debug)]
pub enum StoreError {
    /// The profile holds long-lived credentials, which are never replaced.
    NotStsManaged(String),
    /// A line of the file is neither a section header, a `key=value` pair,
    /// a comment nor empty; or a pair stands before any section.
    Syntax,
    /// A section lacks the access key id or the secret access key.
    MissingField(String),
}

impl CredentialsStore {
    pub open spec fn wf(&self) -> bool {
        keys_unique(self.credentials@) && keys_sorted(self.credentials@)
    }

    pub open spec fn view(&self) -> Map<Seq<char>, CredentialsView> {
        entries_map(self.credentials@)
    }

    /// A store with no profile.
    pub fn new() -> (r: CredentialsStore)
        ensures
            r.wf(),
            r@ == Map::<Seq<char>, CredentialsView>::empty(),
    {
        let r = CredentialsStore { credentials: Vec::new() };
        assert(r@ =~= Map::<Seq<char>, CredentialsView>::empty());
        r
    }

    /// Number of profiles.
    pub fn len(&self) -> (r: usize)
        requires
            self.wf(),
        ensures
            r == self@.len(),
    {
        proof {
            self.lemma_dom_len();
        }
        self.credentials.len()
    }

    proof fn lemma_dom_len(&self)
        requires
            self.wf(),
        ensures
            self@.dom().finite(),
            self@.len() == self.credentials@.len(),
    {
        let e = self.credentials@;
        let keys = e.map_values(|p: (String, ProfileCredentials)| p.0@);
        assert(self@.dom() =~= keys.to_set()) by {
            assert forall|k: Seq<char>| self@.dom().contains(k) implies keys.to_set().contains(k) by {
                let i = choose|i: int| 0 <= i < e.len() && #[trigger] e[i].0@ == k;
                assert(keys[i] == k);
            }
            assert forall|k: Seq<char>| keys.to_set().contains(k) implies self@.dom().contains(k) by {
                let i = choose|i: int| 0 <= i < keys.len() && keys[i] == k;
                assert(e[i].0@ == k);
            }
        }
        assert(keys.no_duplicates()) by {
            assert forall|i: int, j: int| 0 <= i < keys.len() && 0 <= j < keys.len() && i != j
                implies keys[i] != keys[j] by {
                assert(e[i].0@ != e[j].0@);
            }
        }
        keys.unique_seq_to_set();
    }

    /// Index of the profile called `name`, if there is one.
    fn find(&self, name: &str) -> (r: Option<usize>)
        requires
            self.wf(),
        ensures
            match r {
                Some(i) => i < self.credentials@.len() && self.credentials@[i as int].0@ == name@,
                None => !self@.contains_key(name@),
            },
    {
        let mut i: usize = 0;
        while i < self.credentials.len()
            invariant
                i <= self.credentials@.len(),
                forall|j: int| 0 <= j < i ==> #[trigger] self.credentials@[j].0@ != name@,
            decreases self.credentials@.len() - i,
        {
            if same_text(self.credentials[i].0.as_str(), name) {
                return Some(i);
            }
            i = i + 1;
        }
        None
    }

    /// The credentials of the profile called `name`.
    pub fn get(&self, name: &str) -> (r: Option<&ProfileCredentials>)
        requires
            self.wf(),
        ensures
            match r {
                Some(c) => self@.contains_key(name@) && self@[name@] == c@,
                None => !self@.contains_key(name@),
            },
    {
        match self.find(name) {
            Some(i) => {
                proof {
                    lemma_entries_map_at(self.credentials@, i as int);
                }
                Some(&self.credentials[i].1)
            },
            None => None,
        }
    }

    /// Sets the credentials of `name`, replacing what it held.
    fn put(&mut self, name: String, creds: ProfileCredentials)
        requires
            old(self).wf(),
        ensures
            final(self).wf(),
            final(self)@ == old(self)@.insert(name@, creds@),
    {
        let ghost e0 = self.credentials@;
        match self.find(name.as_str()) {
            Some(k) => {
                self.credentials.set(k, (name, creds));
                proof {
                    let e = self.credentials@;
                    assert forall|i: int| 0 <= i < e.len() implies #[trigger] e[i].0@ == e0[i].0@ by {}
                    assert(keys_unique(e));
                    assert(keys_sorted(e));
                    assert(entries_map(e) =~= entries_map(e0).insert(e[k as int].0@, e[k as int].1@)) by {
                        assert forall|key: Seq<char>| #[trigger] entries_map(e).contains_key(key) <==> entries_map(e0).insert(e[k as int].0@, e[k as int].1@).contains_key(key) by {
                            if has_key(e, key) {
                                let i = choose|i: int| 0 <= i < e.len() && #[trigger] e[i].0@ == key;
                                assert(e0[i].0@ == key);
                            }
                            if has_key(e0, key) {
                                let i = choose|i: int| 0 <= i < e0.len() && #[trigger] e0[i].0@ == key;
                                assert(e[i].0@ == key);
                            }
                        }
                        assert forall|key: Seq<char>| #[trigger] entries_map(e).contains_key(key) implies entries_map(e)[key] == entries_map(e0).insert(e[k as int].0@, e[k as int].1@)[key] by {
                            let i = choose|i: int| 0 <= i < e.len() && #[trigger] e[i].0@ == key;
                            lemma_entries_map_at(e, i);
                            if i != k {
                                assert(e0[i].0@ == key);
                                lemma_entries_map_at(e0, i);
                            }
                        }
                    }
                }
            },
            None => {
                let mut p: usize = 0;
                while p < self.credentials.len() && key_less_exec(
                    self.credentials[p].0.as_str(),
                    name.as_str(),
                )
                    invariant
                        self.credentials@ == e0,
                        p <= e0.len(),
                        forall|j: int| 0 <= j < p ==> key_less(#[trigger] e0[j].0@, name@),
                    decreases e0.len() - p,
                {
                    p = p + 1;
                }
                proof {
                    if p < e0.len() {
                        assert(e0[p as int].0@ != name@);
                        lemma_key_total(e0[p as int].0@, name@);
                    }
                }
                self.credentials.insert(p, (name, creds));
                proof {
                    let e = self.credentials@;
                    assert(e[p as int].0@ == name@);
                    assert forall|i: int| 0 <= i < p implies #[trigger] e[i] == e0[i] by {}
                    assert forall|i: int| p < i < e.len() implies #[trigger] e[i] == e0[i - 1] by {}
                    assert(keys_unique(e)) by {
                        assert forall|i: int, j: int| 0 <= i < e.len() && 0 <= j < e.len() && i != j implies #[trigger] e[i].0@ != #[trigger] e[j].0@ by {
                            if i != p && j != p {
                                let i0 = if i < p { i } else { i - 1 };
                                let j0 = if j < p { j } else { j - 1 };
                                assert(e0[i0].0@ != e0[j0].0@);
                            } else if i == p {
                                let j0 = if j < p { j } else { j - 1 };
                                assert(!has_key(e0, name@) ==> e0[j0].0@ != name@);
                            } else {
                                let i0 = if i < p { i } else { i - 1 };
                                assert(!has_key(e0, name@) ==> e0[i0].0@ != name@);
                            }
                        }
                    }
                    assert(keys_sorted(e)) by {
                        assert forall|i: int| 0 <= i < e.len() - 1 implies key_less(#[trigger] e[i].0@, e[i + 1].0@) by {
                            if i + 1 < p {
                                assert(key_less(e0[i].0@, e0[i + 1].0@));
                            } else if i > p {
                                assert(key_less(e0[i - 1].0@, e0[i].0@));
                            }
                        }
                    }
                    assert(entries_map(e) =~= entries_map(e0).insert(name@, creds@)) by {
                        assert forall|key: Seq<char>| #[trigger] entries_map(e).contains_key(key) <==> entries_map(e0).insert(name@, creds@).contains_key(key) by {
                            if has_key(e, key) {
                                let i = choose|i: int| 0 <= i < e.len() && #[trigger] e[i].0@ == key;
                                if i < p {
                                    assert(e0[i].0@ == key);
                                } else if i > p {
                                    assert(e0[i - 1].0@ == key);
                                }
                            }
                            if has_key(e0, key) {
                                let i = choose|i: int| 0 <= i < e0.len() && #[trigger] e0[i].0@ == key;
                                if i < p {
                                    assert(e[i].0@ == key);
                                } else {
                                    assert(e[i + 1].0@ == key);
                                }
                            }
                        }
                        assert forall|key: Seq<char>| #[trigger] entries_map(e).contains_key(key) implies entries_map(e)[key] == entries_map(e0).insert(name@, creds@)[key] by {
                            let i = choose|i: int| 0 <= i < e.len() && #[trigger] e[i].0@ == key;
                            lemma_entries_map_at(e, i);
                            if i < p {
                                lemma_entries_map_at(e0, i);
                            } else if i > p {
                                lemma_entries_map_at(e0, i - 1);
                            }
                        }
                    }
                }
            },
        }
    }

    /// Stores temporary credentials under `name`: a new profile is added and
    /// one with temporary credentials is overwritten, but one with long-lived
    /// credentials is refused and left as it is.
    pub fn set_profile(&mut self, name: String, creds: ProfileCredentials) -> (r: Result<
        (),
        StoreError,
    >)
        requires
            old(self).wf(),
        ensures
            final(self).wf(),
            old(self)@.contains_key(name@) && old(self)@[name@].2 is None ==> (r matches Err(
                StoreError::NotStsManaged(n),
            ) && n@ == name@ && final(self)@ == old(self)@),
            !(old(self)@.contains_key(name@) && old(self)@[name@].2 is None) ==> (r is Ok
                && final(self)@ == old(self)@.insert(name@, creds@)),
    {
        match self.find(name.as_str()) {
            Some(i) => {
                proof {
                    lemma_entries_map_at(self.credentials@, i as int);
                }
                if !self.credentials[i].1.is_sts() {
                    return Err(StoreError::NotStsManaged(name));
                }
            },
            None => {},
        }
        self.put(name, creds);
        Ok(())
    }
}

/// The text of one profile's section in the credentials file.
pub open spec fn section_text(name: Seq<char>, c: CredentialsView) -> Seq<char> {
    "["@ + name + "]\r\n"@ + "aws_access_key_id="@ + c.0 + "\r\n"@ + "aws_secret_access_key="@ + c.1
        + "\r\n"@ + match c.2 {
        Some(t) => "aws_session_token="@ + t + "\r\n"@,
        None => Seq::<char>::empty(),
    }
}

/// The credentials file that holds `e`, one section per entry, in order.
pub open spec fn render_entries(e: Seq<(String, ProfileCredentials)>) -> Seq<char>
    decreases e.len(),
{
    if e.len() == 0 {
        Seq::<char>::empty()
    } else {
        render_entries(e.drop_last()) + section_text(e.last().0@, e.last().1@)
    }
}

/// A section of the credentials file as read: its name and its `key=value`
/// pairs in order.
pub type SectionView = (Seq<char>, Seq<(Seq<char>, Seq<char>)>);

pub struct Section {
    pub name: String,
    pub fields: Vec<(String, String)>,
}

pub open spec fn fields_view(f: Seq<(String, String)>) -> Seq<(Seq<char>, Seq<char>)> {
    f.map_values(|p: (String, String)| (p.0@, p.1@))
}

impl View for Section {
    type V = SectionView;

    open spec fn view(&self) -> SectionView {
        (self.name@, fields_view(self.fields@))
    }
}

pub open spec fn sections_view(v: Seq<Section>) -> Seq<SectionView> {
    v.map_values(|s: Section| s@)
}

/// Number of characters before the first line break of `x`.
pub open spec fn line_len(x: Seq<char>) -> nat
    decreases x.len(),
{
    if x.len() == 0 || x[0] == '\n' {
        0
    } else {
        1 + line_len(x.drop_first())
    }
}

pub open spec fn strip_cr(l: Seq<char>) -> Seq<char> {
    if l.len() > 0 && l.last() == '\r' {
        l.drop_last()
    } else {
        l
    }
}

/// The sections read so far, after one more line: empty lines and comments
/// change nothing, `[name]` opens a section, `key=value` (split at the first
/// `=`) adds a pair to the last section; anything else is an error.
pub open spec fn add_line_spec(acc: Seq<SectionView>, line: Seq<char>) -> Option<Seq<SectionView>> {
    let l = strip_cr(line);
    if l.len() == 0 || l[0] == ';' || l[0] == '#' {
        Some(acc)
    } else if l.len() >= 2 && l[0] == '[' && l.last() == ']' {
        Some(acc.push((l.subrange(1, l.len() - 1), Seq::empty())))
    } else if char_count(l, '=') > 0 && acc.len() > 0 {
        let i = first_index(l, '=');
        Some(acc.drop_last().push((acc.last().0, acc.last().1.push((l.take(i), l.skip(i + 1))))))
    } else {
        None
    }
}

/// The sections of `acc` followed by those that the text `rest` adds.
pub open spec fn frame_from(rest: Seq<char>, acc: Seq<SectionView>) -> Option<Seq<SectionView>>
    decreases rest.len(),
{
    let n = line_len(rest);
    match add_line_spec(acc, rest.take(n as int)) {
        None => None,
        Some(acc2) => if n < rest.len() {
            frame_from(rest.skip(n as int + 1), acc2)
        } else {
            Some(acc2)
        },
    }
}

/// The sections of a credentials file, in the order they appear.
pub open spec fn frame_sections(text: Seq<char>) -> Option<Seq<SectionView>> {
    frame_from(text, Seq::empty())
}

/// The value of the last pair of `fields` whose key is `key`.
pub open spec fn field_value(fields: Seq<(Seq<char>, Seq<char>)>, key: Seq<char>) -> Option<
    Seq<char>,
>
    decreases fields.len(),
{
    if fields.len() == 0 {
        None
    } else if fields.last().0 == key {
        Some(fields.last().1)
    } else {
        field_value(fields.drop_last(), key)
    }
}

/// The credentials that a section holds: temporary ones where it has a
/// session token, a long-lived pair otherwise.
pub open spec fn section_credentials(fields: Seq<(Seq<char>, Seq<char>)>) -> Option<
    CredentialsView,
> {
    match (field_value(fields, "aws_access_key_id"@), field_value(fields, "aws_secret_access_key"@)) {
        (Some(a), Some(s)) => Some((a, s, field_value(fields, "aws_session_token"@))),
        _ => None,
    }
}

/// The profiles that a sequence of sections describes, a later section of a
/// name replacing an earlier one.
pub open spec fn sections_store(secs: Seq<SectionView>) -> Option<Map<Seq<char>, CredentialsView>>
    decreases secs.len(),
{
    if secs.len() == 0 {
        Some(Map::empty())
    } else {
        match sections_store(secs.drop_last()) {
            None => None,
            Some(m) => match section_credentials(secs.last().1) {
                None => None,
                Some(c) => Some(m.insert(secs.last().0, c)),
            },
        }
    }
}

fn strip_line_end(line: &str) -> (r: &str)
    ensures
        r@ == strip_cr(line@),
{
    let n = line.unicode_len();
    if n > 0 && line.get_char(n - 1) == '\r' {
        let r = line.substring_char(0, n - 1);
        assert(r@ =~= line@.drop_last());
        r
    } else {
        line
    }
}

fn add_line(sections: &mut Vec<Section>, line: &str) -> (ok: bool)
    ensures
        match add_line_spec(sections_view(old(sections)@), line@) {
            Some(acc) => ok && sections_view(final(sections)@) == acc,
            None => !ok && final(sections)@ == old(sections)@,
        },
{
    let ghost acc = sections_view(sections@);
    let l = strip_line_end(line);
    let n = l.unicode_len();
    if n == 0 {
        return true;
    }
    let c = l.get_char(0);
    if c == ';' || c == '#' {
        return true;
    }
    if n >= 2 && c == '[' && l.get_char(n - 1) == ']' {
        let name = l.substring_char(1, n - 1).to_owned();
        sections.push(Section { name, fields: Vec::new() });
        assert(fields_view(Seq::<(String, String)>::empty()) =~= Seq::empty());
        assert(sections_view(sections@) =~= acc.push((l@.subrange(1, n - 1), Seq::empty())));
        return true;
    }
    let mut i: usize = 0;
    let mut count: usize = 0;
    let mut pos: usize = 0;
    while i < n
        invariant
            n == l@.len(),
            i <= n,
            count == char_count(l@.take(i as int), '='),
            count <= i,
            count > 0 ==> pos == first_index(l@.take(i as int), '='),
        decreases n - i,
    {
        let ch = l.get_char(i);
        proof {
            assert(l@.take(i + 1).drop_last() =~= l@.take(i as int));
        }
        if ch == '=' {
            if count == 0 {
                pos = i;
            }
            count = count + 1;
        }
        i = i + 1;
    }
    assert(l@.take(n as int) =~= l@);
    if count == 0 || sections.len() == 0 {
        return false;
    }
    proof {
        lemma_first_index(l@, '=');
    }
    let key = l.substring_char(0, pos).to_owned();
    let value = l.substring_char(pos + 1, n).to_owned();
    assert(l@.subrange(0, pos as int) =~= l@.take(pos as int));
    assert(l@.subrange(pos + 1, n as int) =~= l@.skip(pos + 1));
    let ghost before = sections@;
    let mut last = sections.pop().unwrap();
    let ghost last0 = last;
    last.fields.push((key, value));
    sections.push(last);
    proof {
        assert(before.drop_last() =~= sections@.drop_last());
        assert(fields_view(last.fields@) =~= fields_view(last0.fields@).push((key@, value@)));
        assert(sections_view(sections@) =~= acc.drop_last().push(
            (acc.last().0, acc.last().1.push((l@.take(pos as int), l@.skip(pos + 1)))),
        ));
    }
    true
}

/// Splits a credentials file into its sections.
pub fn frame(text: &str) -> (r: Option<Vec<Section>>)
    ensures
        match frame_sections(text@) {
            Some(secs) => r is Some && sections_view(r->Some_0@) == secs,
            None => r is None,
        },
{
    let n = text.unicode_len();
    let mut sections: Vec<Section> = Vec::new();
    let mut i: usize = 0;
    assert(text@.skip(0) =~= text@);
    assert(sections_view(sections@) =~= Seq::<SectionView>::empty());
    loop
        invariant
            n == text@.len(),
            i <= n,
            frame_from(text@.skip(i as int), sections_view(sections@)) == frame_sections(text@),
        decreases n - i,
    {
        let mut j: usize = i;
        while j < n && text.get_char(j) != '\n'
            invariant
                n == text@.len(),
                i <= j <= n,
                line_len(text@.skip(i as int)) == (j - i) + line_len(text@.skip(j as int)),
            decreases n - j,
        {
            assert(text@.skip(j as int).drop_first() =~= text@.skip(j + 1));
            j = j + 1;
        }
        let ghost rest = text@.skip(i as int);
        assert(line_len(text@.skip(j as int)) == 0);
        let line = text.substring_char(i, j);
        assert(line@ =~= rest.take((j - i) as int));
        if !add_line(&mut sections, line) {
            return None;
        }
        if j < n {
            assert(rest.skip(j - i + 1) =~= text@.skip(j + 1));
            i = j + 1;
        } else {
            return Some(sections);
        }
    }
}

proof fn lemma_store_prefix_none(secs: Seq<SectionView>, k: int)
    requires
        0 <= k <= secs.len(),
        sections_store(secs.take(k)) is None,
    ensures
        sections_store(secs) is None,
    decreases secs.len() - k,
{
    if k < secs.len() {
        assert(secs.take(k + 1).drop_last() =~= secs.take(k));
        lemma_store_prefix_none(secs, k + 1);
    } else {
        assert(secs.take(k) =~= secs);
    }
}

fn field_value_exec(fields: &Vec<(String, String)>, key: &str) -> (r: Option<String>)
    ensures
        match field_value(fields_view(fields@), key@) {
            Some(v) => r is Some && r->Some_0@ == v,
            None => r is None,
        },
{
    let mut r: Option<String> = None;
    let mut i: usize = 0;
    while i < fields.len()
        invariant
            i <= fields@.len(),
            match field_value(fields_view(fields@.take(i as int)), key@) {
                Some(v) => r is Some && r->Some_0@ == v,
                None => r is None,
            },
        decreases fields@.len() - i,
    {
        proof {
            assert(fields_view(fields@.take(i + 1)).drop_last() =~= fields_view(fields@.take(i as int)));
        }
        if same_text(fields[i].0.as_str(), key) {
            r = Some(fields[i].1.clone());
        }
        i = i + 1;
    }
    assert(fields@.take(i as int) =~= fields@);
    r
}

/// The credentials that a section's pairs hold.
pub fn section_credentials_exec(fields: &Vec<(String, String)>) -> (r: Option<ProfileCredentials>)
    ensures
        match section_credentials(fields_view(fields@)) {
            Some(c) => r is Some && r->Some_0@ == c,
            None => r is None,
        },
{
    let a = field_value_exec(fields, "aws_access_key_id");
    let s = field_value_exec(fields, "aws_secret_access_key");
    let t = field_value_exec(fields, "aws_session_token");
    match (a, s) {
        (Some(access_key_id), Some(secret_access_key)) => match t {
            Some(session_token) => Some(
                ProfileCredentials::Sts { access_key_id, secret_access_key, session_token },
            ),
            None => Some(ProfileCredentials::Iam { access_key_id, secret_access_key }),
        },
        _ => None,
    }
}

impl CredentialsStore {
    /// The store that a sequence of sections describes; a later section of
    /// a name replaces an earlier one.
    pub fn from_sections(sections: Vec<Section>) -> (r: Result<CredentialsStore, StoreError>)
        ensures
            match sections_store(sections_view(sections@)) {
                Some(m) => r is Ok && r->Ok_0.wf() && r->Ok_0@ == m,
                None => r matches Err(StoreError::MissingField(_)),
            },
    {
        let ghost all = sections_view(sections@);
        let mut store = CredentialsStore::new();
        let mut i: usize = 0;
        assert(all.take(0) =~= Seq::<SectionView>::empty());
        while i < sections.len()
            invariant
                all == sections_view(sections@),
                i <= sections@.len(),
                store.wf(),
                sections_store(all.take(i as int)) == Some(store@),
            decreases sections@.len() - i,
        {
            let s = &sections[i];
            proof {
                assert(all.take(i + 1).drop_last() =~= all.take(i as int));
                assert(all.take(i + 1).last() == s@);
            }
            match section_credentials_exec(&s.fields) {
                Some(c) => {
                    store.put(s.name.clone(), c);
                },
                None => {
                    proof {
                        lemma_store_prefix_none(all, i + 1);
                    }
                    return Err(StoreError::MissingField(s.name.clone()));
                },
            }
            i = i + 1;
        }
        assert(all.take(i as int) =~= all);
        Ok(store)
    }

    /// Reads the profiles of a credentials file.
    pub fn parse(text: &str) -> (r: Result<CredentialsStore, StoreError>)
        ensures
            match frame_sections(text@) {
                None => r matches Err(StoreError::Syntax),
                Some(secs) => match sections_store(secs) {
                    Some(m) => r is Ok && r->Ok_0.wf() && r->Ok_0@ == m,
                    None => r matches Err(StoreError::MissingField(_)),
                },
            },
    {
        match frame(text) {
            Some(sections) => CredentialsStore::from_sections(sections),
            None => Err(StoreError::Syntax),
        }
    }

    /// The text that saving writes over the whole credentials file: one
    /// section per profile, in increasing order of name.
    pub fn save(&self) -> (r: String)
        requires
            self.wf(),
        ensures
            r@ == render_entries(self.credentials@),
    {
        let mut out = String::new();
        let mut i: usize = 0;
        while i < self.credentials.len()
            invariant
                i <= self.credentials@.len(),
                out@ == render_entries(self.credentials@.take(i as int)),
            decreases self.credentials@.len() - i,
        {
            let ghost before = out@;
            let entry = &self.credentials[i];
            out.append("[");
            out.append(entry.0.as_str());
            out.append("]\r\n");
            match &entry.1 {
                ProfileCredentials::Sts { access_key_id, secret_access_key, session_token } => {
                    out.append("aws_access_key_id=");
                    out.append(access_key_id.as_str());
                    out.append("\r\n");
                    out.append("aws_secret_access_key=");
                    out.append(secret_access_key.as_str());
                    out.append("\r\n");
                    out.append("aws_session_token=");
                    out.append(session_token.as_str());
                    out.append("\r\n");
                },
                ProfileCredentials::Iam { access_key_id, secret_access_key } => {
                    out.append("aws_access_key_id=");
                    out.append(access_key_id.as_str());
                    out.append("\r\n");
                    out.append("aws_secret_access_key=");
                    out.append(secret_access_key.as_str());
                    out.append("\r\n");
                },
            }
            proof {
                assert(self.credentials@.take(i + 1).drop_last() =~= self.credentials@.take(i as int));
                assert(out@ =~= before + section_text(entry.0@, entry.1@));
            }
            i = i + 1;
        }
        assert(self.credentials@.take(i as int) =~= self.credentials@);
        out
    }
}

/// A loaded store holds one profile for each section name, and that name's
/// credentials are those of its last section.
pub proof fn last_section_wins(secs: Seq<SectionView>, i: int)
    requires
        sections_store(secs) is Some,
        0 <= i < secs.len(),
        forall|j: int| i < j < secs.len() ==> secs[j].0 != secs[i].0,
    ensures
        section_credentials(secs[i].1) is Some,
        sections_store(secs)->Some_0.contains_key(secs[i].0),
        sections_store(secs)->Some_0[secs[i].0] == section_credentials(secs[i].1)->Some_0,
    decreases secs.len(),
{
    if i < secs.len() - 1 {
        last_section_wins(secs.drop_last(), i);
        assert(secs.drop_last()[i] == secs[i]);
    }
}

/// The profile names of a loaded store are exactly its section names.
pub proof fn store_names(secs: Seq<SectionView>)
    requires
        sections_store(secs) is Some,
    ensures
        forall|k: Seq<char>|
            sections_store(secs)->Some_0.contains_key(k) <==> exists|j: int|
                0 <= j < secs.len() && #[trigger] secs[j].0 == k,
    decreases secs.len(),
{
    if secs.len() > 0 {
        let d = secs.drop_last();
        store_names(d);
        assert forall|k: Seq<char>|
            sections_store(secs)->Some_0.contains_key(k) <==> exists|j: int|
                0 <= j < secs.len() && #[trigger] secs[j].0 == k by {
            if sections_store(secs)->Some_0.contains_key(k) && k != secs.last().0 {
                let j = choose|j: int| 0 <= j < d.len() && #[trigger] d[j].0 == k;
                assert(secs[j].0 == k);
            }
            if exists|j: int| 0 <= j < secs.len() && #[trigger] secs[j].0 == k {
                let j = choose|j: int| 0 <= j < secs.len() && #[trigger] secs[j].0 == k;
                if j < secs.len() - 1 {
                    assert(d[j].0 == k);
                }
            }
        }
    }
}

/// Sections that each carry an access key id and a secret access key always
/// describe a store.
pub proof fn sections_store_defined(secs: Seq<SectionView>)
    requires
        forall|i: int| 0 <= i < secs.len() ==> section_credentials(#[trigger] secs[i].1) is Some,
    ensures
        sections_store(secs) is Some,
    decreases secs.len(),
{
    if secs.len() > 0 {
        let d = secs.drop_last();
        assert forall|i: int| 0 <= i < d.len() implies section_credentials(#[trigger] d[i].1) is Some by {
            assert(d[i] == secs[i]);
        }
        sections_store_defined(d);
        assert(section_credentials(secs[secs.len() - 1].1) is Some);
    }
}

/// Saving a store whose profiles are exactly `example` and `existing` writes
/// the `example` section and then the `existing` one, each from that
/// profile's credentials alone.
pub proof fn save_orders_sections(s: CredentialsStore)
    requires
        s.wf(),
        s@.dom() =~= set!["example"@, "existing"@],
    ensures
        render_entries(s.credentials@) == section_text("example"@, s@["example"@]) + section_text(
            "existing"@,
            s@["existing"@],
        ),
{
    reveal_strlit("example");
    reveal_strlit("existing");
    let a = "example"@;
    let b = "existing"@;
    assert(a[2] != b[2]);
    assert(a != b);
    let e = s.credentials@;
    s.lemma_dom_len();
    assert(set![a, b].len() == 2) by {
        assert(set![a].len() == 1);
    }
    assert(e.len() == 2);
    lemma_entries_map_at(e, 0);
    lemma_entries_map_at(e, 1);
    assert(e[0].0@ != e[1].0@);
    assert(key_less(e[0].0@, e[1].0@));
    assert(!key_less(b, a)) by {
        let b1 = b.drop_first();
        let a1 = a.drop_first();
        let b2 = b1.drop_first();
        let a2 = a1.drop_first();
        assert(b[0] == a[0]);
        assert(key_less(b, a) == key_less(b1, a1));
        assert(b1[0] == b[1] && a1[0] == a[1]);
        assert(b1[0] == a1[0]);
        assert(key_less(b1, a1) == key_less(b2, a2));
        assert(b2[0] == b[2] && a2[0] == a[2]);
        assert(b2[0] == 'i' && a2[0] == 'a');
        assert(!key_less(b2, a2));
    }
    assert(e[0].0@ == a && e[1].0@ == b);
    assert(e.drop_last().drop_last() =~= Seq::<(String, ProfileCredentials)>::empty());
    assert(e.drop_last().last() == e[0]);
    assert(render_entries(e.drop_last()) == render_entries(e.drop_last().drop_last()) + section_text(e[0].0@, e[0].1@));
    assert(render_entries(e.drop_last()) =~= section_text(e[0].0@, e[0].1@));
}

} // verus!
