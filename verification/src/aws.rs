//! The federation exchange and the credential store: turning an
//! accepted assertion/role pair into temporary credentials, and reading
//! and writing the profile-style credentials file.

use vstd::prelude::*;
use vstd::string::StringExecFns;

use crate::errors::{Error, IoFailure, TransportFailure};
use crate::saml::{AwsRole, SAMLAssertion, MAX_ASSERTION_CHARS};
use crate::text::{
    chars_eq, chars_string, dec_rep, first_idx, is_digit, is_space, lemma_dec_rep_val,
    lemma_dec_round_trip, lemma_first_idx_is, lemma_split_step, lemma_split_whole, parse_dec,
    parse_dec_chars, split_char, split_vec, str_chars, trim, trim_back, trim_chars, trim_front,
    u64_dec_chars,
};

verus! {

/// Temporary cloud credentials, as the federation exchange returns them
/// and the credentials file stores them.  Immutable once constructed;
/// valid until `expiration`, in seconds since the epoch.
pub struct Credentials {
    pub access_key_id: String,
    pub secret_access_key: String,
    pub session_token: String,
    pub expiration: u64,
}

/// The mathematical content of a `Credentials` value.
pub struct CredentialsView {
    pub access_key_id: Seq<char>,
    pub secret_access_key: Seq<char>,
    pub session_token: Seq<char>,
    pub expiration: u64,
}

impl View for Credentials {
    type V = CredentialsView;

    open spec fn view(&self) -> CredentialsView {
        CredentialsView {
            access_key_id: self.access_key_id@,
            secret_access_key: self.secret_access_key@,
            session_token: self.session_token@,
            expiration: self.expiration,
        }
    }
}

/// What the token-exchange endpoint answered: a refusal, with its
/// status and body, or an acceptance with whichever credential fields
/// the response supplied.
pub enum ExchangeCallResult {
    Rejected { code: u16, body: String },
    Accepted {
        access_key_id: Option<String>,
        secret_access_key: Option<String>,
        session_token: Option<String>,
        expiration: Option<u64>,
    },
}

/// The cloud identity endpoint, as the library calls it.  The
/// production implementation performs the network calls and hands back
/// plain values; scripted implementations stand in for it in tests.
pub trait StsPort {
    /// The caller identity that the endpoint reports for these
    /// credentials, or `None` when the probe fails for any reason.
    fn get_caller_arn(&self, credentials: &Credentials) -> Option<String>;

    /// The token-exchange call: one attempt, no retry.
    fn assume_role_with_saml(
        &self,
        role_arn: &String,
        principal_arn: &String,
        assertion_b64: &String,
    ) -> Result<ExchangeCallResult, TransportFailure>;

    /// The secondary role-assumption call, authenticated with the given
    /// credentials.
    fn assume_role(&self, credentials: &Credentials, role_arn: &String) -> Result<
        ExchangeCallResult,
        TransportFailure,
    >;
}

/// The credentials an exchange answer carries: the refusal error for a
/// refusal, the malformed-response error for an acceptance missing any
/// field, and the credentials otherwise.
pub fn interpret_exchange(outcome: ExchangeCallResult) -> (r: Result<Credentials, Error>)
    ensures
        match outcome {
            ExchangeCallResult::Rejected { code, body } => r matches Err(e) && e matches
                Error::ExchangeRejected { code: c2, body: b2 } && c2 == code && b2@ == body@,
            ExchangeCallResult::Accepted {
                access_key_id: ak,
                secret_access_key: sk,
                session_token: st,
                expiration: exp,
            } => {
                if ak is Some && sk is Some && st is Some && exp is Some {
                    &&& r matches Ok(c)
                    &&& ak matches Some(a)
                    &&& c@.access_key_id == a@
                    &&& sk matches Some(s)
                    &&& c@.secret_access_key == s@
                    &&& st matches Some(t)
                    &&& c@.session_token == t@
                    &&& exp matches Some(x)
                    &&& c@.expiration == x
                } else {
                    r matches Err(e) && e is MalformedResponse
                }
            },
        },
{
    match outcome {
        ExchangeCallResult::Rejected { code, body } => Err(Error::ExchangeRejected { code, body }),
        ExchangeCallResult::Accepted {
            access_key_id: Some(access_key_id),
            secret_access_key: Some(secret_access_key),
            session_token: Some(session_token),
            expiration: Some(expiration),
        } => Ok(
            Credentials { access_key_id, secret_access_key, session_token, expiration },
        ),
        ExchangeCallResult::Accepted { .. } => Err(Error::MalformedResponse),
    }
}

/// The federation exchange: trades the assertion's base64 encoding and
/// the selected role for temporary credentials, in a single call.  A
/// refusal or a malformed answer is surfaced at once; this layer never
/// retries.
pub fn get_credentials_by_assume_role_with_saml<S: StsPort>(
    sts: &S,
    saml_assertion: &SAMLAssertion,
    selected_role: &AwsRole,
) -> (r: Result<Credentials, Error>)
    requires
        saml_assertion@.len() <= MAX_ASSERTION_CHARS,
    ensures
        r matches Err(e) ==> (e is Transport || e is ExchangeRejected || e is MalformedResponse),
{
    let encoded = saml_assertion.encoded_as_base64();
    match sts.assume_role_with_saml(
        &selected_role.role_arn,
        &selected_role.provider_arn,
        &encoded,
    ) {
        Err(t) => Err(Error::Transport { message: t.message }),
        Ok(outcome) => interpret_exchange(outcome),
    }
}

/// The secondary role assumption: trades existing credentials and a
/// role identifier for that role's temporary credentials, in a single
/// call.
pub fn assume_role<S: StsPort>(sts: &S, credentials: &Credentials, role_to_assume: &String) -> (r:
    Result<Credentials, Error>)
    ensures
        r matches Err(e) ==> (e is Transport || e is ExchangeRejected || e is MalformedResponse),
{
    match sts.assume_role(credentials, role_to_assume) {
        Err(t) => Err(Error::Transport { message: t.message }),
        Ok(outcome) => interpret_exchange(outcome),
    }
}

// ---------------------------------------------------------------------
// The credentials file.
// ---------------------------------------------------------------------

/// The key of the access-key entry.
pub open spec fn key_access() -> Seq<char> {
    "aws_access_key_id"@
}

/// The key of the secret-key entry.
pub open spec fn key_secret() -> Seq<char> {
    "aws_secret_access_key"@
}

/// The key of the session-token entry.
pub open spec fn key_token() -> Seq<char> {
    "aws_session_token"@
}

/// The key of the expiration entry.
pub open spec fn key_expiration() -> Seq<char> {
    "expiration"@
}

/// One `key = value` line of the file.
pub open spec fn kv_line(k: Seq<char>, v: Seq<char>) -> Seq<char> {
    k + " = "@ + v
}

/// The file text written for credentials: a blank line, the default
/// section header, and the four entries, each on its own line.
pub open spec fn render_spec(c: CredentialsView) -> Seq<char> {
    seq!['\n'] + "[default]"@ + seq!['\n'] + kv_line(key_access(), c.access_key_id) + seq!['\n']
        + kv_line(key_secret(), c.secret_access_key) + seq!['\n'] + kv_line(
        key_token(),
        c.session_token,
    ) + seq!['\n'] + kv_line(key_expiration(), dec_rep(c.expiration as nat)) + seq!['\n']
}

/// The lines of a file text.
pub open spec fn lines_of(s: Seq<char>) -> Seq<Seq<char>> {
    split_char(s, '\n')
}

/// The key and value of a line: the trimmed text on either side of the
/// first `=`, or `None` for a line without one.
pub open spec fn kv_of(line: Seq<char>) -> Option<(Seq<char>, Seq<char>)> {
    let i = first_idx(line, '=');
    if i == line.len() {
        None
    } else {
        Some((trim(line.take(i)), trim(line.skip(i + 1))))
    }
}

/// Whether a line opens some section.
pub open spec fn is_section_header(line: Seq<char>) -> bool {
    trim(line).len() > 0 && trim(line)[0] == '['
}

/// Whether a line opens the default section.
pub open spec fn is_default_header(line: Seq<char>) -> bool {
    trim(line) == "[default]"@
}

/// The lines before the next section header.
pub open spec fn lines_until_header(lines: Seq<Seq<char>>) -> Seq<Seq<char>>
    decreases lines.len(),
{
    if lines.len() == 0 || is_section_header(lines[0]) {
        Seq::empty()
    } else {
        seq![lines[0]] + lines_until_header(lines.drop_first())
    }
}

/// The body of the default section: the lines between the first
/// default header and the following section header.
pub open spec fn section_body(lines: Seq<Seq<char>>) -> Seq<Seq<char>>
    decreases lines.len(),
{
    if lines.len() == 0 {
        Seq::empty()
    } else if is_default_header(lines[0]) {
        lines_until_header(lines.drop_first())
    } else {
        section_body(lines.drop_first())
    }
}

/// The value of the first line carrying `key`.
pub open spec fn find_value(lines: Seq<Seq<char>>, key: Seq<char>) -> Option<Seq<char>>
    decreases lines.len(),
{
    if lines.len() == 0 {
        None
    } else {
        match kv_of(lines[0]) {
            Some(kv) => if kv.0 == key {
                Some(kv.1)
            } else {
                find_value(lines.drop_first(), key)
            },
            None => find_value(lines.drop_first(), key),
        }
    }
}

/// The credentials a file text holds: present only when the default
/// section carries all three of the access key, the secret key and the
/// session token.  A missing or unreadable expiration entry reads as
/// zero, an expiry long past.
pub open spec fn parse_credentials_spec(s: Seq<char>) -> Option<CredentialsView> {
    let sec = section_body(lines_of(s));
    match (find_value(sec, key_access()), find_value(sec, key_secret()), find_value(
        sec,
        key_token(),
    )) {
        (Some(a), Some(k), Some(t)) => Some(
            CredentialsView {
                access_key_id: a,
                secret_access_key: k,
                session_token: t,
                expiration: match find_value(sec, key_expiration()) {
                    Some(e) => parse_dec(e),
                    None => 0,
                },
            },
        ),
        _ => None,
    }
}

/// A copy of one character range of `v`.
fn copy_range(v: &Vec<char>, from: usize, to: usize) -> (r: Vec<char>)
    requires
        from <= to <= v@.len(),
    ensures
        r@ == v@.subrange(from as int, to as int),
{
    let mut r: Vec<char> = Vec::new();
    let mut i: usize = from;
    while i < to
        invariant
            from <= i <= to <= v@.len(),
            r@ == v@.subrange(from as int, i as int),
        decreases to - i,
    {
        r.push(v[i]);
        assert(r@ =~= v@.subrange(from as int, i as int + 1));
        i = i + 1;
    }
    r
}

/// The index of the first `c` in `v`, or the length when absent.
fn find_first(v: &Vec<char>, c: char) -> (r: usize)
    ensures
        r == first_idx(v@, c),
{
    let mut i: usize = 0;
    while i < v.len()
        invariant
            i <= v@.len(),
            forall|j: int| 0 <= j < i ==> v@[j] != c,
        decreases v@.len() - i,
    {
        if v[i] == c {
            proof {
                lemma_first_idx_is(v@, c, i as int);
            }
            return i;
        }
        i = i + 1;
    }
    proof {
        lemma_first_idx_is(v@, c, v@.len() as int);
    }
    i
}

/// Exec mirror of `kv_of`.
fn kv_of_line(line: &Vec<char>) -> (r: Option<(Vec<char>, Vec<char>)>)
    ensures
        match kv_of(line@) {
            Some(kv) => r matches Some(x) && x.0@ == kv.0 && x.1@ == kv.1,
            None => r is None,
        },
{
    let i = find_first(line, '=');
    if i == line.len() {
        None
    } else {
        proof {
            crate::text::lemma_first_idx(line@, '=');
        }
        let left = copy_range(line, 0, i);
        let right = copy_range(line, i + 1, line.len());
        assert(left@ == line@.take(i as int));
        assert(right@ == line@.skip(i as int + 1));
        Some((trim_chars(&left), trim_chars(&right)))
    }
}

/// Exec mirror of `is_section_header`.
fn is_section_header_line(line: &Vec<char>) -> (r: bool)
    ensures
        r == is_section_header(line@),
{
    let t = trim_chars(line);
    t.len() > 0 && t[0] == '['
}

/// Exec mirror of `is_default_header`.
fn is_default_header_line(line: &Vec<char>) -> (r: bool)
    ensures
        r == is_default_header(line@),
{
    let t = trim_chars(line);
    let pat = str_chars("[default]");
    chars_eq(&t, &pat)
}

/// The body of the default section among `lines`, from `from` on.
fn section_body_from(lines: &Vec<Vec<char>>, from: usize) -> (r: Vec<Vec<char>>)
    requires
        from <= lines@.len(),
    ensures
        r.deep_view() == section_body(lines.deep_view().skip(from as int)),
    decreases lines@.len() - from,
{
    let ghost dv = lines.deep_view();
    if from >= lines.len() {
        assert(dv.skip(from as int).len() == 0);
        let r: Vec<Vec<char>> = Vec::new();
        assert(r.deep_view() =~= section_body(dv.skip(from as int)));
        return r;
    }
    assert(lines@[from as int].deep_view() =~= lines@[from as int]@);
    assert(dv.skip(from as int)[0] == dv[from as int]);
    assert(dv.skip(from as int).drop_first() =~= dv.skip(from as int + 1));
    if is_default_header_line(&lines[from]) {
        lines_until_header_from(lines, from + 1)
    } else {
        section_body_from(lines, from + 1)
    }
}

/// The lines from `from` on, up to the next section header.
fn lines_until_header_from(lines: &Vec<Vec<char>>, from: usize) -> (r: Vec<Vec<char>>)
    requires
        from <= lines@.len(),
    ensures
        r.deep_view() == lines_until_header(lines.deep_view().skip(from as int)),
    decreases lines@.len() - from,
{
    let ghost dv = lines.deep_view();
    if from >= lines.len() {
        assert(dv.skip(from as int).len() == 0);
        let r: Vec<Vec<char>> = Vec::new();
        assert(r.deep_view() =~= lines_until_header(dv.skip(from as int)));
        return r;
    }
    assert(lines@[from as int].deep_view() =~= lines@[from as int]@);
    assert(dv.skip(from as int)[0] == dv[from as int]);
    assert(dv.skip(from as int).drop_first() =~= dv.skip(from as int + 1));
    if is_section_header_line(&lines[from]) {
        let r: Vec<Vec<char>> = Vec::new();
        assert(r.deep_view() =~= lines_until_header(dv.skip(from as int)));
        r
    } else {
        let mut r = lines_until_header_from(lines, from + 1);
        let ghost tail = r.deep_view();
        let head = copy_range(&lines[from], 0, lines[from].len());
        assert(head@ == lines@[from as int]@);
        r.insert(0, head);
        assert(r.deep_view() =~= seq![dv.skip(from as int)[0]] + tail);
        r
    }
}

/// Exec mirror of `find_value`.
fn find_value_in(lines: &Vec<Vec<char>>, key: &Vec<char>) -> (r: Option<Vec<char>>)
    ensures
        match find_value(lines.deep_view(), key@) {
            Some(v) => r matches Some(x) && x@ == v,
            None => r is None,
        },
{
    let ghost dv = lines.deep_view();
    let mut i: usize = 0;
    assert(dv.skip(0) =~= dv);
    while i < lines.len()
        invariant
            i <= dv.len(),
            dv.len() == lines@.len(),
            dv == lines.deep_view(),
            find_value(dv, key@) == find_value(dv.skip(i as int), key@),
        decreases dv.len() - i,
    {
        assert(lines@[i as int].deep_view() =~= lines@[i as int]@);
        assert(dv.skip(i as int)[0] == dv[i as int]);
        assert(dv.skip(i as int).drop_first() =~= dv.skip(i as int + 1));
        match kv_of_line(&lines[i]) {
            Some(kv) => {
                if chars_eq(&kv.0, key) {
                    return Some(kv.1);
                }
            },
            None => {},
        }
        i = i + 1;
    }
    None
}

/// The credentials a file text holds, exactly as
/// `parse_credentials_spec` reads it: `None` unless the default section
/// carries the access key, the secret key and the session token.
pub fn lookup_credentials(content: &String) -> (r: Option<Credentials>)
    ensures
        match parse_credentials_spec(content@) {
            Some(cv) => r matches Some(c) && c@ == cv,
            None => r is None,
        },
{
    let chars = str_chars(content.as_str());
    let lines = split_vec(&chars, '\n');
    assert(lines.deep_view().skip(0) =~= lines.deep_view());
    let sec = section_body_from(&lines, 0);
    let a = find_value_in(&sec, &str_chars("aws_access_key_id"));
    let k = find_value_in(&sec, &str_chars("aws_secret_access_key"));
    let t = find_value_in(&sec, &str_chars("aws_session_token"));
    match (a, k, t) {
        (Some(a), Some(k), Some(t)) => {
            let expiration = match find_value_in(&sec, &str_chars("expiration")) {
                Some(e) => parse_dec_chars(&e),
                None => 0,
            };
            Some(
                Credentials {
                    access_key_id: chars_string(&a),
                    secret_access_key: chars_string(&k),
                    session_token: chars_string(&t),
                    expiration,
                },
            )
        },
        _ => None,
    }
}

/// The file text for credentials, exactly as `render_spec` lays it out.
pub fn render_credentials(c: &Credentials) -> (r: String)
    ensures
        r@ == render_spec(c@),
{
    let mut s = String::new();
    s.append("\n");
    s.append("[default]");
    s.append("\n");
    s.append("aws_access_key_id");
    s.append(" = ");
    s.append(c.access_key_id.as_str());
    s.append("\n");
    s.append("aws_secret_access_key");
    s.append(" = ");
    s.append(c.secret_access_key.as_str());
    s.append("\n");
    s.append("aws_session_token");
    s.append(" = ");
    s.append(c.session_token.as_str());
    s.append("\n");
    s.append("expiration");
    s.append(" = ");
    let digits = u64_dec_chars(c.expiration);
    let digit_str = chars_string(&digits);
    s.append(digit_str.as_str());
    s.append("\n");
    proof {
        reveal_strlit("\n");
        assert("\n"@ =~= seq!['\n']);
        assert(s@ =~= render_spec(c@));
    }
    s
}

/// A field the store round-trips exactly: a single line with no
/// whitespace at either edge.
pub open spec fn wf_field(s: Seq<char>) -> bool {
    (forall|j: int| 0 <= j < s.len() ==> s[j] != '\n') && (s.len() > 0 ==> !is_space(s[0])
        && !is_space(s.last()))
}

/// Credentials whose three text fields the store round-trips exactly.
pub open spec fn wf_credentials(c: CredentialsView) -> bool {
    wf_field(c.access_key_id) && wf_field(c.secret_access_key) && wf_field(c.session_token)
}

/// Trimming the front changes nothing when the first character is not
/// whitespace.
proof fn lemma_trim_front_id(s: Seq<char>)
    requires
        s.len() > 0 ==> !is_space(s[0]),
    ensures
        trim_front(s) == s,
{
}

/// Trimming the back changes nothing when the last character is not
/// whitespace.
proof fn lemma_trim_back_id(s: Seq<char>)
    requires
        s.len() > 0 ==> !is_space(s.last()),
    ensures
        trim_back(s) == s,
{
}

/// Trimming keeps a non-whitespace head in place.
proof fn lemma_trim_back_head(s: Seq<char>)
    requires
        s.len() > 0,
        !is_space(s[0]),
    ensures
        trim_back(s).len() > 0,
        trim_back(s)[0] == s[0],
    decreases s.len(),
{
    if is_space(s.last()) {
        assert(s.len() >= 2);
        assert(s.drop_last()[0] == s[0]);
        lemma_trim_back_head(s.drop_last());
    }
}

/// Trimming keeps a non-whitespace head in place.
proof fn lemma_trim_head(s: Seq<char>)
    requires
        s.len() > 0,
        !is_space(s[0]),
    ensures
        trim(s).len() > 0,
        trim(s)[0] == s[0],
{
    lemma_trim_front_id(s);
    lemma_trim_back_head(s);
}

/// A key-value line built from a key and a single-line value holds no
/// line break.
proof fn lemma_kv_line_no_nl(k: Seq<char>, v: Seq<char>)
    requires
        forall|j: int| 0 <= j < k.len() ==> k[j] != '\n',
        forall|j: int| 0 <= j < v.len() ==> v[j] != '\n',
    ensures
        forall|j: int| 0 <= j < kv_line(k, v).len() ==> kv_line(k, v)[j] != '\n',
{
    reveal_strlit(" = ");
    let l = kv_line(k, v);
    assert forall|j: int| 0 <= j < l.len() implies l[j] != '\n' by {
        if j < k.len() {
            assert(l[j] == k[j]);
        } else if j < k.len() + 3 {
            assert(l[j] == " = "@[j - k.len()]);
        } else {
            assert(l[j] == v[j - k.len() - 3]);
        }
    }
}

/// Reading a rendered key-value line back gives the key and the value.
proof fn lemma_kv_of_line(k: Seq<char>, v: Seq<char>)
    requires
        k.len() > 0,
        !is_space(k[0]),
        !is_space(k.last()),
        forall|j: int| 0 <= j < k.len() ==> k[j] != '=',
        v.len() > 0 ==> !is_space(v[0]) && !is_space(v.last()),
    ensures
        kv_of(kv_line(k, v)) == Some((k, v)),
{
    reveal_strlit(" = ");
    let l = kv_line(k, v);
    assert(l[k.len() as int] == ' ');
    assert(l[k.len() as int + 1] == '=');
    assert forall|j: int| 0 <= j < k.len() + 1 implies l[j] != '=' by {
        if j < k.len() {
            assert(l[j] == k[j]);
        }
    }
    lemma_first_idx_is(l, '=', k.len() as int + 1);
    let left = l.take(k.len() as int + 1);
    let right = l.skip(k.len() as int + 2);
    assert(left =~= k + seq![' ']);
    assert(right =~= seq![' '] + v);
    assert(left.drop_last() =~= k);
    assert(trim_front(left) == left) by {
        lemma_trim_front_id(k);
        assert(left[0] == k[0]);
    }
    assert(trim_back(left) == k) by {
        assert(left.last() == ' ');
        lemma_trim_back_id(k);
    }
    assert(trim(left) == k);
    assert(right.drop_first() =~= v);
    assert(trim_front(right) == v) by {
        lemma_trim_front_id(v);
    }
    assert(trim_back(v) == v) by {
        lemma_trim_back_id(v);
    }
    assert(trim(right) == v);
}

/// A digit is none of the characters the file layout gives a meaning
/// to.
proof fn lemma_digit_plain(c: char)
    requires
        is_digit(c),
    ensures
        !is_space(c),
        c != '=',
        c != '[',
        c != '\n',
{
}

/// The line a rendered credentials text is made of.
spec fn rendered_lines(c: CredentialsView) -> Seq<Seq<char>> {
    seq![
        Seq::<char>::empty(),
        "[default]"@,
        kv_line(key_access(), c.access_key_id),
        kv_line(key_secret(), c.secret_access_key),
        kv_line(key_token(), c.session_token),
        kv_line(key_expiration(), dec_rep(c.expiration as nat)),
        Seq::<char>::empty(),
    ]
}

/// The rendering of a digit sequence has no layout character in it.
proof fn lemma_digits_plain(d: Seq<char>)
    requires
        forall|j: int| 0 <= j < d.len() ==> is_digit(#[trigger] d[j]),
    ensures
        forall|j: int| 0 <= j < d.len() ==> d[j] != '\n',
        d.len() > 0 ==> !is_space(d[0]) && !is_space(d.last()),
{
    assert forall|j: int| 0 <= j < d.len() implies d[j] != '\n' by {
        lemma_digit_plain(d[j]);
    }
    if d.len() > 0 {
        lemma_digit_plain(d[0]);
        lemma_digit_plain(d.last());
    }
}

/// A rendered credentials text splits into exactly its seven lines.
proof fn lemma_render_lines(c: CredentialsView)
    requires
        wf_credentials(c),
    ensures
        lines_of(render_spec(c)) == rendered_lines(c),
{
    reveal_strlit("[default]");
    reveal_strlit("aws_access_key_id");
    reveal_strlit("aws_secret_access_key");
    reveal_strlit("aws_session_token");
    reveal_strlit("expiration");
    let d = dec_rep(c.expiration as nat);
    lemma_dec_rep_val(c.expiration as nat);
    lemma_digits_plain(d);
    let l1 = kv_line(key_access(), c.access_key_id);
    let l2 = kv_line(key_secret(), c.secret_access_key);
    let l3 = kv_line(key_token(), c.session_token);
    let l4 = kv_line(key_expiration(), d);
    let hdr = "[default]"@;
    let e = Seq::<char>::empty();
    let r = render_spec(c);
    lemma_kv_line_no_nl(key_access(), c.access_key_id);
    lemma_kv_line_no_nl(key_secret(), c.secret_access_key);
    lemma_kv_line_no_nl(key_token(), c.session_token);
    lemma_kv_line_no_nl(key_expiration(), d);
    let rest1 = hdr + seq!['\n'] + l1 + seq!['\n'] + l2 + seq!['\n'] + l3 + seq!['\n'] + l4 + seq![
        '\n',
    ];
    let rest2 = l1 + seq!['\n'] + l2 + seq!['\n'] + l3 + seq!['\n'] + l4 + seq!['\n'];
    let rest3 = l2 + seq!['\n'] + l3 + seq!['\n'] + l4 + seq!['\n'];
    let rest4 = l3 + seq!['\n'] + l4 + seq!['\n'];
    let rest5 = l4 + seq!['\n'];
    assert(r =~= e + seq!['\n'] + rest1);
    lemma_split_step(e, rest1, '\n');
    assert(rest1 =~= hdr + seq!['\n'] + rest2);
    lemma_split_step(hdr, rest2, '\n');
    assert(rest2 =~= l1 + seq!['\n'] + rest3);
    lemma_split_step(l1, rest3, '\n');
    assert(rest3 =~= l2 + seq!['\n'] + rest4);
    lemma_split_step(l2, rest4, '\n');
    assert(rest4 =~= l3 + seq!['\n'] + rest5);
    lemma_split_step(l3, rest5, '\n');
    assert(rest5 =~= l4 + seq!['\n'] + e);
    lemma_split_step(l4, e, '\n');
    lemma_split_whole(e, '\n');
    assert(split_char(r, '\n') == seq![e] + split_char(rest1, '\n'));
    assert(lines_of(r) =~= rendered_lines(c));
}

/// The default section of a rendered credentials text is its four
/// entry lines and the final empty line.
proof fn lemma_render_section(c: CredentialsView)
    ensures
        section_body(rendered_lines(c)) == rendered_lines(c).skip(2),
{
    reveal_strlit("[default]");
    reveal_strlit("aws_access_key_id");
    reveal_strlit("aws_secret_access_key");
    reveal_strlit("aws_session_token");
    reveal_strlit("expiration");
    let d = dec_rep(c.expiration as nat);
    lemma_dec_rep_val(c.expiration as nat);
    lemma_digits_plain(d);
    let lines = rendered_lines(c);
    let l1 = kv_line(key_access(), c.access_key_id);
    let l2 = kv_line(key_secret(), c.secret_access_key);
    let l3 = kv_line(key_token(), c.session_token);
    let l4 = kv_line(key_expiration(), d);
    let hdr = "[default]"@;
    let e = Seq::<char>::empty();
    assert(!is_default_header(e));
    assert(is_default_header(hdr)) by {
        lemma_trim_front_id(hdr);
        lemma_trim_back_id(hdr);
    }
    assert(l1[0] == key_access()[0]);
    assert(l2[0] == key_secret()[0]);
    assert(l3[0] == key_token()[0]);
    assert(l4[0] == key_expiration()[0]);
    lemma_trim_head(l1);
    lemma_trim_head(l2);
    lemma_trim_head(l3);
    lemma_trim_head(l4);
    assert(!is_section_header(l1));
    assert(!is_section_header(l2));
    assert(!is_section_header(l3));
    assert(!is_section_header(l4));
    assert(!is_section_header(e));
    let sec = seq![l1, l2, l3, l4, e];
    assert(lines.skip(2) =~= sec);
    assert(lines[0] == e);
    assert(section_body(lines) == section_body(lines.drop_first()));
    let t1 = seq![hdr, l1, l2, l3, l4, e];
    assert(lines.drop_first() =~= t1);
    assert(t1[0] == hdr);
    assert(section_body(t1) == lines_until_header(t1.drop_first()));
    assert(t1.drop_first() =~= sec);
    let t2 = seq![l2, l3, l4, e];
    let t3 = seq![l3, l4, e];
    let t4 = seq![l4, e];
    let t5 = seq![e];
    assert(sec.drop_first() =~= t2);
    assert(t2.drop_first() =~= t3);
    assert(t3.drop_first() =~= t4);
    assert(t4.drop_first() =~= t5);
    assert(t5.drop_first() =~= Seq::<Seq<char>>::empty());
    assert(sec[0] == l1 && t2[0] == l2 && t3[0] == l3 && t4[0] == l4 && t5[0] == e);
    assert(lines_until_header(sec) == seq![l1] + lines_until_header(t2));
    assert(lines_until_header(t2) == seq![l2] + lines_until_header(t3));
    assert(lines_until_header(t3) == seq![l3] + lines_until_header(t4));
    assert(lines_until_header(t4) == seq![l4] + lines_until_header(t5));
    assert(lines_until_header(t5) == seq![e] + lines_until_header(Seq::<Seq<char>>::empty()));
    assert(lines_until_header(Seq::<Seq<char>>::empty()) == Seq::<Seq<char>>::empty());
    assert(lines_until_header(sec) =~= sec);
}

/// Each of the four keys finds its own value in the rendered section.
proof fn lemma_render_find(c: CredentialsView)
    requires
        wf_credentials(c),
    ensures
        find_value(rendered_lines(c).skip(2), key_access()) == Some(c.access_key_id),
        find_value(rendered_lines(c).skip(2), key_secret()) == Some(c.secret_access_key),
        find_value(rendered_lines(c).skip(2), key_token()) == Some(c.session_token),
        find_value(rendered_lines(c).skip(2), key_expiration()) == Some(
            dec_rep(c.expiration as nat),
        ),
{
    reveal_strlit("[default]");
    reveal_strlit("aws_access_key_id");
    reveal_strlit("aws_secret_access_key");
    reveal_strlit("aws_session_token");
    reveal_strlit("expiration");
    let ka = key_access();
    let ks = key_secret();
    let kt = key_token();
    let ke = key_expiration();
    let d = dec_rep(c.expiration as nat);
    lemma_dec_rep_val(c.expiration as nat);
    lemma_digits_plain(d);
    let l1 = kv_line(ka, c.access_key_id);
    let l2 = kv_line(ks, c.secret_access_key);
    let l3 = kv_line(kt, c.session_token);
    let l4 = kv_line(ke, d);
    let e = Seq::<char>::empty();
    let sec = seq![l1, l2, l3, l4, e];
    assert(rendered_lines(c).skip(2) =~= sec);
    lemma_kv_of_line(ka, c.access_key_id);
    lemma_kv_of_line(ks, c.secret_access_key);
    lemma_kv_of_line(kt, c.session_token);
    lemma_kv_of_line(ke, d);
    assert(kv_of(e) is None);
    assert(ka.len() == 17 && ks.len() == 21 && kt.len() == 17 && ke.len() == 10);
    assert(ka[4] == 'a' && kt[4] == 's');
    assert(ka != kt);
    let t2 = seq![l2, l3, l4, e];
    let t3 = seq![l3, l4, e];
    let t4 = seq![l4, e];
    let t5 = seq![e];
    assert(sec.drop_first() =~= t2);
    assert(t2.drop_first() =~= t3);
    assert(t3.drop_first() =~= t4);
    assert(t4.drop_first() =~= t5);
    assert(t5.drop_first() =~= Seq::<Seq<char>>::empty());
    assert(sec[0] == l1 && t2[0] == l2 && t3[0] == l3 && t4[0] == l4 && t5[0] == e);
    assert(find_value(sec, ka) == Some(c.access_key_id));
    assert(find_value(sec, ks) == find_value(t2, ks));
    assert(find_value(t2, ks) == Some(c.secret_access_key));
    assert(find_value(sec, kt) == find_value(t2, kt));
    assert(find_value(t2, kt) == find_value(t3, kt));
    assert(find_value(t3, kt) == Some(c.session_token));
    assert(find_value(sec, ke) == find_value(t2, ke));
    assert(find_value(t2, ke) == find_value(t3, ke));
    assert(find_value(t3, ke) == find_value(t4, ke));
    assert(find_value(t4, ke) == Some(d));
    assert(find_value(rendered_lines(c).skip(2), ka) == Some(c.access_key_id));
    assert(find_value(rendered_lines(c).skip(2), ks) == Some(c.secret_access_key));
    assert(find_value(rendered_lines(c).skip(2), kt) == Some(c.session_token));
    assert(find_value(rendered_lines(c).skip(2), ke) == Some(d));
}

/// Store round-trip law: reading back a rendered credentials text
/// yields exactly the four fields that were written.
pub proof fn lemma_store_round_trip(c: CredentialsView)
    requires
        wf_credentials(c),
    ensures
        parse_credentials_spec(render_spec(c)) == Some(c),
{
    lemma_render_lines(c);
    lemma_render_section(c);
    lemma_render_find(c);
    lemma_dec_round_trip(c.expiration);
    assert(parse_credentials_spec(render_spec(c)) == Some(c));
}

/// The credentials file, as the library reaches it.  The production
/// implementation holds the path and performs the file I/O; scripted
/// implementations stand in for it in tests.
pub trait CredentialsFile {
    /// Creates an empty file when none exists, so that a later read
    /// never fails for absence alone.
    fn ensure_exists(&self) -> Result<(), IoFailure>;

    /// The whole file text.
    fn read(&self) -> Result<String, IoFailure>;

    /// Replaces the whole file text.
    fn write(&self, content: &String) -> Result<(), IoFailure>;
}

/// Makes sure the credentials file exists; only a failing file
/// operation is an error.
pub fn ensure_exists<F: CredentialsFile>(file: &F) -> (r: Result<(), Error>)
    ensures
        r matches Err(e) ==> e is Io,
{
    match file.ensure_exists() {
        Err(f) => Err(Error::Io { message: f.message }),
        Ok(u) => Ok(u),
    }
}

/// Loads the stored credentials: what `lookup_credentials` reads from
/// the file text.  A file without the three required keys loads as
/// `None`, which is a normal branch; only a failing read is an error.
pub fn load<F: CredentialsFile>(file: &F) -> (r: Result<Option<Credentials>, Error>)
    ensures
        r matches Err(e) ==> e is Io,
{
    match file.read() {
        Err(f) => Err(Error::Io { message: f.message }),
        Ok(content) => Ok(lookup_credentials(&content)),
    }
}

/// Saves credentials: writes the file text that `render_spec` lays
/// out, replacing what was there.  Only a failing write is an error.
pub fn save<F: CredentialsFile>(file: &F, credentials: &Credentials) -> (r: Result<(), Error>)
    ensures
        r matches Err(e) ==> e is Io,
{
    let content = render_credentials(credentials);
    match file.write(&content) {
        Err(f) => Err(Error::Io { message: f.message }),
        Ok(u) => Ok(u),
    }
}

/// A file whose default section lacks any one of the three required
/// keys reads as no credentials at all, not as an error.
pub proof fn lemma_load_requires_keys(s: Seq<char>)
    ensures
        find_value(section_body(lines_of(s)), key_access()) is None ==> parse_credentials_spec(s)
            is None,
        find_value(section_body(lines_of(s)), key_secret()) is None ==> parse_credentials_spec(s)
            is None,
        find_value(section_body(lines_of(s)), key_token()) is None ==> parse_credentials_spec(s)
            is None,
{
}

} // verus!
