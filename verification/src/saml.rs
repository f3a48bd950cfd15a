//! The assertion codec: base64 encoding of the assertion text and
//! extraction of the authorized role/principal pairs from its XML
//! attribute structure.

use vstd::prelude::*;

use crate::errors::Error;
use crate::text::{
    chars_string, contains_sub, is_space, lemma_split_step, lemma_split_whole, split_char,
    split_vec, str_chars, trim, trim_chars, vec_contains_sub,
};

verus! {

/// One authorization entry of an assertion: which role may be assumed,
/// and through which federation principal.
pub struct AwsRole {
    pub provider_arn: String,
    pub role_arn: String,
}

/// The mathematical content of an `AwsRole`.
pub struct AwsRoleView {
    pub provider_arn: Seq<char>,
    pub role_arn: Seq<char>,
}

impl View for AwsRole {
    type V = AwsRoleView;

    open spec fn view(&self) -> AwsRoleView {
        AwsRoleView { provider_arn: self.provider_arn@, role_arn: self.role_arn@ }
    }
}

impl DeepView for AwsRole {
    type V = AwsRoleView;

    open spec fn deep_view(&self) -> AwsRoleView {
        self.view()
    }
}

impl AwsRole {
    pub fn new(provider_arn: String, role_arn: String) -> (r: Self)
        ensures
            r@.provider_arn == provider_arn@,
            r@.role_arn == role_arn@,
    {
        Self { provider_arn, role_arn }
    }
}

/// A signed statement from the identity provider, as raw XML text.
pub struct SAMLAssertion {
    pub assertion: String,
}

impl View for SAMLAssertion {
    type V = Seq<char>;

    open spec fn view(&self) -> Seq<char> {
        self.assertion@
    }
}

/// The longest assertion text the codec accepts, in characters; far
/// beyond any real assertion, it keeps the encoded size within `usize`.
pub const MAX_ASSERTION_CHARS: u64 = 0x1000_0000_0000_0000;

/// The standard-alphabet base64 encoding of the UTF-8 bytes of `s`.
pub uninterp spec fn b64_of(s: Seq<char>) -> Seq<char>;

/// The text values under the first element of `xml` whose `Name`
/// attribute equals `name`: one entry per element child that holds
/// text, or `None` when the document does not parse or holds no such
/// element.
pub uninterp spec fn attr_values_of(xml: Seq<char>, name: Seq<char>) -> Option<Seq<Seq<char>>>;

/// Relies on roxmltree (`Document::parse` and node navigation): parses
/// `xml` and hands back the text of each element child of the first
/// element whose `Name` attribute equals `name`, passing over children
/// without text; `None` when the document does not parse or no such
/// element exists.
#[verifier::external_body]
fn xml_attribute_values(xml: &str, name: &str) -> (r: Option<Vec<String>>)
    ensures
        match attr_values_of(xml@, name@) {
            Some(vs) => r matches Some(v) && v.deep_view() == vs,
            None => r is None,
        },
{
    let doc = match roxmltree::Document::parse(xml) {
        Ok(d) => d,
        Err(_) => return None,
    };
    let element = doc.descendants().find(|n| n.attribute("Name") == Some(name))?;
    Some(
        element.children().filter_map(
            |e| if e.is_element() { e.text().map(|t| t.to_string()) } else { None },
        ).collect(),
    )
}

/// The token that names a role inside an authorization pair.
pub open spec fn role_marker() -> Seq<char> {
    ":role/"@
}

/// The token that names a federation principal inside an authorization
/// pair.
pub open spec fn provider_marker() -> Seq<char> {
    ":saml-provider/"@
}

/// The first of `parts` in which `marker` occurs.
pub open spec fn first_with(parts: Seq<Seq<char>>, marker: Seq<char>) -> Option<Seq<char>>
    decreases parts.len(),
{
    if parts.len() == 0 {
        None
    } else if contains_sub(parts[0], marker) {
        Some(parts[0])
    } else {
        first_with(parts.drop_first(), marker)
    }
}

/// What `first_with` returns occurs among the parts and holds the
/// marker.
pub proof fn lemma_first_with_contains(parts: Seq<Seq<char>>, marker: Seq<char>)
    ensures
        first_with(parts, marker) matches Some(p) ==> contains_sub(p, marker),
    decreases parts.len(),
{
    if parts.len() > 0 && !contains_sub(parts[0], marker) {
        lemma_first_with_contains(parts.drop_first(), marker);
    }
}

/// One authorization entry read from one attribute value: the value is
/// trimmed and split at commas, and the role and the principal are the
/// first comma-separated tokens holding their markers, in either order.
/// `None` when either marker is missing.
pub open spec fn parse_pair(v: Seq<char>) -> Option<AwsRoleView> {
    let parts = split_char(trim(v), ',');
    match (first_with(parts, role_marker()), first_with(parts, provider_marker())) {
        (Some(r), Some(p)) => Some(AwsRoleView { provider_arn: p, role_arn: r }),
        _ => None,
    }
}

/// Whether every attribute value parses as an authorization pair.
pub open spec fn all_pairs_ok(vs: Seq<Seq<char>>) -> bool {
    forall|j: int| 0 <= j < vs.len() ==> parse_pair(#[trigger] vs[j]) is Some
}

/// The authorization entries of a list of attribute values, one per
/// value.
pub open spec fn roles_of(vs: Seq<Seq<char>>) -> Seq<AwsRoleView> {
    Seq::new(vs.len(), |j: int| parse_pair(vs[j]).unwrap())
}

/// The index of the first of `parts` in which `marker` occurs.
fn first_with_index(parts: &Vec<Vec<char>>, marker: &Vec<char>) -> (r: Option<usize>)
    ensures
        match r {
            Some(ix) => ix < parts@.len() && first_with(parts.deep_view(), marker@) == Some(
                parts.deep_view()[ix as int],
            ),
            None => first_with(parts.deep_view(), marker@) is None,
        },
{
    let ghost dv = parts.deep_view();
    let mut i: usize = 0;
    assert(dv.skip(0) =~= dv);
    while i < parts.len()
        invariant
            i <= dv.len(),
            dv.len() == parts@.len(),
            dv == parts.deep_view(),
            first_with(dv, marker@) == first_with(dv.skip(i as int), marker@),
        decreases dv.len() - i,
    {
        assert(parts@[i as int].deep_view() =~= parts@[i as int]@);
        if vec_contains_sub(&parts[i], marker) {
            assert(dv.skip(i as int)[0] == dv[i as int]);
            return Some(i);
        }
        assert(dv.skip(i as int).drop_first() =~= dv.skip(i as int + 1));
        i = i + 1;
    }
    None
}

/// One authorization entry read from one attribute value, or `None`
/// when the value does not split into both markers.
pub fn parse_pair_value(value: &String) -> (r: Option<AwsRole>)
    ensures
        match parse_pair(value@) {
            Some(rv) => r matches Some(x) && x@ == rv,
            None => r is None,
        },
{
    let chars = str_chars(value.as_str());
    let trimmed = trim_chars(&chars);
    let parts = split_vec(&trimmed, ',');
    let role_marker_chars = str_chars(":role/");
    let provider_marker_chars = str_chars(":saml-provider/");
    let ri = first_with_index(&parts, &role_marker_chars);
    let pi = first_with_index(&parts, &provider_marker_chars);
    match (ri, pi) {
        (Some(ri), Some(pi)) => {
            let role_arn = chars_string(&parts[ri]);
            let provider_arn = chars_string(&parts[pi]);
            assert(parts@[ri as int].deep_view() =~= parts@[ri as int]@);
            assert(parts@[pi as int].deep_view() =~= parts@[pi as int]@);
            Some(AwsRole::new(provider_arn, role_arn))
        },
        _ => None,
    }
}

/// The authorization entries of a list of attribute values: one entry
/// per value when every value parses and at least one is present, and
/// the malformed-assertion error otherwise.
pub fn roles_from_values(values: &Vec<String>) -> (r: Result<Vec<AwsRole>, Error>)
    ensures
        match r {
            Ok(roles) => all_pairs_ok(values.deep_view()) && values.deep_view().len() > 0
                && roles.deep_view() == roles_of(values.deep_view()),
            Err(e) => e is MalformedAssertion && (!all_pairs_ok(values.deep_view())
                || values.deep_view().len() == 0),
        },
{
    let ghost vs = values.deep_view();
    let mut roles: Vec<AwsRole> = Vec::new();
    let mut i: usize = 0;
    while i < values.len()
        invariant
            i <= vs.len(),
            vs.len() == values@.len(),
            vs == values.deep_view(),
            forall|j: int| 0 <= j < i ==> parse_pair(#[trigger] vs[j]) is Some,
            roles.deep_view().len() == i,
            forall|j: int|
                0 <= j < i ==> roles.deep_view()[j] == parse_pair(#[trigger] vs[j]).unwrap(),
        decreases vs.len() - i,
    {
        assert(values[i as int].deep_view() == vs[i as int]);
        let ghost dv0 = roles.deep_view();
        match parse_pair_value(&values[i]) {
            None => {
                assert(parse_pair(vs[i as int]) is None);
                return Err(Error::MalformedAssertion);
            },
            Some(role) => {
                let ghost rv = role@;
                roles.push(role);
                assert(roles.deep_view() =~= dv0.push(rv));
            },
        }
        i = i + 1;
    }
    if roles.len() == 0 {
        assert(vs.len() == 0);
        return Err(Error::MalformedAssertion);
    }
    assert(roles.deep_view().len() == roles@.len());
    assert(roles.deep_view() =~= roles_of(vs));
    Ok(roles)
}

impl SAMLAssertion {
    /// Relies on base64 `STANDARD.encode`: the standard-alphabet base64
    /// encoding of the assertion's UTF-8 bytes, a function of the text
    /// alone.  The length bound keeps the encoded size within `usize`,
    /// where the encoder would otherwise panic.
    #[verifier::external_body]
    pub fn encoded_as_base64(&self) -> (r: String)
        requires
            self@.len() <= MAX_ASSERTION_CHARS,
        ensures
            r@ == b64_of(self@),
    {
        base64::Engine::encode(&base64::engine::general_purpose::STANDARD, &self.assertion)
    }

    /// The authorized role/principal pairs of this assertion: one entry
    /// per value of the well-known roles attribute.  Fails with the
    /// malformed-assertion error when the attribute is absent, when a
    /// value does not split into both markers, and when the attribute
    /// holds no value at all; a successful result is never empty.
    pub fn extract_roles(&self) -> (r: Result<Vec<AwsRole>, Error>)
        ensures
            match attr_values_of(self@, "https://aws.amazon.com/SAML/Attributes/Role"@) {
                None => r matches Err(e) && e is MalformedAssertion,
                Some(vs) => match r {
                    Ok(roles) => all_pairs_ok(vs) && vs.len() > 0 && roles.deep_view() == roles_of(
                        vs,
                    ),
                    Err(e) => e is MalformedAssertion && (!all_pairs_ok(vs) || vs.len() == 0),
                },
            },
            r matches Ok(roles) ==> roles@.len() > 0,
    {
        match xml_attribute_values(
            self.assertion.as_str(),
            "https://aws.amazon.com/SAML/Attributes/Role",
        ) {
            None => Err(Error::MalformedAssertion),
            Some(values) => {
                let r = roles_from_values(&values);
                proof {
                    if r is Ok {
                        assert(r.unwrap().deep_view().len() == r.unwrap()@.len());
                    }
                }
                r
            },
        }
    }
}

/// Relies on base64 `STANDARD.decode` and `String::from_utf8`: decodes
/// a standard-alphabet base64 encoding and reads the bytes back as
/// UTF-8 text.  It succeeds on every value that `b64_of` names and
/// gives back exactly the text that was encoded; what it accepts beyond
/// those values is left open.  A decoded text is never longer than its
/// encoding, which is ASCII.
#[verifier::external_body]
pub(crate) fn decode_base64(s: &str) -> (r: Option<String>)
    ensures
        r is None ==> forall|t: Seq<char>| s@ != b64_of(t),
        r matches Some(d) ==> (forall|t: Seq<char>| s@ == b64_of(t) ==> d@ == t) && d@.len()
            <= s@.len(),
{
    let bytes = base64::Engine::decode(&base64::engine::general_purpose::STANDARD, s).ok()?;
    String::from_utf8(bytes).ok()
}

/// For a value list whose entries each split into a role and a
/// principal, extraction yields exactly one entry per value, each with
/// a non-empty role identifier and a non-empty principal identifier.
pub proof fn lemma_roles_shape(vs: Seq<Seq<char>>)
    requires
        all_pairs_ok(vs),
    ensures
        roles_of(vs).len() == vs.len(),
        forall|j: int|
            0 <= j < vs.len() ==> (#[trigger] roles_of(vs)[j]).role_arn.len() > 0 && roles_of(
                vs,
            )[j].provider_arn.len() > 0,
{
    reveal_strlit(":role/");
    reveal_strlit(":saml-provider/");
    assert forall|j: int|
        0 <= j < vs.len() implies (#[trigger] roles_of(vs)[j]).role_arn.len() > 0 && roles_of(
        vs,
    )[j].provider_arn.len() > 0 by {
        assert(parse_pair(vs[j]) is Some);
        let parts = split_char(trim(vs[j]), ',');
        lemma_first_with_contains(parts, role_marker());
        lemma_first_with_contains(parts, provider_marker());
        let rv = roles_of(vs)[j];
        crate::text::lemma_contains_sub_len(rv.role_arn, role_marker());
        crate::text::lemma_contains_sub_len(rv.provider_arn, provider_marker());
    }
}

/// A token fit for one side of an authorization pair: non-empty,
/// without commas, and without whitespace at either edge.
pub open spec fn pair_token(s: Seq<char>) -> bool {
    s.len() > 0 && !is_space(s[0]) && !is_space(s.last()) && (forall|j: int|
        0 <= j < s.len() ==> s[j] != ',')
}

/// Marker matching is order-independent: a pair whose two tokens hold
/// the role marker and the principal marker parses to the same entry
/// whichever of the two tokens comes first in the pair.
pub proof fn lemma_pair_order(x: Seq<char>, y: Seq<char>)
    requires
        pair_token(x),
        pair_token(y),
        contains_sub(x, role_marker()),
        !contains_sub(x, provider_marker()),
        contains_sub(y, provider_marker()),
        !contains_sub(y, role_marker()),
    ensures
        parse_pair(x + seq![','] + y) == Some(AwsRoleView { provider_arn: y, role_arn: x }),
        parse_pair(y + seq![','] + x) == Some(AwsRoleView { provider_arn: y, role_arn: x }),
{
    lemma_pair_one_order(x, y);
    lemma_pair_one_order(y, x);
}

/// Order independence over a whole value list: when each value of one
/// list is the comma-joined pair `x,y` and the matching value of the
/// other list is `y,x`, with `x` holding the role marker and `y` the
/// principal marker, both lists parse, and extraction yields the same
/// entry at every index.
pub proof fn lemma_roles_order_independent(
    vs1: Seq<Seq<char>>,
    vs2: Seq<Seq<char>>,
    xs: Seq<Seq<char>>,
    ys: Seq<Seq<char>>,
)
    requires
        vs1.len() == xs.len(),
        vs2.len() == xs.len(),
        ys.len() == xs.len(),
        forall|j: int| 0 <= j < xs.len() ==> #[trigger] vs1[j] == xs[j] + seq![','] + ys[j],
        forall|j: int| 0 <= j < xs.len() ==> #[trigger] vs2[j] == ys[j] + seq![','] + xs[j],
        forall|j: int|
            0 <= j < xs.len() ==> pair_token(#[trigger] xs[j]) && contains_sub(
                xs[j],
                role_marker(),
            ) && !contains_sub(xs[j], provider_marker()),
        forall|j: int|
            0 <= j < xs.len() ==> pair_token(#[trigger] ys[j]) && contains_sub(
                ys[j],
                provider_marker(),
            ) && !contains_sub(ys[j], role_marker()),
    ensures
        all_pairs_ok(vs1),
        all_pairs_ok(vs2),
        roles_of(vs1) == roles_of(vs2),
{
    assert forall|j: int|
        0 <= j < vs1.len() implies parse_pair(#[trigger] vs1[j]) == Some(
        AwsRoleView { provider_arn: ys[j], role_arn: xs[j] },
    ) by {
        lemma_pair_order(xs[j], ys[j]);
    }
    assert forall|j: int|
        0 <= j < vs2.len() implies parse_pair(#[trigger] vs2[j]) == Some(
        AwsRoleView { provider_arn: ys[j], role_arn: xs[j] },
    ) by {
        lemma_pair_order(xs[j], ys[j]);
    }
    assert(roles_of(vs1) =~= roles_of(vs2));
}

/// The common work of `lemma_pair_order`: parsing one concatenation
/// order picks each token by its marker.
proof fn lemma_pair_one_order(a: Seq<char>, b: Seq<char>)
    requires
        a.len() > 0,
        !is_space(a[0]),
        !is_space(a.last()),
        b.len() > 0,
        !is_space(b[0]),
        !is_space(b.last()),
        forall|j: int| 0 <= j < a.len() ==> a[j] != ',',
        forall|j: int| 0 <= j < b.len() ==> b[j] != ',',
    ensures
        split_char(trim(a + seq![','] + b), ',') == seq![a, b],
        first_with(seq![a, b], role_marker()) == (if contains_sub(a, role_marker()) {
            Some(a)
        } else if contains_sub(b, role_marker()) {
            Some(b)
        } else {
            None
        }),
        first_with(seq![a, b], provider_marker()) == (if contains_sub(a, provider_marker()) {
            Some(a)
        } else if contains_sub(b, provider_marker()) {
            Some(b)
        } else {
            None
        }),
{
    let s = a + seq![','] + b;
    assert(s[0] == a[0]);
    assert(s.last() == b.last());
    assert(crate::text::trim_front(s) == s);
    assert(crate::text::trim_back(s) == s);
    assert(trim(s) == s);
    lemma_split_step(a, b, ',');
    lemma_split_whole(b, ',');
    assert(split_char(s, ',') == seq![a] + seq![b]);
    assert(seq![a] + seq![b] =~= seq![a, b]);
    lemma_first_with_two(a, b, role_marker());
    lemma_first_with_two(a, b, provider_marker());
}

/// `first_with` on a two-part list picks the first part holding the
/// marker.
proof fn lemma_first_with_two(a: Seq<char>, b: Seq<char>, m: Seq<char>)
    ensures
        first_with(seq![a, b], m) == (if contains_sub(a, m) {
            Some(a)
        } else if contains_sub(b, m) {
            Some(b)
        } else {
            None
        }),
{
    let parts = seq![a, b];
    assert(parts[0] == a);
    assert(parts.drop_first() =~= seq![b]);
    assert(seq![b][0] == b);
    assert(seq![b].drop_first() =~= Seq::<Seq<char>>::empty());
    assert(first_with(Seq::<Seq<char>>::empty(), m) is None);
    if !contains_sub(a, m) {
        assert(first_with(parts, m) == first_with(seq![b], m));
    }
}

/// Round-trip law: decoding the base64 encoding of an assertion yields
/// exactly the assertion text.
pub fn base64_round_trip(a: &SAMLAssertion) -> (r: Option<String>)
    requires
        a@.len() <= MAX_ASSERTION_CHARS,
    ensures
        r matches Some(s) && s@ == a@,
{
    let encoded = a.encoded_as_base64();
    decode_base64(encoded.as_str())
}

} // verus!
