//! The document of a policy and the hash over it.

use crate::json::{hex_digit, json_quoted, json_string, json_string_is_readable};
use crate::path::{path_views, PathBuf};
use crate::policy::{views_of_roots, PolicyHashInput, PolicyView, ProtectedRoot, ProtectedRootKind, ProvenanceView, RootProvenance, RootView};
use crate::text::{decimal, decimal_injective, decimal_is_digits, decimal_text, texts};
use vstd::prelude::*;
use vstd::utf8::*;

verus! {

/// The digest of a byte string.
pub uninterp spec fn sha256_digest(data: Seq<u8>) -> Seq<u8>;

/// `Sha256::digest` of the crate `sha2`: the SHA-256 digest of `data`, which is
/// only named, of 32 bytes.
#[verifier::external_body]
fn sha256(data: &[u8]) -> (digest: Vec<u8>)
    ensures
        digest@ == sha256_digest(data@),
        digest@.len() == 32,
{
    <sha2::Sha256 as sha2::Digest>::digest(data).to_vec()
}

/// The two hexadecimal digits of each byte.
pub open spec fn hex_text(bytes: Seq<u8>) -> Seq<char>
    decreases bytes.len(),
{
    if bytes.len() == 0 {
        Seq::empty()
    } else {
        hex_text(bytes.drop_last()) + seq![
            hex_digit(bytes.last() as int / 16),
            hex_digit(bytes.last() as int % 16),
        ]
    }
}

fn hex_char(d: u8) -> (c: char)
    requires
        d < 16,
    ensures
        c == hex_digit(d as int),
{
    if d < 10 {
        (48 + d) as char
    } else {
        (87 + d) as char
    }
}

/// Whether a text is the hexadecimal form of a digest: sixty-four digits, in lower case.
pub open spec fn is_hash_text(text: Seq<char>) -> bool {
    &&& text.len() == 64
    &&& forall|i: int|
        0 <= i < text.len() ==> '0' <= #[trigger] text[i] <= '9' || 'a' <= text[i] <= 'f'
}

/// Two lower-case hexadecimal digits stand for each byte.
proof fn lemma_hex_text(bytes: Seq<u8>)
    ensures
        hex_text(bytes).len() == 2 * bytes.len(),
        forall|i: int|
            0 <= i < hex_text(bytes).len() ==> '0' <= #[trigger] hex_text(bytes)[i] <= '9' || 'a' <= hex_text(
                bytes,
            )[i] <= 'f',
    decreases bytes.len(),
{
    if bytes.len() > 0 {
        lemma_hex_text(bytes.drop_last());
        let before = hex_text(bytes.drop_last());
        let all = hex_text(bytes);
        assert forall|i: int| 0 <= i < all.len() implies '0' <= #[trigger] all[i] <= '9' || 'a' <= all[i] <= 'f' by {
            if i < before.len() {
                assert(all[i] == before[i]);
            }
        }
    }
}

/// Different bytes have different digits.
proof fn lemma_hex_text_injective(a: Seq<u8>, b: Seq<u8>)
    requires
        hex_text(a) == hex_text(b),
    ensures
        a == b,
    decreases a.len(),
{
    lemma_hex_text(a);
    lemma_hex_text(b);
    if a.len() > 0 {
        let (x, y) = (a.last(), b.last());
        let (p, q) = (hex_text(a.drop_last()), hex_text(b.drop_last()));
        lemma_hex_text(a.drop_last());
        lemma_hex_text(b.drop_last());
        let t = hex_text(a);
        assert(p =~= t.take(t.len() - 2));
        assert(q =~= t.take(t.len() - 2));
        lemma_hex_text_injective(a.drop_last(), b.drop_last());
        assert(t[t.len() - 2] == hex_digit(x as int / 16) && t[t.len() - 2] == hex_digit(y as int / 16));
        assert(t[t.len() - 1] == hex_digit(x as int % 16) && t[t.len() - 1] == hex_digit(y as int % 16));
        assert(x as int / 16 == y as int / 16);
        assert(x as int % 16 == y as int % 16);
        assert(x == y);
        assert(a =~= a.drop_last().push(x));
        assert(b =~= b.drop_last().push(y));
    } else {
        assert(a =~= b);
    }
}

/// The hexadecimal digits of a byte string.
pub fn hex_string(bytes: &Vec<u8>) -> (text: String)
    ensures
        text@ == hex_text(bytes@),
{
    let mut text = String::new();
    let mut i: usize = 0;
    assert(text@ =~= hex_text(bytes@.take(0)));
    while i < bytes.len()
        invariant
            i <= bytes.len(),
            text@ == hex_text(bytes@.take(i as int)),
        decreases bytes.len() - i,
    {
        let ghost before = text@;
        let b: u8 = bytes[i];
        text.push(hex_char(b / 16));
        text.push(hex_char(b % 16));
        i += 1;
        proof {
            assert(bytes@.take(i as int).drop_last() =~= bytes@.take(i - 1));
            assert(text@ =~= before + seq![hex_digit(b as int / 16), hex_digit(b as int % 16)]);
        }
    }
    assert(bytes@.take(bytes@.len() as int) =~= bytes@);
    text
}

/// Pieces with commas between them.
pub open spec fn comma_joined(items: Seq<Seq<char>>) -> Seq<char>
    decreases items.len(),
{
    if items.len() == 0 {
        Seq::empty()
    } else if items.len() == 1 {
        items[0]
    } else {
        comma_joined(items.drop_last()).push(',') + items.last()
    }
}

/// A JSON array of the given elements.
pub open spec fn json_array(items: Seq<Seq<char>>) -> Seq<char> {
    seq!['['] + comma_joined(items) + seq![']']
}

fn json_array_text(items: &Vec<String>) -> (text: String)
    ensures
        text@ == json_array(texts(items@)),
{
    let ghost all = texts(items@);
    let mut text = String::new();
    text.push('[');
    let mut i: usize = 0;
    assert(text@ =~= seq!['['] + comma_joined(all.take(0)));
    while i < items.len()
        invariant
            i <= items.len(),
            all == texts(items@),
            text@ == seq!['['] + comma_joined(all.take(i as int)),
        decreases items.len() - i,
    {
        let ghost before = comma_joined(all.take(i as int));
        if i > 0 {
            text.push(',');
        }
        text.append(items[i].as_str());
        i += 1;
        proof {
            let part = all.take(i as int);
            assert(part.drop_last() =~= all.take(i - 1));
            assert(part.last() == items@[i - 1]@);
            if i == 1 {
                assert(text@ =~= seq!['['] + part[0]);
            } else {
                assert(text@ =~= seq!['['] + (before.push(',') + part.last()));
            }
        }
    }
    assert(all.take(all.len() as int) =~= all);
    text.push(']');
    assert(text@ =~= json_array(all));
    text
}

/// Whether every path of a list is valid UTF-8.
pub open spec fn all_text(paths: Seq<Seq<u8>>) -> bool {
    forall|i: int| 0 <= i < paths.len() ==> valid_utf8(#[trigger] paths[i])
}

/// The elements of a JSON array of paths.
pub open spec fn quoted_paths(paths: Seq<Seq<u8>>) -> Seq<Seq<char>> {
    paths.map_values(|path: Seq<u8>| json_quoted(decode_utf8(path)))
}

/// The elements of a JSON array of texts.
pub open spec fn quoted_texts(list: Seq<Seq<char>>) -> Seq<Seq<char>> {
    list.map_values(|text: Seq<char>| json_quoted(text))
}

/// The JSON name of a kind.
pub open spec fn kind_name(kind: ProtectedRootKind) -> Seq<char> {
    match kind {
        ProtectedRootKind::Cargo => "Cargo"@,
        ProtectedRootKind::Rustup => "Rustup"@,
        ProtectedRootKind::GoModule => "GoModule"@,
        ProtectedRootKind::Bun => "Bun"@,
        ProtectedRootKind::ManagedCache => "ManagedCache"@,
        ProtectedRootKind::Container => "Container"@,
    }
}

/// The JSON form of a provenance.
pub open spec fn provenance_json(provenance: ProvenanceView) -> Seq<char> {
    match provenance {
        ProvenanceView::Default => "\"Default\""@,
        ProvenanceView::Environment(name) => "{\"Environment\":"@ + json_quoted(name) + "}"@,
        ProvenanceView::ServiceDefinition => "\"ServiceDefinition\""@,
        ProvenanceView::StructuralRoot => "\"Structural\""@,
    }
}

/// The JSON form of a protected directory.
pub open spec fn root_json(root: RootView) -> Seq<char> {
    "{\"path\":"@ + json_quoted(decode_utf8(root.path)) + ",\"kind\":\""@ + kind_name(root.kind)
        + "\",\"provenance\":"@ + provenance_json(root.provenance) + "}"@
}

/// The document that is hashed.
pub open spec fn policy_document(format_version: u32, policy: PolicyView) -> Seq<char> {
    "{\"format_version\":"@ + decimal(format_version as nat) + ",\"scan_roots\":"@ + json_array(
        quoted_paths(policy.scan_roots),
    ) + ",\"project_paths\":"@ + json_array(quoted_paths(policy.project_paths)) + ",\"lexical_exclusions\":"@
        + json_array(quoted_texts(policy.lexical_exclusions)) + ",\"canonical_exclusions\":"@ + json_array(
        quoted_paths(policy.canonical_exclusions),
    ) + ",\"protected_roots\":"@ + json_array(policy.protected_roots.map_values(|root: RootView| root_json(root)))
        + ",\"target_quiet_period_ms\":"@ + decimal(policy.target_quiet_period_ms) + ",\"scan_interval_ms\":"@
        + decimal(policy.scan_interval_ms) + ",\"config_source\":"@ + json_quoted(
        decode_utf8(policy.config_source),
    ) + "}"@
}

/// Whether every path of a policy is valid UTF-8, so that it has a document.
pub open spec fn policy_is_text(policy: PolicyView) -> bool {
    &&& all_text(policy.scan_roots)
    &&& all_text(policy.project_paths)
    &&& all_text(policy.canonical_exclusions)
    &&& forall|i: int| 0 <= i < policy.protected_roots.len() ==> valid_utf8((#[trigger] policy.protected_roots[i]).path)
    &&& valid_utf8(policy.config_source)
}

/// The hash of a policy.
pub open spec fn policy_hash(format_version: u32, policy: PolicyView) -> Seq<char> {
    hex_text(sha256_digest(encode_utf8(policy_document(format_version, policy))))
}

impl<'a> PolicyHashInput<'a> {
    /// The contents of the input.
    pub open spec fn contents(&self) -> PolicyView {
        PolicyView {
            scan_roots: path_views(self.scan_roots@),
            project_paths: path_views(self.project_paths@),
            lexical_exclusions: texts(self.lexical_exclusions@),
            canonical_exclusions: path_views(self.canonical_exclusions@),
            protected_roots: views_of_roots(self.protected_roots@),
            target_quiet_period_ms: self.target_quiet_period_ms as nat,
            scan_interval_ms: self.scan_interval_ms as nat,
            config_source: self.config_source@,
        }
    }
}

fn quote_paths(paths: &Vec<PathBuf>) -> (items: Option<Vec<String>>)
    ensures
        items is Some <==> all_text(path_views(paths@)),
        items matches Some(list) ==> texts(list@) == quoted_paths(path_views(paths@)),
{
    let ghost all = path_views(paths@);
    let mut items: Vec<String> = Vec::new();
    let mut i: usize = 0;
    while i < paths.len()
        invariant
            i <= paths.len(),
            all == path_views(paths@),
            items@.len() == i,
            forall|k: int| 0 <= k < i ==> valid_utf8(#[trigger] all[k]),
            forall|k: int| 0 <= k < i ==> (#[trigger] items@[k])@ == json_quoted(decode_utf8(all[k])),
        decreases paths.len() - i,
    {
        assert(all[i as int] == paths@[i as int]@);
        match paths[i].to_str() {
            None => return None,
            Some(text) => items.push(json_string(text.as_str())),
        }
        i += 1;
    }
    assert(texts(items@) =~= quoted_paths(all));
    Some(items)
}

fn quote_texts(list: &Vec<String>) -> (items: Vec<String>)
    ensures
        texts(items@) == quoted_texts(texts(list@)),
{
    let mut items: Vec<String> = Vec::new();
    let mut i: usize = 0;
    while i < list.len()
        invariant
            i <= list.len(),
            items@.len() == i,
            forall|k: int| 0 <= k < i ==> (#[trigger] items@[k])@ == json_quoted(list@[k]@),
        decreases list.len() - i,
    {
        items.push(json_string(list[i].as_str()));
        i += 1;
    }
    assert(texts(items@) =~= quoted_texts(texts(list@)));
    items
}

fn root_json_text(root: &ProtectedRoot) -> (text: Option<String>)
    ensures
        text is Some <==> valid_utf8(root@.path),
        text matches Some(t) ==> t@ == root_json(root@),
{
    let path = match root.path.to_str() {
        None => return None,
        Some(path) => path,
    };
    let mut text = "{\"path\":".to_owned();
    text.append(json_string(path.as_str()).as_str());
    text.append(",\"kind\":\"");
    text.append(
        match root.kind {
            ProtectedRootKind::Cargo => "Cargo",
            ProtectedRootKind::Rustup => "Rustup",
            ProtectedRootKind::GoModule => "GoModule",
            ProtectedRootKind::Bun => "Bun",
            ProtectedRootKind::ManagedCache => "ManagedCache",
            ProtectedRootKind::Container => "Container",
        },
    );
    text.append("\",\"provenance\":");
    let mut provenance = String::new();
    match &root.provenance {
        RootProvenance::Default => provenance.append("\"Default\""),
        RootProvenance::Environment(name) => {
            provenance.append("{\"Environment\":");
            provenance.append(json_string(name.as_str()).as_str());
            provenance.append("}");
        },
        RootProvenance::ServiceDefinition => provenance.append("\"ServiceDefinition\""),
        RootProvenance::StructuralRoot => provenance.append("\"Structural\""),
    }
    assert(provenance@ =~= provenance_json(root.provenance@));
    text.append(provenance.as_str());
    text.append("}");
    Some(text)
}

fn roots_json(roots: &Vec<ProtectedRoot>) -> (items: Option<Vec<String>>)
    ensures
        items is Some <==> forall|i: int|
            0 <= i < views_of_roots(roots@).len() ==> valid_utf8((#[trigger] views_of_roots(roots@)[i]).path),
        items matches Some(list) ==> texts(list@) == views_of_roots(roots@).map_values(
            |root: RootView| root_json(root),
        ),
{
    let ghost all = views_of_roots(roots@);
    let mut items: Vec<String> = Vec::new();
    let mut i: usize = 0;
    while i < roots.len()
        invariant
            i <= roots.len(),
            all == views_of_roots(roots@),
            items@.len() == i,
            forall|k: int| 0 <= k < i ==> valid_utf8((#[trigger] all[k]).path),
            forall|k: int| 0 <= k < i ==> (#[trigger] items@[k])@ == root_json(all[k]),
        decreases roots.len() - i,
    {
        assert(all[i as int] == roots@[i as int]@);
        match root_json_text(&roots[i]) {
            None => return None,
            Some(text) => items.push(text),
        }
        i += 1;
    }
    assert(texts(items@) =~= all.map_values(|root: RootView| root_json(root)));
    Some(items)
}

/// The document of a policy; `None` if a path in it is not valid UTF-8.
pub fn document_text(input: &PolicyHashInput<'_>) -> (document: Option<String>)
    ensures
        document is Some <==> policy_is_text(input.contents()),
        document matches Some(text) ==> text@ == policy_document(input.format_version, input.contents()),
{
    let scan_roots = match quote_paths(input.scan_roots) {
        None => return None,
        Some(items) => items,
    };
    let project_paths = match quote_paths(input.project_paths) {
        None => return None,
        Some(items) => items,
    };
    let exclusions = quote_texts(input.lexical_exclusions);
    let canonical_exclusions = match quote_paths(input.canonical_exclusions) {
        None => return None,
        Some(items) => items,
    };
    let roots = match roots_json(input.protected_roots) {
        None => return None,
        Some(items) => items,
    };
    let source = match input.config_source.to_str() {
        None => return None,
        Some(source) => source,
    };
    let mut text = "{\"format_version\":".to_owned();
    text.append(decimal_text(input.format_version as u128).as_str());
    text.append(",\"scan_roots\":");
    text.append(json_array_text(&scan_roots).as_str());
    text.append(",\"project_paths\":");
    text.append(json_array_text(&project_paths).as_str());
    text.append(",\"lexical_exclusions\":");
    text.append(json_array_text(&exclusions).as_str());
    text.append(",\"canonical_exclusions\":");
    text.append(json_array_text(&canonical_exclusions).as_str());
    text.append(",\"protected_roots\":");
    text.append(json_array_text(&roots).as_str());
    text.append(",\"target_quiet_period_ms\":");
    text.append(decimal_text(input.target_quiet_period_ms).as_str());
    text.append(",\"scan_interval_ms\":");
    text.append(decimal_text(input.scan_interval_ms).as_str());
    text.append(",\"config_source\":");
    text.append(json_string(source.as_str()).as_str());
    text.append("}");
    Some(text)
}

/// The hash of a policy: the SHA-256 digest of its document in hexadecimal
/// digits; `None` if a path in it is not valid UTF-8.
pub fn hash_policy_input(input: &PolicyHashInput<'_>) -> (hash: Option<String>)
    ensures
        hash is Some <==> policy_is_text(input.contents()),
        hash matches Some(text) ==> text@ == policy_hash(input.format_version, input.contents()) && is_hash_text(text@),
{
    match document_text(input) {
        None => None,
        Some(document) => {
            let digest = sha256(document.as_str().as_bytes());
            proof {
                lemma_hex_text(digest@);
            }
            Some(hex_string(&digest))
        },
    }
}

proof fn lemma_assoc(a: Seq<char>, b: Seq<char>, c: Seq<char>)
    ensures
        (a + b) + c == a + (b + c),
{
    assert((a + b) + c =~= a + (b + c));
}

proof fn lemma_cut(head: Seq<char>, x: Seq<char>, y: Seq<char>)
    requires
        head + x == head + y,
    ensures
        x == y,
{
    let t = head + x;
    assert(x =~= t.skip(head.len() as int));
    assert(y =~= t.skip(head.len() as int));
}

/// Whether a text is not empty and does not start with a digit.
spec fn starts_without_digit(s: Seq<char>) -> bool {
    s.len() > 0 && !('0' <= s[0] <= '9')
}

proof fn lemma_decimal_readable(a: nat, b: nat, x: Seq<char>, y: Seq<char>)
    requires
        decimal(a) + x == decimal(b) + y,
        starts_without_digit(x),
        starts_without_digit(y),
    ensures
        a == b,
        x == y,
{
    let p = decimal(a);
    let q = decimal(b);
    let t = p + x;
    decimal_is_digits(a);
    decimal_is_digits(b);
    if p.len() < q.len() {
        assert(t[p.len() as int] == x[0]);
        assert(t[p.len() as int] == q[p.len() as int]);
    } else if q.len() < p.len() {
        assert(t[q.len() as int] == y[0]);
        assert(t[q.len() as int] == p[q.len() as int]);
    }
    assert(p =~= t.take(p.len() as int));
    assert(q =~= t.take(p.len() as int));
    decimal_injective(a, b);
    lemma_cut(p, x, y);
}

/// Whether the forms that `form` gives to the values of a domain can be told
/// from what follows them, and read back.
spec fn readable<T>(form: spec_fn(T) -> Seq<char>, domain: spec_fn(T) -> bool) -> bool {
    &&& forall|p: T, q: T, x: Seq<char>, y: Seq<char>|
        domain(p) && domain(q) && #[trigger] (form(p) + x) == #[trigger] (form(q) + y) ==> p == q && x == y
    &&& forall|p: T| domain(p) ==> (#[trigger] form(p)).len() > 0 && form(p)[0] != ']'
}

spec fn all_in<T>(values: Seq<T>, domain: spec_fn(T) -> bool) -> bool {
    forall|i: int| 0 <= i < values.len() ==> domain(#[trigger] values[i])
}

proof fn lemma_joined_first(items: Seq<Seq<char>>)
    requires
        items.len() > 0,
    ensures
        items.len() == 1 ==> comma_joined(items) == items[0],
        items.len() > 1 ==> comma_joined(items) == items[0] + (seq![','] + comma_joined(items.drop_first())),
    decreases items.len(),
{
    if items.len() > 1 {
        let front = items.drop_last();
        let rest = items.drop_first();
        lemma_joined_first(front);
        assert(front[0] == items[0]);
        if items.len() == 2 {
            assert(front.len() == 1 && rest.len() == 1);
            assert(comma_joined(items) =~= items[0] + (seq![','] + rest[0]));
        } else {
            assert(front.drop_first() =~= rest.drop_last());
            let middle = comma_joined(rest.drop_last());
            assert(comma_joined(rest) == middle.push(',') + rest.last());
            assert(comma_joined(items) =~= items[0] + (seq![','] + (middle.push(',') + rest.last())));
        }
    }
}

proof fn lemma_joined_readable<T>(
    form: spec_fn(T) -> Seq<char>,
    domain: spec_fn(T) -> bool,
    a: Seq<T>,
    b: Seq<T>,
    x: Seq<char>,
    y: Seq<char>,
)
    requires
        readable(form, domain),
        all_in(a, domain),
        all_in(b, domain),
        comma_joined(a.map_values(form)) + (seq![']'] + x) == comma_joined(b.map_values(form)) + (seq![']'] + y),
    ensures
        a == b,
        x == y,
    decreases a.len(),
{
    let fa = a.map_values(form);
    let fb = b.map_values(form);
    let t = comma_joined(fa) + (seq![']'] + x);
    if a.len() > 0 {
        assert(domain(a[0]));
        assert(form(a[0]).len() > 0);
        lemma_joined_first(fa);
        assert(t[0] == form(a[0])[0]);
    } else {
        assert(t =~= seq![']'] + x);
    }
    if b.len() > 0 {
        assert(domain(b[0]));
        assert(form(b[0]).len() > 0);
        lemma_joined_first(fb);
        assert(t[0] == form(b[0])[0]);
    } else {
        assert(t =~= seq![']'] + y);
    }
    if a.len() == 0 {
        assert(b.len() == 0);
        assert(a =~= b);
        lemma_cut(seq![']'], x, y);
    } else {
        let a1 = a.drop_first();
        let b1 = b.drop_first();
        assert(fa.drop_first() =~= a1.map_values(form));
        assert(fb.drop_first() =~= b1.map_values(form));
        let ca = comma_joined(a1.map_values(form)) + (seq![']'] + x);
        let cb = comma_joined(b1.map_values(form)) + (seq![']'] + y);
        let ra = if a.len() == 1 {
            seq![']'] + x
        } else {
            seq![','] + ca
        };
        let rb = if b.len() == 1 {
            seq![']'] + y
        } else {
            seq![','] + cb
        };
        assert(t =~= form(a[0]) + ra);
        assert(t =~= form(b[0]) + rb);
        assert(a[0] == b[0] && ra == rb);
        assert(ra[0] == rb[0]);
        if a.len() == 1 {
            assert(b.len() == 1);
            lemma_cut(seq![']'], x, y);
        } else {
            assert(b.len() > 1);
            lemma_cut(seq![','], ca, cb);
            assert(all_in(a1, domain)) by {
                assert forall|i: int| 0 <= i < a1.len() implies domain(#[trigger] a1[i]) by {
                    assert(domain(a[i + 1]));
                }
            }
            assert(all_in(b1, domain)) by {
                assert forall|i: int| 0 <= i < b1.len() implies domain(#[trigger] b1[i]) by {
                    assert(domain(b[i + 1]));
                }
            }
            lemma_joined_readable(form, domain, a1, b1, x, y);
        }
        assert(a =~= seq![a[0]] + a1);
        assert(b =~= seq![b[0]] + b1);
    }
}

proof fn lemma_array_readable<T>(
    form: spec_fn(T) -> Seq<char>,
    domain: spec_fn(T) -> bool,
    a: Seq<T>,
    b: Seq<T>,
    x: Seq<char>,
    y: Seq<char>,
)
    requires
        readable(form, domain),
        all_in(a, domain),
        all_in(b, domain),
        json_array(a.map_values(form)) + x == json_array(b.map_values(form)) + y,
    ensures
        a == b,
        x == y,
{
    let ja = comma_joined(a.map_values(form));
    let jb = comma_joined(b.map_values(form));
    let t = json_array(a.map_values(form)) + x;
    assert(t =~= seq!['['] + (ja + (seq![']'] + x)));
    assert(t =~= seq!['['] + (jb + (seq![']'] + y)));
    lemma_cut(seq!['['], ja + (seq![']'] + x), jb + (seq![']'] + y));
    lemma_joined_readable(form, domain, a, b, x, y);
}

proof fn lemma_texts_readable()
    ensures
        readable(|text: Seq<char>| json_quoted(text), |text: Seq<char>| true),
{
    let form = |text: Seq<char>| json_quoted(text);
    assert forall|p: Seq<char>, q: Seq<char>, x: Seq<char>, y: Seq<char>| #[trigger]
        (form(p) + x) == #[trigger] (form(q) + y) implies p == q && x == y by {
        json_string_is_readable(p, q, x, y);
    }
}

proof fn lemma_path_text_injective(p: Seq<u8>, q: Seq<u8>)
    requires
        valid_utf8(p),
        valid_utf8(q),
        decode_utf8(p) == decode_utf8(q),
    ensures
        p == q,
{
    decode_utf8_encode_utf8(p);
    decode_utf8_encode_utf8(q);
}

proof fn lemma_paths_readable()
    ensures
        readable(|path: Seq<u8>| json_quoted(decode_utf8(path)), |path: Seq<u8>| valid_utf8(path)),
{
    let form = |path: Seq<u8>| json_quoted(decode_utf8(path));
    assert forall|p: Seq<u8>, q: Seq<u8>, x: Seq<char>, y: Seq<char>|
        valid_utf8(p) && valid_utf8(q) && #[trigger] (form(p) + x) == #[trigger] (form(q) + y) implies p == q && x
        == y by {
        json_string_is_readable(decode_utf8(p), decode_utf8(q), x, y);
        lemma_path_text_injective(p, q);
    }
}

proof fn lemma_kind_readable(a: ProtectedRootKind, b: ProtectedRootKind, x: Seq<char>, y: Seq<char>)
    requires
        kind_name(a) + x == kind_name(b) + y,
        x.len() > 0 && x[0] == '"',
        y.len() > 0 && y[0] == '"',
    ensures
        a == b,
        x == y,
{
    reveal_strlit("Cargo");
    reveal_strlit("Rustup");
    reveal_strlit("GoModule");
    reveal_strlit("Bun");
    reveal_strlit("ManagedCache");
    reveal_strlit("Container");
    let t = kind_name(a) + x;
    let u = kind_name(b) + y;
    assert(t[0] == kind_name(a)[0]);
    assert(u[0] == kind_name(b)[0]);
    assert(t[1] == kind_name(a)[1]);
    assert(u[1] == kind_name(b)[1]);
    assert(a == b);
    lemma_cut(kind_name(a), x, y);
}

proof fn lemma_provenance_readable(a: ProvenanceView, b: ProvenanceView, x: Seq<char>, y: Seq<char>)
    requires
        provenance_json(a) + x == provenance_json(b) + y,
    ensures
        a == b,
        x == y,
{
    reveal_strlit("\"Default\"");
    reveal_strlit("{\"Environment\":");
    reveal_strlit("}");
    reveal_strlit("\"ServiceDefinition\"");
    reveal_strlit("\"Structural\"");
    let t = provenance_json(a) + x;
    assert(t[0] == provenance_json(a)[0]);
    assert(t[0] == provenance_json(b)[0]);
    if let ProvenanceView::Environment(m) = a {
        if let ProvenanceView::Environment(n) = b {
            let head = "{\"Environment\":"@;
            assert(t =~= head + (json_quoted(m) + ("}"@ + x)));
            assert(t =~= head + (json_quoted(n) + ("}"@ + y)));
            lemma_cut(head, json_quoted(m) + ("}"@ + x), json_quoted(n) + ("}"@ + y));
            json_string_is_readable(m, n, "}"@ + x, "}"@ + y);
            lemma_cut("}"@, x, y);
        }
    } else {
        assert(t[2] == provenance_json(a)[2]);
        assert(t[2] == provenance_json(b)[2]);
        assert(t[1] == provenance_json(a)[1]);
        assert(t[1] == provenance_json(b)[1]);
        assert(a == b);
        lemma_cut(provenance_json(a), x, y);
    }
}

spec fn root_is_text(root: RootView) -> bool {
    valid_utf8(root.path)
}

proof fn lemma_root_readable(p: RootView, q: RootView, x: Seq<char>, y: Seq<char>)
    requires
        root_is_text(p),
        root_is_text(q),
        root_json(p) + x == root_json(q) + y,
    ensures
        p == q,
        x == y,
{
    let l0 = "{\"path\":"@;
    let l1 = ",\"kind\":\""@;
    let l2 = "\",\"provenance\":"@;
    let l3 = "}"@;
    reveal_strlit("\",\"provenance\":");
    let (pa, pb) = (json_quoted(decode_utf8(p.path)), json_quoted(decode_utf8(q.path)));
    let (va, vb) = (provenance_json(p.provenance), provenance_json(q.provenance));
    let (a3, b3) = (va + (l3 + x), vb + (l3 + y));
    let (a2, b2) = (kind_name(p.kind) + (l2 + a3), kind_name(q.kind) + (l2 + b3));
    let (a1, b1) = (pa + (l1 + a2), pb + (l1 + b2));
    lemma_root_form(p, x);
    lemma_root_form(q, y);
    lemma_cut(l0, a1, b1);
    json_string_is_readable(decode_utf8(p.path), decode_utf8(q.path), l1 + a2, l1 + b2);
    lemma_path_text_injective(p.path, q.path);
    lemma_cut(l1, a2, b2);
    lemma_kind_readable(p.kind, q.kind, l2 + a3, l2 + b3);
    lemma_cut(l2, a3, b3);
    lemma_provenance_readable(p.provenance, q.provenance, l3 + x, l3 + y);
    lemma_cut(l3, x, y);
}

proof fn lemma_root_form(root: RootView, x: Seq<char>)
    ensures
        root_json(root) + x == "{\"path\":"@ + (json_quoted(decode_utf8(root.path)) + (",\"kind\":\""@ + (kind_name(
            root.kind,
        ) + ("\",\"provenance\":"@ + (provenance_json(root.provenance) + ("}"@ + x)))))),
{
    let l0 = "{\"path\":"@;
    let p = json_quoted(decode_utf8(root.path));
    let l1 = ",\"kind\":\""@;
    let k = kind_name(root.kind);
    let l2 = "\",\"provenance\":"@;
    let v = provenance_json(root.provenance);
    let l3 = "}"@;
    lemma_assoc(l0 + p + l1 + k + l2 + v, l3, x);
    lemma_assoc(l0 + p + l1 + k + l2, v, l3 + x);
    lemma_assoc(l0 + p + l1 + k, l2, v + (l3 + x));
    lemma_assoc(l0 + p + l1, k, l2 + (v + (l3 + x)));
    lemma_assoc(l0 + p, l1, k + (l2 + (v + (l3 + x))));
    lemma_assoc(l0, p, l1 + (k + (l2 + (v + (l3 + x)))));
}

proof fn lemma_roots_readable()
    ensures
        readable(|root: RootView| root_json(root), |root: RootView| root_is_text(root)),
{
    let form = |root: RootView| root_json(root);
    assert forall|p: RootView, q: RootView, x: Seq<char>, y: Seq<char>|
        root_is_text(p) && root_is_text(q) && #[trigger] (form(p) + x) == #[trigger] (form(q) + y) implies p == q && x
        == y by {
        lemma_root_readable(p, q, x, y);
    }
    assert forall|p: RootView| root_is_text(p) implies (#[trigger] form(p)).len() > 0 && form(p)[0] != ']' by {
        reveal_strlit("{\"path\":");
        let none = Seq::<char>::empty();
        lemma_root_form(p, none);
        assert(root_json(p) + none =~= root_json(p));
    }
}

/// What follows the first parts of a document.
spec fn document_from(part: int, format_version: u32, policy: PolicyView) -> Seq<char>
    decreases 19 - part,
{
    if part == 0 {
        "{\"format_version\":"@ + document_from(1, format_version, policy)
    } else if part == 1 {
        decimal(format_version as nat) + document_from(2, format_version, policy)
    } else if part == 2 {
        ",\"scan_roots\":"@ + document_from(3, format_version, policy)
    } else if part == 3 {
        json_array(quoted_paths(policy.scan_roots)) + document_from(4, format_version, policy)
    } else if part == 4 {
        ",\"project_paths\":"@ + document_from(5, format_version, policy)
    } else if part == 5 {
        json_array(quoted_paths(policy.project_paths)) + document_from(6, format_version, policy)
    } else if part == 6 {
        ",\"lexical_exclusions\":"@ + document_from(7, format_version, policy)
    } else if part == 7 {
        json_array(quoted_texts(policy.lexical_exclusions)) + document_from(8, format_version, policy)
    } else if part == 8 {
        ",\"canonical_exclusions\":"@ + document_from(9, format_version, policy)
    } else if part == 9 {
        json_array(quoted_paths(policy.canonical_exclusions)) + document_from(10, format_version, policy)
    } else if part == 10 {
        ",\"protected_roots\":"@ + document_from(11, format_version, policy)
    } else if part == 11 {
        json_array(policy.protected_roots.map_values(|root: RootView| root_json(root))) + document_from(12, format_version, policy)
    } else if part == 12 {
        ",\"target_quiet_period_ms\":"@ + document_from(13, format_version, policy)
    } else if part == 13 {
        decimal(policy.target_quiet_period_ms) + document_from(14, format_version, policy)
    } else if part == 14 {
        ",\"scan_interval_ms\":"@ + document_from(15, format_version, policy)
    } else if part == 15 {
        decimal(policy.scan_interval_ms) + document_from(16, format_version, policy)
    } else if part == 16 {
        ",\"config_source\":"@ + document_from(17, format_version, policy)
    } else if part == 17 {
        json_quoted(decode_utf8(policy.config_source)) + document_from(18, format_version, policy)
    } else if part == 18 {
        "}"@ + document_from(19, format_version, policy)
    } else {
        Seq::empty()
    }
}

proof fn lemma_document_parts(format_version: u32, policy: PolicyView)
    ensures
        policy_document(format_version, policy) == document_from(0, format_version, policy),
{
    reveal_with_fuel(document_from, 20);
    let p0 = "{\"format_version\":"@;
    let p1 = decimal(format_version as nat);
    let p2 = ",\"scan_roots\":"@;
    let p3 = json_array(quoted_paths(policy.scan_roots));
    let p4 = ",\"project_paths\":"@;
    let p5 = json_array(quoted_paths(policy.project_paths));
    let p6 = ",\"lexical_exclusions\":"@;
    let p7 = json_array(quoted_texts(policy.lexical_exclusions));
    let p8 = ",\"canonical_exclusions\":"@;
    let p9 = json_array(quoted_paths(policy.canonical_exclusions));
    let p10 = ",\"protected_roots\":"@;
    let p11 = json_array(policy.protected_roots.map_values(|root: RootView| root_json(root)));
    let p12 = ",\"target_quiet_period_ms\":"@;
    let p13 = decimal(policy.target_quiet_period_ms);
    let p14 = ",\"scan_interval_ms\":"@;
    let p15 = decimal(policy.scan_interval_ms);
    let p16 = ",\"config_source\":"@;
    let p17 = json_quoted(decode_utf8(policy.config_source));
    let p18 = "}"@;
    let t0 = document_from(0, format_version, policy);
    let t1 = document_from(1, format_version, policy);
    let t2 = document_from(2, format_version, policy);
    let t3 = document_from(3, format_version, policy);
    let t4 = document_from(4, format_version, policy);
    let t5 = document_from(5, format_version, policy);
    let t6 = document_from(6, format_version, policy);
    let t7 = document_from(7, format_version, policy);
    let t8 = document_from(8, format_version, policy);
    let t9 = document_from(9, format_version, policy);
    let t10 = document_from(10, format_version, policy);
    let t11 = document_from(11, format_version, policy);
    let t12 = document_from(12, format_version, policy);
    let t13 = document_from(13, format_version, policy);
    let t14 = document_from(14, format_version, policy);
    let t15 = document_from(15, format_version, policy);
    let t16 = document_from(16, format_version, policy);
    let t17 = document_from(17, format_version, policy);
    let t18 = document_from(18, format_version, policy);
    let t19 = document_from(19, format_version, policy);
    let h0 = p0;
    let h1 = h0 + p1;
    let h2 = h1 + p2;
    let h3 = h2 + p3;
    let h4 = h3 + p4;
    let h5 = h4 + p5;
    let h6 = h5 + p6;
    let h7 = h6 + p7;
    let h8 = h7 + p8;
    let h9 = h8 + p9;
    let h10 = h9 + p10;
    let h11 = h10 + p11;
    let h12 = h11 + p12;
    let h13 = h12 + p13;
    let h14 = h13 + p14;
    let h15 = h14 + p15;
    let h16 = h15 + p16;
    let h17 = h16 + p17;
    let h18 = h17 + p18;
    assert(h18 + t19 =~= h18);
    lemma_assoc(h17, p18, t19);
    lemma_assoc(h16, p17, t18);
    lemma_assoc(h15, p16, t17);
    lemma_assoc(h14, p15, t16);
    lemma_assoc(h13, p14, t15);
    lemma_assoc(h12, p13, t14);
    lemma_assoc(h11, p12, t13);
    lemma_assoc(h10, p11, t12);
    lemma_assoc(h9, p10, t11);
    lemma_assoc(h8, p9, t10);
    lemma_assoc(h7, p8, t9);
    lemma_assoc(h6, p7, t8);
    lemma_assoc(h5, p6, t7);
    lemma_assoc(h4, p5, t6);
    lemma_assoc(h3, p4, t5);
    lemma_assoc(h2, p3, t4);
    lemma_assoc(h1, p2, t3);
    lemma_assoc(h0, p1, t2);
}

proof fn lemma_document_step(part: int, format_version: u32, policy: PolicyView)
    ensures
        part == 0 ==> document_from(part, format_version, policy) == "{\"format_version\":"@ + document_from(1, format_version, policy),
        part == 1 ==> document_from(part, format_version, policy) == decimal(format_version as nat) + document_from(2, format_version, policy),
        part == 2 ==> document_from(part, format_version, policy) == ",\"scan_roots\":"@ + document_from(3, format_version, policy),
        part == 3 ==> document_from(part, format_version, policy) == json_array(quoted_paths(policy.scan_roots)) + document_from(4, format_version, policy),
        part == 4 ==> document_from(part, format_version, policy) == ",\"project_paths\":"@ + document_from(5, format_version, policy),
        part == 5 ==> document_from(part, format_version, policy) == json_array(quoted_paths(policy.project_paths)) + document_from(6, format_version, policy),
        part == 6 ==> document_from(part, format_version, policy) == ",\"lexical_exclusions\":"@ + document_from(7, format_version, policy),
        part == 7 ==> document_from(part, format_version, policy) == json_array(quoted_texts(policy.lexical_exclusions)) + document_from(8, format_version, policy),
        part == 8 ==> document_from(part, format_version, policy) == ",\"canonical_exclusions\":"@ + document_from(9, format_version, policy),
        part == 9 ==> document_from(part, format_version, policy) == json_array(quoted_paths(policy.canonical_exclusions)) + document_from(10, format_version, policy),
        part == 10 ==> document_from(part, format_version, policy) == ",\"protected_roots\":"@ + document_from(11, format_version, policy),
        part == 11 ==> document_from(part, format_version, policy) == json_array(policy.protected_roots.map_values(|root: RootView| root_json(root))) + document_from(12, format_version, policy),
        part == 12 ==> document_from(part, format_version, policy) == ",\"target_quiet_period_ms\":"@ + document_from(13, format_version, policy),
        part == 13 ==> document_from(part, format_version, policy) == decimal(policy.target_quiet_period_ms) + document_from(14, format_version, policy),
        part == 14 ==> document_from(part, format_version, policy) == ",\"scan_interval_ms\":"@ + document_from(15, format_version, policy),
        part == 15 ==> document_from(part, format_version, policy) == decimal(policy.scan_interval_ms) + document_from(16, format_version, policy),
        part == 16 ==> document_from(part, format_version, policy) == ",\"config_source\":"@ + document_from(17, format_version, policy),
        part == 17 ==> document_from(part, format_version, policy) == json_quoted(decode_utf8(policy.config_source)) + document_from(18, format_version, policy),
        part == 18 ==> document_from(part, format_version, policy) == "}"@ + document_from(19, format_version, policy),
{
}

/// A document tells its policy: policies with one document have the same format
/// version and the same contents.
pub proof fn document_determines_policy(v: u32, a: PolicyView, w: u32, b: PolicyView)
    requires
        policy_is_text(a),
        policy_is_text(b),
        policy_document(v, a) == policy_document(w, b),
    ensures
        v == w,
        a == b,
{
    lemma_document_parts(v, a);
    lemma_document_parts(w, b);
    lemma_texts_readable();
    lemma_paths_readable();
    lemma_roots_readable();
    let text_form = |text: Seq<char>| json_quoted(text);
    let any_text = |text: Seq<char>| true;
    let path_form = |path: Seq<u8>| json_quoted(decode_utf8(path));
    let path_domain = |path: Seq<u8>| valid_utf8(path);
    let root_form = |root: RootView| root_json(root);
    let root_domain = |root: RootView| root_is_text(root);
    assert(all_in(a.protected_roots, root_domain)) by {
        assert forall|i: int| 0 <= i < a.protected_roots.len() implies root_domain(#[trigger] a.protected_roots[i]) by {
            assert(valid_utf8(a.protected_roots[i].path));
        }
    }
    assert(all_in(b.protected_roots, root_domain)) by {
        assert forall|i: int| 0 <= i < b.protected_roots.len() implies root_domain(#[trigger] b.protected_roots[i]) by {
            assert(valid_utf8(b.protected_roots[i].path));
        }
    }
    lemma_document_step(0, v, a);
    lemma_document_step(0, w, b);
    lemma_cut("{\"format_version\":"@, document_from(1, v, a), document_from(1, w, b));
    lemma_document_step(1, v, a);
    lemma_document_step(1, w, b);
    lemma_document_step(2, v, a);
    lemma_document_step(2, w, b);
    reveal_strlit(",\"scan_roots\":");
    lemma_decimal_readable(v as nat, w as nat, document_from(2, v, a), document_from(2, w, b));
    lemma_document_step(2, v, a);
    lemma_document_step(2, w, b);
    lemma_cut(",\"scan_roots\":"@, document_from(3, v, a), document_from(3, w, b));
    lemma_document_step(3, v, a);
    lemma_document_step(3, w, b);
    lemma_array_readable(path_form, path_domain, a.scan_roots, b.scan_roots, document_from(4, v, a), document_from(4, w, b));
    lemma_document_step(4, v, a);
    lemma_document_step(4, w, b);
    lemma_cut(",\"project_paths\":"@, document_from(5, v, a), document_from(5, w, b));
    lemma_document_step(5, v, a);
    lemma_document_step(5, w, b);
    lemma_array_readable(path_form, path_domain, a.project_paths, b.project_paths, document_from(6, v, a), document_from(6, w, b));
    lemma_document_step(6, v, a);
    lemma_document_step(6, w, b);
    lemma_cut(",\"lexical_exclusions\":"@, document_from(7, v, a), document_from(7, w, b));
    lemma_document_step(7, v, a);
    lemma_document_step(7, w, b);
    lemma_array_readable(text_form, any_text, a.lexical_exclusions, b.lexical_exclusions, document_from(8, v, a), document_from(8, w, b));
    lemma_document_step(8, v, a);
    lemma_document_step(8, w, b);
    lemma_cut(",\"canonical_exclusions\":"@, document_from(9, v, a), document_from(9, w, b));
    lemma_document_step(9, v, a);
    lemma_document_step(9, w, b);
    lemma_array_readable(path_form, path_domain, a.canonical_exclusions, b.canonical_exclusions, document_from(10, v, a), document_from(10, w, b));
    lemma_document_step(10, v, a);
    lemma_document_step(10, w, b);
    lemma_cut(",\"protected_roots\":"@, document_from(11, v, a), document_from(11, w, b));
    lemma_document_step(11, v, a);
    lemma_document_step(11, w, b);
    lemma_array_readable(root_form, root_domain, a.protected_roots, b.protected_roots, document_from(12, v, a), document_from(12, w, b));
    lemma_document_step(12, v, a);
    lemma_document_step(12, w, b);
    lemma_cut(",\"target_quiet_period_ms\":"@, document_from(13, v, a), document_from(13, w, b));
    lemma_document_step(13, v, a);
    lemma_document_step(13, w, b);
    lemma_document_step(14, v, a);
    lemma_document_step(14, w, b);
    reveal_strlit(",\"scan_interval_ms\":");
    lemma_decimal_readable(a.target_quiet_period_ms, b.target_quiet_period_ms, document_from(14, v, a), document_from(14, w, b));
    lemma_document_step(14, v, a);
    lemma_document_step(14, w, b);
    lemma_cut(",\"scan_interval_ms\":"@, document_from(15, v, a), document_from(15, w, b));
    lemma_document_step(15, v, a);
    lemma_document_step(15, w, b);
    lemma_document_step(16, v, a);
    lemma_document_step(16, w, b);
    reveal_strlit(",\"config_source\":");
    lemma_decimal_readable(a.scan_interval_ms, b.scan_interval_ms, document_from(16, v, a), document_from(16, w, b));
    lemma_document_step(16, v, a);
    lemma_document_step(16, w, b);
    lemma_cut(",\"config_source\":"@, document_from(17, v, a), document_from(17, w, b));
    lemma_document_step(17, v, a);
    lemma_document_step(17, w, b);
    json_string_is_readable(decode_utf8(a.config_source), decode_utf8(b.config_source), document_from(18, v, a), document_from(18, w, b));
    lemma_path_text_injective(a.config_source, b.config_source);
    lemma_document_step(18, v, a);
    lemma_document_step(18, w, b);
    lemma_cut("}"@, document_from(19, v, a), document_from(19, w, b));
}

/// Policies with the same contents and format version have the same hash; others share one
/// only where their documents differ and have the same digest.
pub proof fn hashes_differ_but_for_collisions(v: u32, a: PolicyView, w: u32, b: PolicyView)
    requires
        policy_is_text(a),
        policy_is_text(b),
    ensures
        v == w && a == b ==> policy_hash(v, a) == policy_hash(w, b),
        policy_hash(v, a) == policy_hash(w, b) && !(v == w && a == b) ==> {
            let x = encode_utf8(policy_document(v, a));
            let y = encode_utf8(policy_document(w, b));
            x != y && sha256_digest(x) == sha256_digest(y)
        },
{
    let (p, q) = (policy_document(v, a), policy_document(w, b));
    if policy_hash(v, a) == policy_hash(w, b) && !(v == w && a == b) {
        lemma_hex_text_injective(sha256_digest(encode_utf8(p)), sha256_digest(encode_utf8(q)));
        if encode_utf8(p) == encode_utf8(q) {
            encode_utf8_decode_utf8(p);
            encode_utf8_decode_utf8(q);
            document_determines_policy(v, a, w, b);
        }
    }
}

} // verus!
