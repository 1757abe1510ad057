//! What an agent's tool call may do: redaction of credentials, the paths and
//! commands that a call touches, and the verdict on it.
use vstd::prelude::*;
use vstd::string::*;
use vstd::utf8::*;

use crate::config::PolicyConfig;
use crate::json::{
    canonical, canonical_json, compact, get_tree, lemma_element_is_smaller, lemma_member_is_smaller,
    lemma_members, lemma_members_are, lemma_trees, lemma_trees_are, members, text_tree, tree, trees,
    Json, Member, Tree,
};
use crate::paths::{
    file_name, last_name, normal, normalize_path, parse, parse_path, path_is_within, path_text,
    render, resolve_path, resolved, within, PathParts, Parts,
};
use crate::protocol::RiskLevel;
use crate::text::{
    cat, cat3, chars_of, contains, decimal, decimal_text, join, joined, lines, lower, nonempty,
    occurs_at, opt_view, slice_text, split, starts_with, str_eq, strip_prefix, text_contains,
    text_lines, text_starts_with, to_lower, trim, trimmed, truncate, truncated_view, views, words,
    Separator,
};

verus! {

broadcast use vstd::string::group_string_axioms;

/// What stands in the place of a credential.
pub const REDACTED: &'static str = "[REDACTED]";

/// Names that announce a credential.
pub const SECRET_KEY: &'static str =
    r"(?i)(authorization|api[_-]?key|app[_-]?secret|client[_-]?secret|cookie|credential|passwd|password|private[_-]?key|refresh[_-]?token|secret|session[_-]?token|token)";

/// Text that is a credential.
pub const SECRET_VALUE: &'static str =
    r#"(?im)(-----BEGIN [A-Z ]*PRIVATE KEY-----|(?:bearer|qqbot)\s+[A-Za-z0-9._~+/=-]{12,}|gh[pousr]_[A-Za-z0-9_]{20,}|github_pat_[A-Za-z0-9_]{20,}|sk-[A-Za-z0-9_-]{20,}|(?:(?:api|client|app)[_-]?secret|api[_-]?key|password|passwd|refresh[_-]?token|session[_-]?token)\s*(?::|=|\bis\b)\s*["']?[^\s"',;]{4,}|--(?:api-key|password|secret|token)\s+\S+)"#;

/// Commands that are never run.
pub const FORBIDDEN_COMMAND: &'static str =
    r"(?i)(-encodedcommand\b|\bcredential\s*manager\b|\bcmdkey\b|\bdiskpart\b|\bformat(?:\.com)?\b|\breg(?:\.exe)?\s+(?:add|delete|import|restore)\b|\bremove-item\b[^\r\n]*(?:-recurse|-force)[^\r\n]*(?:\\users\\|\\windows\\)|\brunas\b|\bsc(?:\.exe)?\s+(?:config|create|delete|start|stop)\b|\bschtasks\b|\bset-mppreference\b|\bstart-process\b[^\r\n]*-verb\s+runas\b|\bwevtutil\s+cl\b)";

/// Files that hold credentials.
pub const SENSITIVE_PATH: &'static str =
    r"(?i)(^|[\\/])(\.env(?:\.[^\\/]*)?|\.git-credentials|\.npmrc|\.pypirc|\.ssh|credentials?|id_(?:rsa|dsa|ecdsa|ed25519)(?:\.pub)?|cookies?(?:\.sqlite)?|login data|local state|key\d*\.db|cert\d*\.db)(?:$|[\\/])";

// ---------------------------------------------------------------------------
// Outside functions

/// Whether the text is one of the regular expressions above.
pub open spec fn is_pattern(s: Seq<char>) -> bool {
    s == SECRET_KEY@ || s == SECRET_VALUE@ || s == FORBIDDEN_COMMAND@ || s == SENSITIVE_PATH@
}

/// Whether `regex` finds the pattern in the text.
pub uninterp spec fn regex_match(pattern: Seq<char>, text: Seq<char>) -> bool;

/// What `regex` makes of the text when it replaces each match of the pattern.
pub uninterp spec fn regex_replaced(
    pattern: Seq<char>,
    text: Seq<char>,
    replacement: Seq<char>,
) -> Seq<char>;

/// The SHA-256 digest of the bytes.
pub uninterp spec fn sha256(bytes: Seq<u8>) -> Seq<u8>;

/// `regex::Regex::is_match`: whether the pattern occurs in the text.
/// `regex::Regex::new` refuses a text that is no regular expression, so only the
/// four above are handed to it.
#[verifier::external_body]
fn regex_is_match(pattern: &str, text: &str) -> (r: bool)
    requires
        is_pattern(pattern@),
    ensures
        r == regex_match(pattern@, text@),
{
    regex::Regex::new(pattern).expect("a regular expression").is_match(text)
}

/// `regex::Regex::replace_all`: the text with every match of the pattern replaced. A
/// text in which the pattern does not occur comes back as it is. What `SECRET_VALUE`
/// finds starts with a letter or a hyphen, and `REDACTED` with a bracket: where it
/// finds anything the text changes.
#[verifier::external_body]
fn regex_replace_all(pattern: &str, text: &str, replacement: &str) -> (r: String)
    requires
        is_pattern(pattern@),
    ensures
        r@ == regex_replaced(pattern@, text@, replacement@),
        !regex_match(pattern@, text@) ==> r@ == text@,
        pattern@ == SECRET_VALUE@ && replacement@ == REDACTED@ && regex_match(pattern@, text@)
            ==> r@ != text@,
{
    regex::Regex::new(pattern).expect("a regular expression").replace_all(text, replacement).into_owned()
}

/// `sha2::Sha256::digest`: the digest of the bytes, which is 32 bytes long.
#[verifier::external_body]
fn sha256_digest(bytes: &[u8]) -> (r: Vec<u8>)
    ensures
        r@ == sha256(bytes@),
        r@.len() == 32,
{
    <sha2::Sha256 as sha2::Digest>::digest(bytes).to_vec()
}

/// The hexadecimal digit of a number below sixteen.
pub open spec fn hex_digit(n: int) -> char {
    if n < 10 {
        (48 + n) as char
    } else {
        (87 + n) as char
    }
}

/// The bytes as small hexadecimal digits, two for each byte, the high one first.
pub open spec fn hex_text(bytes: Seq<u8>) -> Seq<char> {
    Seq::new(
        2 * bytes.len(),
        |i: int|
            if i % 2 == 0 {
                hex_digit(bytes[i / 2] as int / 16)
            } else {
                hex_digit(bytes[i / 2] as int % 16)
            },
    )
}

/// `hex::encode`: the bytes as small hexadecimal digits.
#[verifier::external_body]
pub(crate) fn hex_encode(bytes: &[u8]) -> (r: String)
    ensures
        r@ == hex_text(bytes@),
{
    hex::encode(bytes)
}

/// `rand::rngs::OsRng` filling as many bytes as asked for. Which bytes come is
/// up to the operating system.
#[verifier::external_body]
pub(crate) fn random_bytes(len: usize) -> (r: Vec<u8>)
    ensures
        r@.len() == len,
{
    let mut bytes = vec![0_u8; len];
    rand::RngCore::fill_bytes(&mut rand::rngs::OsRng, &mut bytes);
    bytes
}

// ---------------------------------------------------------------------------
// Digests and codes

/// Whether the text has the form of a digest: 64 small hexadecimal digits.
pub open spec fn is_digest(s: Seq<char>) -> bool {
    s.len() == 64 && forall|i: int|
        0 <= i < s.len() ==> '0' <= #[trigger] s[i] <= '9' || 'a' <= s[i] <= 'f'
}

/// The SHA-256 digest of the bytes in small hexadecimal digits.
pub fn sha256_hex(value: &[u8]) -> (r: String)
    ensures
        r@ == hex_text(sha256(value@)),
        is_digest(r@),
{
    let digest = sha256_digest(value);
    hex_encode(digest.as_slice())
}

/// Whether two texts hold the same bytes. Texts of one length are compared to
/// the last byte whatever they hold.
pub fn constant_time_eq(left: &str, right: &str) -> (r: bool)
    ensures
        r == (left.spec_bytes() == right.spec_bytes()),
{
    let a = left.as_bytes();
    let b = right.as_bytes();
    if a.len() != b.len() {
        return false;
    }
    let mut difference: u8 = 0;
    let mut i: usize = 0;
    while i < a.len()
        invariant
            a@.len() == b@.len(),
            i <= a@.len(),
            difference == 0 <==> (forall|j: int| 0 <= j < i ==> a@[j] == b@[j]),
        decreases a@.len() - i,
    {
        let x: u8 = a[i];
        let y: u8 = b[i];
        assert(difference | (x ^ y) == 0 <==> difference == 0 && x == y) by (bit_vector);
        difference = difference | (x ^ y);
        i += 1;
    }
    assert(difference == 0 <==> a@ =~= b@);
    difference == 0
}

/// The characters of a code: letters and digits that are not mistaken for one
/// another.
pub const ALPHABET: &'static str = "ABCDEFGHJKLMNPQRSTUVWXYZ23456789";

/// The character of a code that a random byte picks.
pub open spec fn code_char(byte: u8) -> char {
    ALPHABET@[byte as int % 32]
}

/// The code that random bytes give: the prefix, then one character for each byte.
pub open spec fn code_text(prefix: Option<char>, bytes: Seq<u8>) -> Seq<char> {
    (match prefix {
        Some(c) => seq![c],
        None => Seq::empty(),
    }) + bytes.map_values(|b: u8| code_char(b))
}

/// Whether the text is a code with that prefix and that many random characters.
pub open spec fn is_code(s: Seq<char>, prefix: Option<char>, len: nat) -> bool {
    exists|bytes: Seq<u8>| bytes.len() == len && s == #[trigger] code_text(prefix, bytes)
}

/// The code that random bytes give.
pub fn code_from_bytes(prefix: Option<char>, bytes: &Vec<u8>) -> (r: String)
    ensures
        r@ == code_text(prefix, bytes@),
{
    let alphabet = chars_of(ALPHABET);
    proof {
        reveal_strlit("ABCDEFGHJKLMNPQRSTUVWXYZ23456789");
    }
    let mut r = String::new();
    match prefix {
        Some(c) => {
            r.push(c);
            assert(r@ =~= seq![c]);
        },
        None => {},
    }
    let ghost head = r@;
    let mut i: usize = 0;
    assert(r@ =~= code_text(prefix, bytes@.take(0)));
    while i < bytes.len()
        invariant
            i <= bytes@.len(),
            alphabet@ == ALPHABET@,
            alphabet@.len() == 32,
            r@ == code_text(prefix, bytes@.take(i as int)),
        decreases bytes@.len() - i,
    {
        let index: usize = bytes[i] as usize % 32;
        r.push(alphabet[index]);
        i += 1;
        assert(code_text(prefix, bytes@.take(i as int)) =~= code_text(
            prefix,
            bytes@.take(i - 1),
        ).push(code_char(bytes@[i - 1])));
    }
    assert(bytes@.take(i as int) =~= bytes@);
    r
}

/// A random code: the prefix, then `random_len` characters of the alphabet.
pub fn random_code(prefix: Option<char>, random_len: usize) -> (r: String)
    ensures
        is_code(r@, prefix, random_len as nat),
{
    let bytes = random_bytes(random_len);
    code_from_bytes(prefix, &bytes)
}

/// A code is its prefix and as many characters of the alphabet as were asked for.
pub proof fn code_shape(s: Seq<char>, prefix: Option<char>, len: nat)
    requires
        is_code(s, prefix, len),
    ensures
        s.len() == len + (if prefix is Some {
            1nat
        } else {
            0nat
        }),
        prefix is Some ==> s[0] == prefix->0,
        forall|i: int|
            (if prefix is Some {
                1int
            } else {
                0int
            }) <= i < s.len() ==> ALPHABET@.contains(#[trigger] s[i]),
{
    reveal_strlit("ABCDEFGHJKLMNPQRSTUVWXYZ23456789");
    let bytes = choose|bytes: Seq<u8>| bytes.len() == len && s == code_text(prefix, bytes);
    let skip: int = if prefix is Some {
        1
    } else {
        0
    };
    assert forall|i: int| skip <= i < s.len() implies ALPHABET@.contains(#[trigger] s[i]) by {
        assert(s[i] == ALPHABET@[bytes[i - skip] as int % 32]);
    }
}

// ---------------------------------------------------------------------------
// Redaction

/// Whether a member's name announces a credential.
pub open spec fn secret_key(key: Seq<char>) -> bool {
    regex_match(SECRET_KEY@, key)
}

/// Whether a text holds a credential.
pub open spec fn secret_value(s: Seq<char>) -> bool {
    regex_match(SECRET_VALUE@, s)
}

/// The text with its credentials replaced.
pub open spec fn redacted_text(s: Seq<char>) -> Seq<char> {
    regex_replaced(SECRET_VALUE@, s, REDACTED@)
}

/// The value with its credentials replaced: all that stands under a name that
/// announces one, and what looks like one in any text.
pub open spec fn redacted(t: Tree) -> Tree
    decreases t, 0nat,
{
    match t {
        Tree::Object(ms) => Tree::Object(redacted_members(ms, ms.len())),
        Tree::Array(ts) => Tree::Array(redacted_all(ts, ts.len())),
        Tree::Text(s) => Tree::Text(redacted_text(s)),
        other => other,
    }
}

pub open spec fn redacted_all(ts: Seq<Tree>, n: nat) -> Seq<Tree>
    decreases ts, n,
{
    if n == 0 || n > ts.len() {
        Seq::empty()
    } else {
        redacted_all(ts, (n - 1) as nat).push(redacted(ts[n - 1]))
    }
}

pub open spec fn redacted_members(ms: Seq<(Seq<char>, Tree)>, n: nat) -> Seq<(Seq<char>, Tree)>
    decreases ms, n,
{
    if n == 0 || n > ms.len() {
        Seq::empty()
    } else {
        redacted_members(ms, (n - 1) as nat).push(
            (
                ms[n - 1].0,
                if secret_key(ms[n - 1].0) {
                    Tree::Text(REDACTED@)
                } else {
                    redacted(ms[n - 1].1)
                },
            ),
        )
    }
}

proof fn lemma_redacted_all(ts: Seq<Tree>, n: nat)
    requires
        n <= ts.len(),
    ensures
        redacted_all(ts, n).len() == n,
        forall|i: int| 0 <= i < n ==> #[trigger] redacted_all(ts, n)[i] == redacted(ts[i]),
    decreases n,
{
    if n > 0 {
        lemma_redacted_all(ts, (n - 1) as nat);
    }
}

pub(crate) proof fn lemma_redacted_members(ms: Seq<(Seq<char>, Tree)>, n: nat)
    requires
        n <= ms.len(),
    ensures
        redacted_members(ms, n).len() == n,
        forall|i: int|
            0 <= i < n ==> #[trigger] redacted_members(ms, n)[i] == (
                ms[i].0,
                if secret_key(ms[i].0) {
                    Tree::Text(REDACTED@)
                } else {
                    redacted(ms[i].1)
                },
            ),
    decreases n,
{
    if n > 0 {
        lemma_redacted_members(ms, (n - 1) as nat);
    }
}

fn is_secret_key(key: &str) -> (r: bool)
    ensures
        r == secret_key(key@),
{
    regex_is_match(SECRET_KEY, key)
}

/// The text with its credentials replaced. It changes exactly where it holds one.
pub fn redact_text(value: &str) -> (r: String)
    ensures
        r@ == redacted_text(value@),
        secret_value(value@) <==> redacted_text(value@) != value@,
{
    regex_replace_all(SECRET_VALUE, value, REDACTED)
}

/// Whether the text holds a credential.
pub fn contains_secret_value(value: &str) -> (r: bool)
    ensures
        r == secret_value(value@),
{
    regex_is_match(SECRET_VALUE, value)
}

/// The value with its credentials replaced.
pub fn redact_json(value: &Json) -> (r: Json)
    ensures
        r@ == redacted(value@),
    decreases *value,
{
    match value {
        Json::Object(v) => {
            let mut w: Vec<Member> = Vec::new();
            let ghost ms = members(*v, v@.len());
            let mut i: usize = 0;
            proof {
                lemma_members(*v, v@.len());
                lemma_redacted_members(ms, ms.len());
            }
            let ghost out = redacted_members(ms, ms.len());
            while i < v.len()
                invariant
                    i <= v@.len(),
                    w@.len() == i,
                    *value == Json::Object(*v),
                    ms.len() == v@.len(),
                    out.len() == ms.len(),
                    forall|j: int|
                        0 <= j < ms.len() ==> #[trigger] ms[j] == (v@[j].key@, tree(v@[j].value)),
                    forall|j: int|
                        0 <= j < ms.len() ==> #[trigger] out[j] == (
                            ms[j].0,
                            if secret_key(ms[j].0) {
                                Tree::Text(REDACTED@)
                            } else {
                                redacted(ms[j].1)
                            },
                        ),
                    forall|j: int| 0 <= j < i ==> (#[trigger] w@[j]).key@ == out[j].0,
                    forall|j: int| 0 <= j < i ==> tree((#[trigger] w@[j]).value) == out[j].1,
                decreases v@.len() - i,
            {
                proof {
                    lemma_member_is_smaller(*value, *v, i as int);
                    assert(ms[i as int] == (v@[i as int].key@, tree(v@[i as int].value)));
                    assert(out[i as int].0 == ms[i as int].0);
                }
                let one = if is_secret_key(v[i].key.as_str()) {
                    Json::Text(REDACTED.to_owned())
                } else {
                    redact_json(&v[i].value)
                };
                w.push(Member { key: v[i].key.clone(), value: one });
                i += 1;
            }
            proof {
                lemma_members_are(w, out);
            }
            Json::Object(w)
        },
        Json::Array(v) => {
            let mut w: Vec<Json> = Vec::new();
            let mut i: usize = 0;
            while i < v.len()
                invariant
                    i <= v@.len(),
                    w@.len() == i,
                    *value == Json::Array(*v),
                    forall|j: int| 0 <= j < i ==> tree(#[trigger] w@[j]) == redacted(tree(v@[j])),
                decreases v@.len() - i,
            {
                proof {
                    lemma_element_is_smaller(*value, *v, i as int);
                }
                w.push(redact_json(&v[i]));
                i += 1;
            }
            proof {
                let ts = trees(*v, v@.len());
                lemma_trees(*v, v@.len());
                lemma_redacted_all(ts, ts.len());
                lemma_trees_are(w, redacted_all(ts, ts.len()));
            }
            Json::Array(w)
        },
        Json::Text(s) => Json::Text(redact_text(s.as_str())),
        _ => value.duplicate(),
    }
}

/// Whether any member's name in the value announces a credential.
pub open spec fn has_secret_key(t: Tree) -> bool
    decreases t, 0nat,
{
    match t {
        Tree::Object(ms) => some_secret_member(ms, ms.len()),
        Tree::Array(ts) => some_secret_key(ts, ts.len()),
        _ => false,
    }
}

pub open spec fn some_secret_key(ts: Seq<Tree>, n: nat) -> bool
    decreases ts, n,
{
    0 < n <= ts.len() && (some_secret_key(ts, (n - 1) as nat) || has_secret_key(ts[n - 1]))
}

pub open spec fn some_secret_member(ms: Seq<(Seq<char>, Tree)>, n: nat) -> bool
    decreases ms, n,
{
    0 < n <= ms.len() && (some_secret_member(ms, (n - 1) as nat) || secret_key(ms[n - 1].0)
        || has_secret_key(ms[n - 1].1))
}

/// Whether any member's name in the value announces a credential.
pub fn contains_secret_key(value: &Json) -> (r: bool)
    ensures
        r == has_secret_key(value@),
    decreases *value,
{
    match value {
        Json::Object(v) => {
            let ghost ms = members(*v, v@.len());
            let mut found = false;
            let mut i: usize = 0;
            proof {
                lemma_members(*v, v@.len());
            }
            while i < v.len()
                invariant
                    i <= v@.len(),
                    *value == Json::Object(*v),
                    ms.len() == v@.len(),
                    forall|j: int|
                        0 <= j < ms.len() ==> #[trigger] ms[j] == (v@[j].key@, tree(v@[j].value)),
                    found == some_secret_member(ms, i as nat),
                decreases v@.len() - i,
            {
                proof {
                    lemma_member_is_smaller(*value, *v, i as int);
                    assert(ms[i as int] == (v@[i as int].key@, tree(v@[i as int].value)));
                }
                if is_secret_key(v[i].key.as_str()) || contains_secret_key(&v[i].value) {
                    found = true;
                }
                i += 1;
            }
            found
        },
        Json::Array(v) => {
            let ghost ts = trees(*v, v@.len());
            let mut found = false;
            let mut i: usize = 0;
            proof {
                lemma_trees(*v, v@.len());
            }
            while i < v.len()
                invariant
                    i <= v@.len(),
                    *value == Json::Array(*v),
                    ts.len() == v@.len(),
                    forall|j: int| 0 <= j < ts.len() ==> #[trigger] ts[j] == tree(v@[j]),
                    found == some_secret_key(ts, i as nat),
                decreases v@.len() - i,
            {
                proof {
                    lemma_element_is_smaller(*value, *v, i as int);
                    assert(ts[i as int] == tree(v@[i as int]));
                }
                if contains_secret_key(&v[i]) {
                    found = true;
                }
                i += 1;
            }
            found
        },
        _ => false,
    }
}

/// Under a name that announces a credential nothing but the replacement is left.
pub proof fn secret_members_are_replaced(ms: Seq<(Seq<char>, Tree)>, i: int)
    requires
        0 <= i < ms.len(),
        secret_key(ms[i].0),
    ensures
        redacted(Tree::Object(ms)) matches Tree::Object(out) && out.len() == ms.len() && out[i] == (
            ms[i].0,
            Tree::Text(REDACTED@),
        ),
{
    lemma_redacted_members(ms, ms.len());
}

/// What comes of text that an agent wants sent.
pub open spec fn content_outcome(
    content: Seq<char>,
    max_chars: usize,
    r: Result<String, String>,
) -> bool {
    match r {
        Ok(text) => 0 < trim(content).len() <= max_chars && text@ == redacted_text(
            trim(content),
        ),
        Err(message) => if trim(content).len() == 0 {
            message@ == "content must not be empty"@
        } else {
            trim(content).len() > max_chars && message@ == "content exceeds the "@ + decimal(
                max_chars as nat,
            ) + "-character limit"@
        },
    }
}

/// What an agent wants to say: trimmed, not empty, short enough, and without
/// credentials.
pub fn validate_agent_content(content: &str, max_chars: usize) -> (r: Result<String, String>)
    ensures
        content_outcome(content@, max_chars, r),
{
    let text = trimmed(content);
    if text.as_str().is_empty() {
        return Err("content must not be empty".to_owned());
    }
    let chars = chars_of(text.as_str());
    if chars.len() > max_chars {
        let limit = decimal_text(max_chars as u64);
        return Err(cat3("content exceeds the ", limit.as_str(), "-character limit"));
    }
    Ok(redact_text(text.as_str()))
}

// ---------------------------------------------------------------------------
// Names, commands and paths of a call

/// The name of a tool in its normal form.
pub open spec fn tool_name_of(name: Seq<char>) -> Seq<char> {
    lower(trim(name)).map_values(
        |c: char|
            if c == '_' || c == '.' {
                '-'
            } else {
                c
            },
    )
}

/// The name of a tool in its normal form: trimmed, in small letters, with
/// hyphens for underscores and dots.
pub fn normalize_tool_name(name: &str) -> (r: String)
    ensures
        r@ == tool_name_of(name@),
{
    let t = trimmed(name);
    let low = to_lower(t.as_str());
    replace_two(low.as_str(), '_', '.', '-')
}

/// The text with the characters `a` and `b` replaced by `c`.
fn replace_two(s: &str, a: char, b: char, c: char) -> (r: String)
    ensures
        r@ == s@.map_values(
            |x: char|
                if x == a || x == b {
                    c
                } else {
                    x
                },
        ),
{
    let chars = chars_of(s);
    let mut r = String::new();
    let mut i: usize = 0;
    while i < chars.len()
        invariant
            i <= chars@.len(),
            r@.len() == i,
            forall|j: int|
                0 <= j < i ==> #[trigger] r@[j] == (if chars@[j] == a || chars@[j] == b {
                    c
                } else {
                    chars@[j]
                }),
        decreases chars@.len() - i,
    {
        r.push(
            if chars[i] == a || chars[i] == b {
                c
            } else {
                chars[i]
            },
        );
        i += 1;
    }
    assert(r@ =~= s@.map_values(
        |x: char|
            if x == a || x == b {
                c
            } else {
                x
            },
    ));
    r
}

/// The tools that run a command line.
pub open spec fn shell_tool(name: Seq<char>) -> bool {
    name == "powershell"@ || name == "run-in-terminal"@ || name == "run-terminal-command"@ || name
        == "shell"@
}

fn is_shell_tool(tool_name: &str) -> (r: bool)
    ensures
        r == shell_tool(tool_name@),
{
    str_eq(tool_name, "powershell") || str_eq(tool_name, "run-in-terminal") || str_eq(
        tool_name,
        "run-terminal-command",
    ) || str_eq(tool_name, "shell")
}

/// The tools that change files.
pub open spec fn edit_tool(name: Seq<char>) -> bool {
    contains(name, "apply-patch"@) || contains(name, "insert-"@) || contains(name, "replace-"@)
        || contains(name, "delete"@) || contains(name, "rename"@) || contains(name, "write"@)
}

fn is_edit_tool(tool_name: &str) -> (r: bool)
    ensures
        r == edit_tool(tool_name@),
{
    text_contains(tool_name, "apply-patch") || text_contains(tool_name, "insert-") || text_contains(
        tool_name,
        "replace-",
    ) || text_contains(tool_name, "delete") || text_contains(tool_name, "rename") || text_contains(
        tool_name,
        "write",
    )
}

/// The command line of a call: the first of three members that is a text.
pub open spec fn command_of(t: Tree) -> Option<Seq<char>> {
    match text_tree(get_tree(t, "command"@)) {
        Some(s) => Some(s),
        None => match text_tree(get_tree(t, "script"@)) {
            Some(s) => Some(s),
            None => text_tree(get_tree(t, "input"@)),
        },
    }
}

fn extract_command(value: &Json) -> (r: Option<String>)
    ensures
        opt_view(r) == command_of(value@),
{
    match value.get_text("command") {
        Some(s) => Some(s),
        None => match value.get_text("script") {
            Some(s) => Some(s),
            None => value.get_text("input"),
        },
    }
}

/// A command line in its normal form: its words in small letters, one space
/// between two of them.
pub open spec fn command_words(s: Seq<char>) -> Seq<char> {
    lower(join(nonempty(split(s, Separator::White)), " "@))
}

fn normalize_command(command: &str) -> (r: String)
    ensures
        r@ == command_words(command@),
{
    let line = joined(&words(command), " ");
    to_lower(line.as_str())
}

/// Whether a command line strings commands together, redirects, or leaves the
/// working directory.
pub open spec fn unsafe_composition(s: Seq<char>) -> bool {
    ||| contains(s, "\r"@)
    ||| contains(s, "\n"@)
    ||| contains(s, ";"@)
    ||| contains(s, "|"@)
    ||| contains(s, "&"@)
    ||| contains(s, "`"@)
    ||| contains(s, "$("@)
    ||| contains(s, ">"@)
    ||| contains(s, "<"@)
    ||| contains(s, "..\\"@)
    ||| contains(s, "../"@)
    ||| contains(s, ":\\"@)
    ||| contains(s, "\\\\"@)
}

fn command_has_unsafe_composition(command: &str) -> (r: bool)
    ensures
        r == unsafe_composition(command@),
{
    text_contains(command, "\r") || text_contains(command, "\n") || text_contains(command, ";")
        || text_contains(command, "|") || text_contains(command, "&") || text_contains(command, "`")
        || text_contains(command, "$(") || text_contains(command, ">") || text_contains(
        command,
        "<",
    ) || text_contains(command, "..\\") || text_contains(command, "../") || text_contains(
        command,
        ":\\",
    ) || text_contains(command, "\\\\")
}

/// Whether a command in its normal form is an allowed prefix, or one with
/// further words behind it.
pub open spec fn covered_by(command: Seq<char>, prefix: Seq<char>) -> bool {
    command == prefix || (starts_with(command, prefix) && starts_with(
        command.skip(prefix.len() as int),
        " "@,
    ))
}

fn is_covered_by(command: &str, prefix: &str) -> (r: bool)
    ensures
        r == covered_by(command@, prefix@),
{
    if str_eq(command, prefix) {
        return true;
    }
    match strip_prefix(command, prefix) {
        Some(suffix) => text_starts_with(suffix.as_str(), " "),
        None => false,
    }
}

/// The position of the first wildcard, or the end of the text.
pub open spec fn wildcard_at(s: Seq<char>, from: int) -> int
    decreases s.len() - from,
{
    if 0 <= from < s.len() && s[from] != '*' && s[from] != '?' {
        wildcard_at(s, from + 1)
    } else {
        from
    }
}

/// The text without the slashes at its end.
pub open spec fn without_end_slashes(s: Seq<char>) -> Seq<char>
    decreases s.len(),
{
    if s.len() > 0 && (s.last() == '\\' || s.last() == '/') {
        without_end_slashes(s.drop_last())
    } else {
        s
    }
}

/// What stands before the first wildcard of a pattern, without the slashes at
/// its end; the current directory where nothing is left.
pub open spec fn literal_prefix(s: Seq<char>) -> Seq<char> {
    let p = without_end_slashes(s.take(wildcard_at(s, 0)));
    if p.len() == 0 {
        "."@
    } else {
        p
    }
}

fn non_glob_prefix(value: &str) -> (r: String)
    ensures
        r@ == literal_prefix(value@),
{
    let s = chars_of(value);
    let mut to: usize = 0;
    while to < s.len() && s[to] != '*' && s[to] != '?'
        invariant
            to <= s@.len(),
            wildcard_at(s@, 0) == wildcard_at(s@, to as int),
        decreases s@.len() - to,
    {
        to += 1;
    }
    let ghost whole = s@.take(to as int);
    while to > 0 && (s[to - 1] == '\\' || s[to - 1] == '/')
        invariant
            to <= s@.len(),
            without_end_slashes(whole) == without_end_slashes(s@.take(to as int)),
        decreases to,
    {
        assert(s@.take(to as int).drop_last() =~= s@.take(to - 1));
        to -= 1;
    }
    if to == 0 {
        return ".".to_owned();
    }
    let r = slice_text(&s, 0, to);
    assert(r@ =~= s@.take(to as int));
    r
}

/// The member names under which a call names paths.
pub open spec fn path_key(key: Seq<char>) -> bool {
    let k = lower(key);
    k == "cwd"@ || k == "directory"@ || k == "file"@ || k == "file_path"@ || k == "path"@ || k
        == "paths"@ || k == "relative_path"@ || k == "root"@ || k == "workspace"@
}

fn is_path_key(key: &str) -> (r: bool)
    ensures
        r == path_key(key@),
{
    let low = to_lower(key);
    let k = low.as_str();
    str_eq(k, "cwd") || str_eq(k, "directory") || str_eq(k, "file") || str_eq(k, "file_path")
        || str_eq(k, "path") || str_eq(k, "paths") || str_eq(k, "relative_path") || str_eq(
        k,
        "root",
    ) || str_eq(k, "workspace")
}

/// The paths of a list as plain data.
pub open spec fn parts_of(paths: Seq<PathParts>) -> Seq<Parts> {
    paths.map_values(|p: PathParts| p@)
}

/// The paths that a value under a path name writes.
pub open spec fn path_values(t: Tree, cwd: Seq<char>) -> Seq<Parts>
    decreases t, 0nat,
{
    match t {
        Tree::Text(s) => seq![resolved(cwd, literal_prefix(s))],
        Tree::Array(ts) => path_values_all(ts, cwd, ts.len()),
        _ => Seq::empty(),
    }
}

pub open spec fn path_values_all(ts: Seq<Tree>, cwd: Seq<char>, n: nat) -> Seq<Parts>
    decreases ts, n,
{
    if n == 0 || n > ts.len() {
        Seq::empty()
    } else {
        path_values_all(ts, cwd, (n - 1) as nat) + path_values(ts[n - 1], cwd)
    }
}

/// The paths that a value names under path names, at any depth.
pub open spec fn structured_paths(t: Tree, cwd: Seq<char>) -> Seq<Parts>
    decreases t, 0nat,
{
    match t {
        Tree::Object(ms) => structured_members(ms, cwd, ms.len()),
        Tree::Array(ts) => structured_all(ts, cwd, ts.len()),
        _ => Seq::empty(),
    }
}

pub open spec fn structured_all(ts: Seq<Tree>, cwd: Seq<char>, n: nat) -> Seq<Parts>
    decreases ts, n,
{
    if n == 0 || n > ts.len() {
        Seq::empty()
    } else {
        structured_all(ts, cwd, (n - 1) as nat) + structured_paths(ts[n - 1], cwd)
    }
}

pub open spec fn structured_members(
    ms: Seq<(Seq<char>, Tree)>,
    cwd: Seq<char>,
    n: nat,
) -> Seq<Parts>
    decreases ms, n,
{
    if n == 0 || n > ms.len() {
        Seq::empty()
    } else {
        structured_members(ms, cwd, (n - 1) as nat) + (if path_key(ms[n - 1].0) {
            path_values(ms[n - 1].1, cwd)
        } else {
            structured_paths(ms[n - 1].1, cwd)
        })
    }
}

fn collect_path_values(value: &Json, cwd: &str, paths: &mut Vec<PathParts>)
    ensures
        parts_of(final(paths)@) == parts_of(old(paths)@) + path_values(value@, cwd@),
    decreases *value,
{
    let ghost start = parts_of(paths@);
    match value {
        Json::Text(s) => {
            let prefix = non_glob_prefix(s.as_str());
            paths.push(resolve_path(cwd, prefix.as_str()));
            assert(parts_of(paths@) =~= start + path_values(value@, cwd@));
        },
        Json::Array(v) => {
            let ghost ts = trees(*v, v@.len());
            proof {
                lemma_trees(*v, v@.len());
                assert(start + path_values_all(ts, cwd@, 0) =~= start);
            }
            let mut i: usize = 0;
            while i < v.len()
                invariant
                    i <= v@.len(),
                    *value == Json::Array(*v),
                    ts.len() == v@.len(),
                    forall|j: int| 0 <= j < ts.len() ==> #[trigger] ts[j] == tree(v@[j]),
                    parts_of(paths@) == start + path_values_all(ts, cwd@, i as nat),
                decreases v@.len() - i,
            {
                proof {
                    lemma_element_is_smaller(*value, *v, i as int);
                    assert(ts[i as int] == tree(v@[i as int]));
                }
                collect_path_values(&v[i], cwd, paths);
                i += 1;
                assert(parts_of(paths@) =~= start + path_values_all(ts, cwd@, i as nat));
            }
        },
        _ => {
            assert(parts_of(paths@) =~= start + path_values(value@, cwd@));
        },
    }
}

fn collect_structured_paths(value: &Json, cwd: &str, paths: &mut Vec<PathParts>)
    ensures
        parts_of(final(paths)@) == parts_of(old(paths)@) + structured_paths(value@, cwd@),
    decreases *value,
{
    let ghost start = parts_of(paths@);
    match value {
        Json::Object(v) => {
            let ghost ms = members(*v, v@.len());
            proof {
                lemma_members(*v, v@.len());
                assert(start + structured_members(ms, cwd@, 0) =~= start);
            }
            let mut i: usize = 0;
            while i < v.len()
                invariant
                    i <= v@.len(),
                    *value == Json::Object(*v),
                    ms.len() == v@.len(),
                    forall|j: int|
                        0 <= j < ms.len() ==> #[trigger] ms[j] == (v@[j].key@, tree(v@[j].value)),
                    parts_of(paths@) == start + structured_members(ms, cwd@, i as nat),
                decreases v@.len() - i,
            {
                proof {
                    lemma_member_is_smaller(*value, *v, i as int);
                    assert(ms[i as int] == (v@[i as int].key@, tree(v@[i as int].value)));
                }
                if is_path_key(v[i].key.as_str()) {
                    collect_path_values(&v[i].value, cwd, paths);
                } else {
                    collect_structured_paths(&v[i].value, cwd, paths);
                }
                i += 1;
                assert(parts_of(paths@) =~= start + structured_members(ms, cwd@, i as nat));
            }
        },
        Json::Array(v) => {
            let ghost ts = trees(*v, v@.len());
            proof {
                lemma_trees(*v, v@.len());
                assert(start + structured_all(ts, cwd@, 0) =~= start);
            }
            let mut i: usize = 0;
            while i < v.len()
                invariant
                    i <= v@.len(),
                    *value == Json::Array(*v),
                    ts.len() == v@.len(),
                    forall|j: int| 0 <= j < ts.len() ==> #[trigger] ts[j] == tree(v@[j]),
                    parts_of(paths@) == start + structured_all(ts, cwd@, i as nat),
                decreases v@.len() - i,
            {
                proof {
                    lemma_element_is_smaller(*value, *v, i as int);
                    assert(ts[i as int] == tree(v@[i as int]));
                }
                collect_structured_paths(&v[i], cwd, paths);
                i += 1;
                assert(parts_of(paths@) =~= start + structured_all(ts, cwd@, i as nat));
            }
        },
        _ => {
            assert(parts_of(paths@) =~= start + structured_paths(value@, cwd@));
        },
    }
}

/// The text of a patch: the value itself, or its member `patch`, or `input`
/// where there is no `patch`.
pub open spec fn patch_of(t: Tree) -> Option<Seq<char>> {
    match t {
        Tree::Text(s) => Some(s),
        _ => match get_tree(t, "patch"@) {
            Some(p) => text_tree(Some(p)),
            None => text_tree(get_tree(t, "input"@)),
        },
    }
}

/// The path that a line of a patch names behind `mark`, if any.
pub open spec fn marked_path(line: Seq<char>, mark: Seq<char>, cwd: Seq<char>) -> Seq<Parts> {
    if starts_with(line, mark) {
        seq![resolved(cwd, trim(line.skip(mark.len() as int)))]
    } else {
        Seq::empty()
    }
}

/// The paths that a line of a patch names.
pub open spec fn line_paths(line: Seq<char>, cwd: Seq<char>) -> Seq<Parts> {
    marked_path(line, "*** Add File: "@, cwd) + marked_path(line, "*** Update File: "@, cwd)
        + marked_path(line, "*** Delete File: "@, cwd) + marked_path(line, "*** Move to: "@, cwd)
}

/// The paths that the lines of a patch name.
pub open spec fn patch_paths(ls: Seq<Seq<char>>, cwd: Seq<char>) -> Seq<Parts>
    decreases ls.len(),
{
    if ls.len() == 0 {
        Seq::empty()
    } else {
        patch_paths(ls.drop_last(), cwd) + line_paths(ls.last(), cwd)
    }
}

fn push_marked(line: &str, mark: &str, cwd: &str, paths: &mut Vec<PathParts>)
    ensures
        parts_of(final(paths)@) == parts_of(old(paths)@) + marked_path(line@, mark@, cwd@),
{
    let ghost start = parts_of(paths@);
    match strip_prefix(line, mark) {
        Some(rest) => {
            let path = trimmed(rest.as_str());
            paths.push(resolve_path(cwd, path.as_str()));
            assert(parts_of(paths@) =~= start + marked_path(line@, mark@, cwd@));
        },
        None => {
            assert(parts_of(paths@) =~= start + marked_path(line@, mark@, cwd@));
        },
    }
}

fn collect_patch_paths(value: &Json, cwd: &str, paths: &mut Vec<PathParts>)
    ensures
        parts_of(final(paths)@) == parts_of(old(paths)@) + (match patch_of(value@) {
            Some(patch) => patch_paths(lines(patch), cwd@),
            None => Seq::empty(),
        }),
{
    let ghost start = parts_of(paths@);
    assert(start + Seq::<Parts>::empty() =~= start);
    let patch = match value {
        Json::Text(s) => Some(s.clone()),
        _ => match value.get("patch") {
            Some(p) => match p.as_str() {
                Some(s) => Some(s.to_owned()),
                None => None,
            },
            None => value.get_text("input"),
        },
    };
    assert(opt_view(patch) == patch_of(value@));
    match patch {
        Some(patch) => {
            let all = text_lines(patch.as_str());
            let ghost ls = views(all@);
            let mut i: usize = 0;
            assert(ls.take(0) =~= Seq::<Seq<char>>::empty());
            while i < all.len()
                invariant
                    i <= all@.len(),
                    ls == views(all@),
                    parts_of(paths@) == start + patch_paths(ls.take(i as int), cwd@),
                decreases all@.len() - i,
            {
                let ghost before = parts_of(paths@);
                push_marked(all[i].as_str(), "*** Add File: ", cwd, paths);
                push_marked(all[i].as_str(), "*** Update File: ", cwd, paths);
                push_marked(all[i].as_str(), "*** Delete File: ", cwd, paths);
                push_marked(all[i].as_str(), "*** Move to: ", cwd, paths);
                assert(parts_of(paths@) =~= before + line_paths(ls[i as int], cwd@));
                assert(ls.take(i + 1).drop_last() =~= ls.take(i as int));
                i += 1;
                assert(parts_of(paths@) =~= start + patch_paths(ls.take(i as int), cwd@));
            }
            assert(ls.take(i as int) =~= ls);
        },
        None => {},
    }
}

/// The paths that a call touches.
pub open spec fn call_paths(tool: Seq<char>, t: Tree, cwd: Seq<char>) -> Seq<Parts> {
    structured_paths(t, cwd) + (if contains(tool, "apply-patch"@) {
        match patch_of(t) {
            Some(patch) => patch_paths(lines(patch), cwd),
            None => Seq::empty(),
        }
    } else {
        Seq::empty()
    })
}

/// The paths that a call touches, as they come: those under path names, and those of
/// a patch.
fn touched_paths(tool_name: &str, value: &Json, cwd: &str) -> (r: Vec<PathParts>)
    ensures
        parts_of(r@) == call_paths(tool_name@, value@, cwd@),
{
    let mut paths: Vec<PathParts> = Vec::new();
    collect_structured_paths(value, cwd, &mut paths);
    assert(parts_of(paths@) =~= structured_paths(value@, cwd@));
    if text_contains(tool_name, "apply-patch") {
        collect_patch_paths(value, cwd, &mut paths);
    } else {
        assert(parts_of(paths@) =~= parts_of(paths@) + Seq::<Parts>::empty());
    }
    paths
}

/// The text by which a path is held against the list of sensitive files.
pub open spec fn sensitive_text(p: Parts) -> Seq<char> {
    let s = render(p).map_values(
        |c: char|
            if c == '\\' {
                '/'
            } else {
                c
            },
    );
    if last_name(p) is Some {
        s.push('/')
    } else {
        s
    }
}

/// Whether the path names a file that holds credentials.
pub open spec fn sensitive(p: Parts) -> bool {
    regex_match(SENSITIVE_PATH@, sensitive_text(p))
}

fn is_sensitive_path(path: &PathParts) -> (r: bool)
    ensures
        r == sensitive(path@),
{
    let text = path_text(path);
    let mut normalized = replace_two(text.as_str(), '\\', '\\', '/');
    assert(normalized@ =~= render(path@).map_values(
        |c: char|
            if c == '\\' {
                '/'
            } else {
                c
            },
    ));
    match file_name(path) {
        Some(_) => {
            normalized.push('/');
        },
        None => {},
    }
    regex_is_match(SENSITIVE_PATH, normalized.as_str())
}

/// The digest of a text's bytes in small hexadecimal digits.
pub open spec fn text_hash(s: Seq<char>) -> Seq<char> {
    hex_text(sha256(encode_utf8(s)))
}

/// The digest by which a workspace is known: that of its path's normal form.
pub fn workspace_hash(path: &str) -> (r: String)
    ensures
        r@ == text_hash(render(normal(path@))),
        is_digest(r@),
{
    let text = path_text(&normalize_path(path));
    sha256_hex(text.as_str().as_bytes())
}

/// The name under which a working directory is shown.
pub open spec fn shown_directory(cwd: Seq<char>) -> Seq<char> {
    match last_name(parse(cwd)) {
        Some(name) => "...\\"@ + name,
        None => "[workspace]"@,
    }
}

/// The last name of a working directory behind three dots.
pub fn display_workspace_path(path: &str) -> (r: String)
    ensures
        r@ == shown_directory(path@),
{
    match file_name(&parse_path(path)) {
        Some(name) => cat("...\\", name.as_str()),
        None => "[workspace]".to_owned(),
    }
}

// ---------------------------------------------------------------------------
// The verdict

/// What becomes of a tool call.
#[derive(Clone, Copy, Debug, PartialEq, Eq, Structural)]
pub enum PolicyAction {
    AutoAllow,
    RequireApproval,
    Deny,
}

/// The verdict on a tool call.
#[derive(Debug)]
pub struct Classification {
    pub action: PolicyAction,
    pub risk: RiskLevel,
    pub input_hash: String,
    pub redacted_input: Json,
    pub summary: String,
    pub reason: String,
}

/// The verdict on a tool call as plain data.
pub ghost struct Verdict {
    pub action: PolicyAction,
    pub risk: RiskLevel,
    pub summary: Seq<char>,
    pub reason: Seq<char>,
}

/// The rules by which tool calls are judged.
pub struct Classifier<'a> {
    pub policy: &'a PolicyConfig,
    pub workspace_roots: &'a [String],
    pub protected_paths: &'a [String],
}

/// Whether the path lies within one of the places.
pub open spec fn within_any(path: Seq<char>, places: Seq<String>) -> bool {
    exists|i: int| 0 <= i < places.len() && within(path, (#[trigger] places[i])@)
}

/// Whether the tool is on the list, both names in their normal form.
pub open spec fn listed(tool: Seq<char>, list: Seq<String>) -> bool {
    exists|i: int| 0 <= i < list.len() && tool_name_of((#[trigger] list[i])@) == tool
}

/// Whether the command in its normal form is covered by one of the prefixes.
pub open spec fn command_listed(command: Seq<char>, prefixes: Seq<String>) -> bool {
    exists|i: int|
        0 <= i < prefixes.len() && covered_by(command, command_words((#[trigger] prefixes[i])@))
}

/// The verdict that refuses a call.
pub open spec fn denial(reason: Seq<char>) -> Verdict {
    Verdict {
        action: PolicyAction::Deny,
        risk: RiskLevel::Forbidden,
        summary: reason,
        reason,
    }
}

/// What is shown of a call: the tool, its redacted input and the directory.
pub open spec fn call_summary(tool: Seq<char>, input: Tree, cwd: Seq<char>) -> Seq<char> {
    "工具: "@ + tool + "\n参数: "@ + truncated_view(compact(canonical(input)), 1000)
        + "\n目录: "@ + shown_directory(cwd)
}

/// What is shown of a command: the command and the directory.
pub open spec fn shell_summary(command: Seq<char>, cwd: Seq<char>) -> Seq<char> {
    "工具: powershell\n操作: "@ + truncated_view(redacted_text(command), 500) + "\n目录: "@
        + shown_directory(cwd)
}

/// The verdict on a call of a shell tool.
pub open spec fn shell_verdict(prefixes: Seq<String>, input: Tree, cwd: Seq<char>) -> Verdict {
    match command_of(input) {
        None => denial("Shell command could not be determined"@),
        Some(command) => {
            let normalized = command_words(command);
            if regex_match(FORBIDDEN_COMMAND@, normalized) || unsafe_composition(
                command,
            ) {
                denial("Command matches a permanently forbidden operation"@)
            } else if !command_listed(normalized, prefixes) {
                denial("Command is not in the explicit build/test allowlist"@)
            } else {
                Verdict {
                    action: PolicyAction::RequireApproval,
                    risk: RiskLevel::Medium,
                    summary: shell_summary(command, cwd),
                    reason: "Allowlisted command requires one-time QQ approval"@,
                }
            }
        },
    }
}

impl<'a> Classifier<'a> {
    /// The verdict on a call.
    pub open spec fn verdict(self, tool_name: Seq<char>, input: Tree, cwd: Seq<char>) -> Verdict {
        let tool = tool_name_of(tool_name);
        let shown = redacted(input);
        let paths = call_paths(tool, input, cwd);
        if !within_any(cwd, self.workspace_roots@) {
            denial("Workspace is outside the configured roots"@)
        } else if has_secret_key(input) || secret_value(compact(canonical(shown))) {
            denial("Tool input contains credential-like data"@)
        } else if exists|i: int|
            0 <= i < paths.len() && (sensitive(#[trigger] paths[i]) || within_any(
                render(paths[i]),
                self.protected_paths@,
            )) {
            denial("Access to credentials or bridge security files is forbidden"@)
        } else if exists|i: int|
            0 <= i < paths.len() && !within_any(
                render(#[trigger] paths[i]),
                self.workspace_roots@,
            ) {
            denial("Tool path is outside the configured workspace roots"@)
        } else if shell_tool(tool) {
            shell_verdict(self.policy.approved_command_prefixes@, input, cwd)
        } else if listed(tool, self.policy.auto_allow_tools@) {
            Verdict {
                action: PolicyAction::AutoAllow,
                risk: RiskLevel::Low,
                summary: call_summary(tool, shown, cwd),
                reason: "Explicit read-only or internal QQ tool allowlist"@,
            }
        } else if listed(tool, self.policy.approval_tools@) {
            if edit_tool(tool) && paths.len() == 0 {
                denial("The edit target could not be determined safely"@)
            } else {
                Verdict {
                    action: PolicyAction::RequireApproval,
                    risk: if contains(tool, "delete"@) || contains(tool, "network"@) || tool
                        == "web-fetch"@ {
                        RiskLevel::High
                    } else {
                        RiskLevel::Medium
                    },
                    summary: call_summary(tool, shown, cwd),
                    reason: "Explicit single-use approval allowlist"@,
                }
            }
        } else {
            denial("Unknown tools are denied by default"@)
        }
    }

    /// The rules of a policy for these workspaces and protected places.
    pub fn new(
        policy: &'a PolicyConfig,
        workspace_roots: &'a [String],
        protected_paths: &'a [String],
    ) -> (r: Self)
        ensures
            r.policy == policy,
            r.workspace_roots == workspace_roots,
            r.protected_paths == protected_paths,
    {
        Classifier { policy, workspace_roots, protected_paths }
    }

    /// The verdict on a tool call in a working directory.
    pub fn classify(&self, tool_name: &str, tool_input: &Json, cwd: &str) -> (r: Classification)
        ensures
            r.redacted_input@ == redacted(tool_input@),
            r.input_hash@ == text_hash(compact(canonical(redacted(tool_input@)))),
            r.action == self.verdict(tool_name@, tool_input@, cwd@).action,
            r.risk == self.verdict(tool_name@, tool_input@, cwd@).risk,
            r.summary@ == self.verdict(tool_name@, tool_input@, cwd@).summary,
            r.reason@ == self.verdict(tool_name@, tool_input@, cwd@).reason,
    {
        let normalized_tool = normalize_tool_name(tool_name);
        let tool = normalized_tool.as_str();
        let redacted_input = redact_json(tool_input);
        let canonical_text = canonical_json(&redacted_input);
        let input_hash = sha256_hex(canonical_text.as_str().as_bytes());
        if !self.cwd_is_allowed(cwd) {
            return denied(input_hash, redacted_input, "Workspace is outside the configured roots");
        }
        if contains_secret_key(tool_input) || contains_secret_value(canonical_text.as_str()) {
            return denied(input_hash, redacted_input, "Tool input contains credential-like data");
        }
        let paths = touched_paths(tool, tool_input, cwd);
        let ghost parts = call_paths(tool@, tool_input@, cwd@);
        if self.any_forbidden(&paths) {
            return denied(
                input_hash,
                redacted_input,
                "Access to credentials or bridge security files is forbidden",
            );
        }
        if self.any_outside(&paths) {
            return denied(
                input_hash,
                redacted_input,
                "Tool path is outside the configured workspace roots",
            );
        }
        assert(paths@.len() == parts.len());
        if is_shell_tool(tool) {
            return self.classify_shell(tool_input, input_hash, redacted_input, cwd);
        }
        if is_listed(tool, &self.policy.auto_allow_tools) {
            let summary = summarize(tool, &redacted_input, cwd);
            return Classification {
                action: PolicyAction::AutoAllow,
                risk: RiskLevel::Low,
                input_hash,
                redacted_input,
                summary,
                reason: "Explicit read-only or internal QQ tool allowlist".to_owned(),
            };
        }
        if is_listed(tool, &self.policy.approval_tools) {
            if is_edit_tool(tool) && paths.len() == 0 {
                return denied(
                    input_hash,
                    redacted_input,
                    "The edit target could not be determined safely",
                );
            }
            let risk = if text_contains(tool, "delete") || text_contains(tool, "network") || str_eq(
                tool,
                "web-fetch",
            ) {
                RiskLevel::High
            } else {
                RiskLevel::Medium
            };
            let summary = summarize(tool, &redacted_input, cwd);
            return Classification {
                action: PolicyAction::RequireApproval,
                risk,
                input_hash,
                redacted_input,
                summary,
                reason: "Explicit single-use approval allowlist".to_owned(),
            };
        }
        denied(input_hash, redacted_input, "Unknown tools are denied by default")
    }

    fn classify_shell(
        &self,
        tool_input: &Json,
        input_hash: String,
        redacted_input: Json,
        cwd: &str,
    ) -> (r: Classification)
        ensures
            r.redacted_input == redacted_input,
            r.input_hash == input_hash,
            ({
                let v = shell_verdict(
                    self.policy.approved_command_prefixes@,
                    tool_input@,
                    cwd@,
                );
                r.action == v.action && r.risk == v.risk && r.summary@ == v.summary && r.reason@
                    == v.reason
            }),
    {
        let command = match extract_command(tool_input) {
            Some(command) => command,
            None => {
                return denied(input_hash, redacted_input, "Shell command could not be determined");
            },
        };
        let normalized = normalize_command(command.as_str());
        let forbidden = regex_is_match(FORBIDDEN_COMMAND, normalized.as_str());
        if forbidden || command_has_unsafe_composition(command.as_str()) {
            return denied(
                input_hash,
                redacted_input,
                "Command matches a permanently forbidden operation",
            );
        }
        if !is_command_listed(normalized.as_str(), &self.policy.approved_command_prefixes) {
            return denied(
                input_hash,
                redacted_input,
                "Command is not in the explicit build/test allowlist",
            );
        }
        let shown = redact_text(command.as_str());
        let short = truncate(shown.as_str(), 500);
        let mut summary = cat3("工具: powershell\n操作: ", short.as_str(), "\n目录: ");
        let directory = display_workspace_path(cwd);
        summary.append(directory.as_str());
        Classification {
            action: PolicyAction::RequireApproval,
            risk: RiskLevel::Medium,
            input_hash,
            redacted_input,
            summary,
            reason: "Allowlisted command requires one-time QQ approval".to_owned(),
        }
    }

    fn cwd_is_allowed(&self, cwd: &str) -> (r: bool)
        ensures
            r == within_any(cwd@, self.workspace_roots@),
    {
        is_within_any(cwd, self.workspace_roots)
    }

    fn path_is_in_workspace(&self, path: &PathParts) -> (r: bool)
        ensures
            r == within_any(render(path@), self.workspace_roots@),
    {
        let text = path_text(path);
        is_within_any(text.as_str(), self.workspace_roots)
    }

    fn is_protected(&self, path: &PathParts) -> (r: bool)
        ensures
            r == within_any(render(path@), self.protected_paths@),
    {
        let text = path_text(path);
        is_within_any(text.as_str(), self.protected_paths)
    }

    fn any_forbidden(&self, paths: &Vec<PathParts>) -> (r: bool)
        ensures
            r == exists|i: int|
                0 <= i < parts_of(paths@).len() && (sensitive(#[trigger] parts_of(paths@)[i])
                    || within_any(render(parts_of(paths@)[i]), self.protected_paths@)),
    {
        let mut i: usize = 0;
        while i < paths.len()
            invariant
                i <= paths@.len(),
                forall|j: int|
                    0 <= j < i ==> !sensitive(#[trigger] parts_of(paths@)[j]) && !within_any(
                        render(parts_of(paths@)[j]),
                        self.protected_paths@,
                    ),
            decreases paths@.len() - i,
        {
            if is_sensitive_path(&paths[i]) || self.is_protected(&paths[i]) {
                assert(parts_of(paths@)[i as int] == paths@[i as int]@);
                return true;
            }
            i += 1;
        }
        false
    }

    fn any_outside(&self, paths: &Vec<PathParts>) -> (r: bool)
        ensures
            r == exists|i: int|
                0 <= i < parts_of(paths@).len() && !within_any(
                    render(#[trigger] parts_of(paths@)[i]),
                    self.workspace_roots@,
                ),
    {
        let mut i: usize = 0;
        while i < paths.len()
            invariant
                i <= paths@.len(),
                forall|j: int|
                    0 <= j < i ==> within_any(
                        render(#[trigger] parts_of(paths@)[j]),
                        self.workspace_roots@,
                    ),
            decreases paths@.len() - i,
        {
            if !self.path_is_in_workspace(&paths[i]) {
                assert(parts_of(paths@)[i as int] == paths@[i as int]@);
                return true;
            }
            i += 1;
        }
        false
    }
}

/// Whether the path lies within one of the places.
pub fn is_within_any(path: &str, places: &[String]) -> (r: bool)
    ensures
        r == within_any(path@, places@),
{
    let mut i: usize = 0;
    while i < places.len()
        invariant
            i <= places@.len(),
            forall|j: int| 0 <= j < i ==> !within(path@, (#[trigger] places@[j])@),
        decreases places@.len() - i,
    {
        if path_is_within(path, places[i].as_str()) {
            assert(within(path@, places@[i as int]@));
            return true;
        }
        i += 1;
    }
    false
}

fn is_listed(tool: &str, list: &Vec<String>) -> (r: bool)
    ensures
        r == listed(tool@, list@),
{
    let mut i: usize = 0;
    while i < list.len()
        invariant
            i <= list@.len(),
            forall|j: int| 0 <= j < i ==> tool_name_of((#[trigger] list@[j])@) != tool@,
        decreases list@.len() - i,
    {
        let name = normalize_tool_name(list[i].as_str());
        if str_eq(name.as_str(), tool) {
            assert(tool_name_of(list@[i as int]@) == tool@);
            return true;
        }
        i += 1;
    }
    false
}

fn is_command_listed(command: &str, prefixes: &Vec<String>) -> (r: bool)
    ensures
        r == command_listed(command@, prefixes@),
{
    let mut i: usize = 0;
    while i < prefixes.len()
        invariant
            i <= prefixes@.len(),
            forall|j: int|
                0 <= j < i ==> !covered_by(command@, command_words((#[trigger] prefixes@[j])@)),
        decreases prefixes@.len() - i,
    {
        let prefix = normalize_command(prefixes[i].as_str());
        if is_covered_by(command, prefix.as_str()) {
            assert(covered_by(command@, command_words(prefixes@[i as int]@)));
            return true;
        }
        i += 1;
    }
    false
}

fn denied(input_hash: String, redacted_input: Json, reason: &str) -> (r: Classification)
    ensures
        r.action == PolicyAction::Deny,
        r.risk == RiskLevel::Forbidden,
        r.input_hash == input_hash,
        r.redacted_input == redacted_input,
        r.summary@ == reason@,
        r.reason@ == reason@,
{
    Classification {
        action: PolicyAction::Deny,
        risk: RiskLevel::Forbidden,
        input_hash,
        redacted_input,
        summary: reason.to_owned(),
        reason: reason.to_owned(),
    }
}

fn summarize(tool_name: &str, value: &Json, cwd: &str) -> (r: String)
    ensures
        r@ == call_summary(tool_name@, value@, cwd@),
{
    let text = canonical_json(value);
    let input = truncate(text.as_str(), 1000);
    let mut r = cat3("工具: ", tool_name, "\n参数: ");
    r.append(input.as_str());
    r.append("\n目录: ");
    let directory = display_workspace_path(cwd);
    r.append(directory.as_str());
    r
}

// ---------------------------------------------------------------------------
// Laws

/// Texts with the same bytes hold the same characters, so two texts compare as
/// equal exactly when they are.
pub proof fn constant_time_eq_is_equality(left: &str, right: &str)
    ensures
        left.spec_bytes() == right.spec_bytes() <==> left@ == right@,
{
    encode_utf8_decode_utf8(left@);
    encode_utf8_decode_utf8(right@);
}

/// A tool that is on no list, and runs no command line, is refused.
pub proof fn unlisted_tools_are_denied(
    rules: Classifier,
    tool_name: Seq<char>,
    input: Tree,
    cwd: Seq<char>,
)
    requires
        !shell_tool(tool_name_of(tool_name)),
        !listed(tool_name_of(tool_name), rules.policy.auto_allow_tools@),
        !listed(tool_name_of(tool_name), rules.policy.approval_tools@),
    ensures
        rules.verdict(tool_name, input, cwd).action == PolicyAction::Deny,
        rules.verdict(tool_name, input, cwd).risk == RiskLevel::Forbidden,
{
}

/// A call that touches a path outside the workspaces, a protected path or a
/// sensitive file is refused, whatever the policy lists.
pub proof fn stray_paths_are_denied(
    rules: Classifier,
    tool_name: Seq<char>,
    input: Tree,
    cwd: Seq<char>,
    i: int,
)
    requires
        0 <= i < call_paths(tool_name_of(tool_name), input, cwd).len(),
        ({
            let p = call_paths(tool_name_of(tool_name), input, cwd)[i];
            sensitive(p) || within_any(render(p), rules.protected_paths@) || !within_any(
                render(p),
                rules.workspace_roots@,
            )
        }),
    ensures
        rules.verdict(tool_name, input, cwd).action == PolicyAction::Deny,
{
}

/// A command line is never allowed without approval: it is refused or has to
/// be approved, and where it strings commands together it is refused.
pub proof fn commands_need_approval(
    rules: Classifier,
    tool_name: Seq<char>,
    input: Tree,
    cwd: Seq<char>,
)
    requires
        shell_tool(tool_name_of(tool_name)),
    ensures
        rules.verdict(tool_name, input, cwd).action != PolicyAction::AutoAllow,
        command_of(input) is Some && unsafe_composition(command_of(input)->0) ==> rules.verdict(
            tool_name,
            input,
            cwd,
        ).action == PolicyAction::Deny,
{
}

/// Only calls that are refused are rated as forbidden.
pub proof fn forbidden_means_denied(
    rules: Classifier,
    tool_name: Seq<char>,
    input: Tree,
    cwd: Seq<char>,
)
    ensures
        rules.verdict(tool_name, input, cwd).action == PolicyAction::Deny <==> rules.verdict(
            tool_name,
            input,
            cwd,
        ).risk == RiskLevel::Forbidden,
{
}

/// Whether nothing about a call stands against it but perhaps its tool: its directory
/// lies in a workspace, its input holds no credentials, and every path that it touches
/// lies in a workspace, is not protected and names no file of credentials.
pub open spec fn is_harmless(rules: Classifier, tool: Seq<char>, input: Tree, cwd: Seq<char>) -> bool {
    let paths = call_paths(tool, input, cwd);
    &&& exists|w: int| 0 <= w < rules.workspace_roots@.len() && within(
        cwd,
        (#[trigger] rules.workspace_roots@[w])@,
    )
    &&& !has_secret_key(input)
    &&& !regex_match(SECRET_VALUE@, compact(canonical(redacted(input))))
    &&& forall|i: int|
        0 <= i < paths.len() ==> {
            let place = render(#[trigger] paths[i]);
            &&& !regex_match(SENSITIVE_PATH@, sensitive_text(paths[i]))
            &&& exists|w: int| 0 <= w < rules.workspace_roots@.len() && within(
                place,
                (#[trigger] rules.workspace_roots@[w])@,
            )
            &&& forall|w: int|
                0 <= w < rules.protected_paths@.len() ==> !within(
                    place,
                    (#[trigger] rules.protected_paths@[w])@,
                )
        }
}

/// Whether the tool is one that runs a command line.
pub open spec fn runs_commands(tool: Seq<char>) -> bool {
    tool == "powershell"@ || tool == "run-in-terminal"@ || tool == "run-terminal-command"@ || tool
        == "shell"@
}

/// Whether the tool's name says that it changes files.
pub open spec fn changes_files(tool: Seq<char>) -> bool {
    contains(tool, "apply-patch"@) || contains(tool, "insert-"@) || contains(tool, "replace-"@)
        || contains(tool, "delete"@) || contains(tool, "rename"@) || contains(tool, "write"@)
}

proof fn lemma_harmless(rules: Classifier, tool_name: Seq<char>, input: Tree, cwd: Seq<char>)
    ensures
        is_harmless(rules, tool_name_of(tool_name), input, cwd) <==> {
            let tool = tool_name_of(tool_name);
            let paths = call_paths(tool, input, cwd);
            &&& within_any(cwd, rules.workspace_roots@)
            &&& !(has_secret_key(input) || secret_value(compact(canonical(redacted(input)))))
            &&& forall|i: int|
                0 <= i < paths.len() ==> !(sensitive(#[trigger] paths[i]) || within_any(
                    render(paths[i]),
                    rules.protected_paths@,
                ))
            &&& forall|i: int|
                0 <= i < paths.len() ==> within_any(
                    render(#[trigger] paths[i]),
                    rules.workspace_roots@,
                )
        },
{
    let tool = tool_name_of(tool_name);
    let paths = call_paths(tool, input, cwd);
    if is_harmless(rules, tool, input, cwd) {
        assert forall|i: int| 0 <= i < paths.len() implies !(sensitive(#[trigger] paths[i])
            || within_any(render(paths[i]), rules.protected_paths@)) && within_any(
            render(paths[i]),
            rules.workspace_roots@,
        ) by {}
    }
}

/// What a tool that runs no commands may do. A harmless call is let through where the
/// tool is on the first list. It needs approval where the tool is on the second list
/// only, and, if it changes files, it says which. Any other call is refused.
pub proof fn listed_tools_are_let_through_or_approved(
    rules: Classifier,
    tool_name: Seq<char>,
    input: Tree,
    cwd: Seq<char>,
)
    requires
        !runs_commands(tool_name_of(tool_name)),
    ensures
        ({
            let tool = tool_name_of(tool_name);
            let verdict = rules.verdict(tool_name, input, cwd);
            let harmless = is_harmless(rules, tool, input, cwd);
            let free = exists|i: int|
                0 <= i < rules.policy.auto_allow_tools@.len() && tool_name_of(
                    (#[trigger] rules.policy.auto_allow_tools@[i])@,
                ) == tool;
            let known = exists|i: int|
                0 <= i < rules.policy.approval_tools@.len() && tool_name_of(
                    (#[trigger] rules.policy.approval_tools@[i])@,
                ) == tool;
            &&& verdict.action == PolicyAction::AutoAllow <==> harmless && free
            &&& verdict.action == PolicyAction::RequireApproval <==> harmless && !free && known && (
            changes_files(tool) ==> call_paths(tool, input, cwd).len() > 0)
        }),
{
    lemma_harmless(rules, tool_name, input, cwd);
}

/// How calls are rated: one that is let through as low, one that is refused as
/// forbidden, and one that needs approval as high where it deletes or reaches out, and
/// else as medium.
pub proof fn calls_are_rated(
    rules: Classifier,
    tool_name: Seq<char>,
    input: Tree,
    cwd: Seq<char>,
)
    ensures
        ({
            let tool = tool_name_of(tool_name);
            let verdict = rules.verdict(tool_name, input, cwd);
            match verdict.action {
                PolicyAction::AutoAllow => verdict.risk == RiskLevel::Low,
                PolicyAction::Deny => verdict.risk == RiskLevel::Forbidden,
                PolicyAction::RequireApproval => verdict.risk == (if !runs_commands(tool) && (
                contains(tool, "delete"@) || contains(tool, "network"@) || tool == "web-fetch"@) {
                    RiskLevel::High
                } else {
                    RiskLevel::Medium
                }),
            }
        }),
{
}

/// Whether the text holds one of the characters that string commands together or
/// redirect them, or steps out of the directory.
pub open spec fn steps_outside(s: Seq<char>) -> bool {
    ||| exists|i: int|
        0 <= i < s.len() && ((#[trigger] s[i]) == '\r' || s[i] == '\n' || s[i] == ';' || s[i] == '|'
            || s[i] == '&' || s[i] == '`' || s[i] == '>' || s[i] == '<')
    ||| exists|i: int|
        0 <= i < s.len() - 1 && (((#[trigger] s[i]) == '$' && s[i + 1] == '(') || (s[i] == ':' && s[i
            + 1] == '\\') || (s[i] == '\\' && s[i + 1] == '\\'))
    ||| exists|i: int|
        0 <= i < s.len() - 2 && (#[trigger] s[i]) == '.' && s[i + 1] == '.' && (s[i + 2] == '\\'
            || s[i + 2] == '/')
}

proof fn lemma_contains_one(s: Seq<char>, pattern: Seq<char>, i: int)
    requires
        pattern.len() == 1,
        0 <= i < s.len(),
        s[i] == pattern[0],
    ensures
        contains(s, pattern),
{
    assert(s.subrange(i, i + 1) =~= pattern);
    assert(occurs_at(s, pattern, i));
}

proof fn lemma_contains_two(s: Seq<char>, pattern: Seq<char>, i: int)
    requires
        pattern.len() == 2,
        0 <= i < s.len() - 1,
        s[i] == pattern[0],
        s[i + 1] == pattern[1],
    ensures
        contains(s, pattern),
{
    assert(s.subrange(i, i + 2) =~= pattern);
    assert(occurs_at(s, pattern, i));
}

proof fn lemma_contains_three(s: Seq<char>, pattern: Seq<char>, i: int)
    requires
        pattern.len() == 3,
        0 <= i < s.len() - 2,
        s[i] == pattern[0],
        s[i + 1] == pattern[1],
        s[i + 2] == pattern[2],
    ensures
        contains(s, pattern),
{
    assert(s.subrange(i, i + 3) =~= pattern);
    assert(occurs_at(s, pattern, i));
}

proof fn lemma_contained(s: Seq<char>, pattern: Seq<char>) -> (i: int)
    requires
        contains(s, pattern),
    ensures
        0 <= i && i + pattern.len() <= s.len(),
        forall|k: int| 0 <= k < pattern.len() ==> s[i + k] == #[trigger] pattern[k],
{
    let i = choose|i: int| occurs_at(s, pattern, i);
    assert forall|k: int| 0 <= k < pattern.len() implies s[i + k] == #[trigger] pattern[k] by {
        assert(s.subrange(i, i + pattern.len())[k] == pattern[k]);
    }
    i
}

proof fn lemma_marks()
    ensures
        "\r"@ == seq!['\r'],
        "\n"@ == seq!['\n'],
        ";"@ == seq![';'],
        "|"@ == seq!['|'],
        "&"@ == seq!['&'],
        "`"@ == seq!['`'],
        ">"@ == seq!['>'],
        "<"@ == seq!['<'],
        "$("@ == seq!['$', '('],
        ":\\"@ == seq![':', '\\'],
        "\\\\"@ == seq!['\\', '\\'],
        "..\\"@ == seq!['.', '.', '\\'],
        "../"@ == seq!['.', '.', '/'],
{
    reveal_strlit("\r");
    reveal_strlit("\n");
    reveal_strlit(";");
    reveal_strlit("|");
    reveal_strlit("&");
    reveal_strlit("`");
    reveal_strlit(">");
    reveal_strlit("<");
    reveal_strlit("$(");
    reveal_strlit(":\\");
    reveal_strlit("\\\\");
    reveal_strlit("..\\");
    reveal_strlit("../");
    assert("\r"@ =~= seq!['\r']);
    assert("\n"@ =~= seq!['\n']);
    assert(";"@ =~= seq![';']);
    assert("|"@ =~= seq!['|']);
    assert("&"@ =~= seq!['&']);
    assert("`"@ =~= seq!['`']);
    assert(">"@ =~= seq!['>']);
    assert("<"@ =~= seq!['<']);
    assert("$("@ =~= seq!['$', '(']);
    assert(":\\"@ =~= seq![':', '\\']);
    assert("\\\\"@ =~= seq!['\\', '\\']);
    assert("..\\"@ =~= seq!['.', '.', '\\']);
    assert("../"@ =~= seq!['.', '.', '/']);
}

proof fn lemma_steps_outside(s: Seq<char>)
    ensures
        unsafe_composition(s) <==> steps_outside(s),
{
    lemma_marks();
    if steps_outside(s) {
        if exists|i: int|
            0 <= i < s.len() && ((#[trigger] s[i]) == '\r' || s[i] == '\n' || s[i] == ';' || s[i]
                == '|' || s[i] == '&' || s[i] == '`' || s[i] == '>' || s[i] == '<') {
            let i = choose|i: int|
                0 <= i < s.len() && ((#[trigger] s[i]) == '\r' || s[i] == '\n' || s[i] == ';'
                    || s[i] == '|' || s[i] == '&' || s[i] == '`' || s[i] == '>' || s[i] == '<');
            let mark = seq![s[i]];
            lemma_contains_one(s, mark, i);
        } else if exists|i: int|
            0 <= i < s.len() - 1 && (((#[trigger] s[i]) == '$' && s[i + 1] == '(') || (s[i] == ':'
                && s[i + 1] == '\\') || (s[i] == '\\' && s[i + 1] == '\\')) {
            let i = choose|i: int|
                0 <= i < s.len() - 1 && (((#[trigger] s[i]) == '$' && s[i + 1] == '(') || (s[i]
                    == ':' && s[i + 1] == '\\') || (s[i] == '\\' && s[i + 1] == '\\'));
            lemma_contains_two(s, seq![s[i], s[i + 1]], i);
        } else {
            let i = choose|i: int|
                0 <= i < s.len() - 2 && (#[trigger] s[i]) == '.' && s[i + 1] == '.' && (s[i + 2]
                    == '\\' || s[i + 2] == '/');
            lemma_contains_three(s, seq![s[i], s[i + 1], s[i + 2]], i);
        }
    }
    if unsafe_composition(s) {
        if contains(s, "\r"@) {
            let i = lemma_contained(s, "\r"@);
            assert("\r"@[0] == s[i + 0]);
            assert(s[i] == '\r');
        } else if contains(s, "\n"@) {
            let i = lemma_contained(s, "\n"@);
            assert("\n"@[0] == s[i + 0]);
            assert(s[i] == '\n');
        } else if contains(s, ";"@) {
            let i = lemma_contained(s, ";"@);
            assert(";"@[0] == s[i + 0]);
            assert(s[i] == ';');
        } else if contains(s, "|"@) {
            let i = lemma_contained(s, "|"@);
            assert("|"@[0] == s[i + 0]);
            assert(s[i] == '|');
        } else if contains(s, "&"@) {
            let i = lemma_contained(s, "&"@);
            assert("&"@[0] == s[i + 0]);
            assert(s[i] == '&');
        } else if contains(s, "`"@) {
            let i = lemma_contained(s, "`"@);
            assert("`"@[0] == s[i + 0]);
            assert(s[i] == '`');
        } else if contains(s, ">"@) {
            let i = lemma_contained(s, ">"@);
            assert(">"@[0] == s[i + 0]);
            assert(s[i] == '>');
        } else if contains(s, "<"@) {
            let i = lemma_contained(s, "<"@);
            assert("<"@[0] == s[i + 0]);
            assert(s[i] == '<');
        } else if contains(s, "$("@) {
            let i = lemma_contained(s, "$("@);
            assert("$("@[0] == s[i + 0] && "$("@[1] == s[i + 1]);
            assert(s[i] == '$');
        } else if contains(s, ":\\"@) {
            let i = lemma_contained(s, ":\\"@);
            assert(":\\"@[0] == s[i + 0] && ":\\"@[1] == s[i + 1]);
            assert(s[i] == ':');
        } else if contains(s, "\\\\"@) {
            let i = lemma_contained(s, "\\\\"@);
            assert("\\\\"@[0] == s[i + 0] && "\\\\"@[1] == s[i + 1]);
            assert(s[i] == '\\');
        } else if contains(s, "..\\"@) {
            let i = lemma_contained(s, "..\\"@);
            assert("..\\"@[0] == s[i + 0] && "..\\"@[1] == s[i + 1] && "..\\"@[2] == s[i + 2]);
            assert(s[i] == '.');
        } else {
            let i = lemma_contained(s, "../"@);
            assert("../"@[0] == s[i + 0] && "../"@[1] == s[i + 1] && "../"@[2] == s[i + 2]);
            assert(s[i] == '.');
        }
    }
}

/// Whether the command begins with the words of the prefix: it is the prefix, or goes
/// on with a space behind it.
pub open spec fn begins_with_words(command: Seq<char>, prefix: Seq<char>) -> bool {
    &&& prefix.len() <= command.len()
    &&& command.take(prefix.len() as int) == prefix
    &&& command.len() > prefix.len() ==> command[prefix.len() as int] == ' '
}

proof fn lemma_begins_with_words(command: Seq<char>, prefix: Seq<char>)
    ensures
        covered_by(command, prefix) <==> begins_with_words(command, prefix),
{
    reveal_strlit(" ");
    let n = prefix.len() as int;
    if begins_with_words(command, prefix) && command.len() > prefix.len() {
        assert(command.subrange(0, n) =~= command.take(n));
        assert(command.skip(n).subrange(0, 1) =~= " "@);
    } else if begins_with_words(command, prefix) {
        assert(command =~= command.take(n));
    }
    if covered_by(command, prefix) {
        if command == prefix {
            assert(command.take(n) =~= prefix);
        } else {
            assert(command.subrange(0, n) =~= command.take(n));
            assert(command.skip(n).subrange(0, 1)[0] == " "@[0]);
        }
    }
}

/// What a tool that runs commands may do: a harmless call needs approval where its
/// command is known, is on no list of forbidden ones, does not step outside, and begins
/// with the words of a prefix that is allowed. Any other call is refused.
pub proof fn allowed_commands_need_approval(
    rules: Classifier,
    tool_name: Seq<char>,
    input: Tree,
    cwd: Seq<char>,
)
    requires
        runs_commands(tool_name_of(tool_name)),
    ensures
        ({
            let verdict = rules.verdict(tool_name, input, cwd);
            let prefixes = rules.policy.approved_command_prefixes@;
            &&& verdict.action != PolicyAction::AutoAllow
            &&& verdict.action == PolicyAction::RequireApproval <==> {
                &&& is_harmless(rules, tool_name_of(tool_name), input, cwd)
                &&& command_of(input) is Some
                &&& !regex_match(FORBIDDEN_COMMAND@, command_words(command_of(input)->0))
                &&& !steps_outside(command_of(input)->0)
                &&& exists|i: int|
                    0 <= i < prefixes.len() && begins_with_words(
                        command_words(command_of(input)->0),
                        command_words((#[trigger] prefixes[i])@),
                    )
            }
        }),
{
    lemma_harmless(rules, tool_name, input, cwd);
    let prefixes = rules.policy.approved_command_prefixes@;
    if command_of(input) is Some {
        let command = command_of(input)->0;
        lemma_steps_outside(command);
        let words = command_words(command);
        assert(command_listed(words, prefixes) <==> exists|i: int|
            0 <= i < prefixes.len() && begins_with_words(
                words,
                command_words((#[trigger] prefixes[i])@),
            )) by {
            if command_listed(words, prefixes) {
                let i = choose|i: int|
                    0 <= i < prefixes.len() && covered_by(
                        words,
                        command_words((#[trigger] prefixes[i])@),
                    );
                lemma_begins_with_words(words, command_words(prefixes[i]@));
                assert(begins_with_words(words, command_words(prefixes[i]@)));
            }
            if exists|i: int|
                0 <= i < prefixes.len() && begins_with_words(
                    words,
                    command_words((#[trigger] prefixes[i])@),
                ) {
                let i = choose|i: int|
                    0 <= i < prefixes.len() && begins_with_words(
                        words,
                        command_words((#[trigger] prefixes[i])@),
                    );
                lemma_begins_with_words(words, command_words(prefixes[i]@));
                assert(covered_by(words, command_words(prefixes[i]@)));
            }
        }
    }
}

/// The command of a call is what stands under `command`; only where no text does, what
/// stands under `script`, and then under `input`.
pub proof fn commands_are_found(input: Tree, s: Seq<char>)
    ensures
        get_tree(input, "command"@) == Some(Tree::Text(s)) ==> command_of(input) == Some(s),
        get_tree(input, "command"@) is None && get_tree(input, "script"@) == Some(Tree::Text(s))
            ==> command_of(input) == Some(s),
        get_tree(input, "command"@) is None && get_tree(input, "script"@) is None && get_tree(
            input,
            "input"@,
        ) == Some(Tree::Text(s)) ==> command_of(input) == Some(s),
        command_of(input) == Some(s) ==> get_tree(input, "command"@) == Some(Tree::Text(s))
            || get_tree(input, "script"@) == Some(Tree::Text(s)) || get_tree(input, "input"@)
            == Some(Tree::Text(s)),
{
}

/// Names of tools are compared without regard to case, to the white space around them,
/// and to whether words are joined by hyphens, underscores or dots.
pub proof fn tool_names_are_compared_loosely(a: Seq<char>, b: Seq<char>)
    requires
        trim(a).len() == trim(b).len(),
        forall|i: int|
            0 <= i < trim(a).len() ==> {
                let x = lower(trim(a))[i];
                let y = lower(trim(b))[i];
                (#[trigger] trim(a)[i] == trim(b)[i]) || x == y || ((x == '-' || x == '_' || x
                    == '.') && (y == '-' || y == '_' || y == '.'))
            },
    ensures
        tool_name_of(a) == tool_name_of(b),
{
    assert forall|i: int| 0 <= i < trim(a).len() implies tool_name_of(a)[i] == tool_name_of(b)[i] by {
        assert(trim(a)[i] == trim(b)[i] || true);
    }
    assert(tool_name_of(a) =~= tool_name_of(b));
}

/// The normal form of a tool's name keeps every character but the case of letters and
/// what joins words.
pub proof fn tool_names_are_kept(name: Seq<char>)
    ensures
        tool_name_of(name).len() == trim(name).len(),
        forall|i: int|
            0 <= i < trim(name).len() ==> #[trigger] tool_name_of(name)[i] == (if trim(name)[i]
                == '_' || trim(name)[i] == '.' {
                '-'
            } else {
                lower(trim(name))[i]
            }),
{
}

/// Whether the member's name is one under which a call names paths.
pub open spec fn is_path_name(key: Seq<char>) -> bool {
    let k = lower(key);
    k == "path"@ || k == "paths"@ || k == "file"@ || k == "file_path"@ || k == "relative_path"@ || k
        == "directory"@ || k == "cwd"@ || k == "root"@ || k == "workspace"@
}

proof fn lemma_member_paths(ms: Seq<(Seq<char>, Tree)>, cwd: Seq<char>, n: nat, i: int, p: Parts)
    requires
        0 <= i < n <= ms.len(),
        (if path_key(ms[i].0) {
            path_values(ms[i].1, cwd)
        } else {
            structured_paths(ms[i].1, cwd)
        }).contains(p),
    ensures
        structured_members(ms, cwd, n).contains(p),
    decreases n,
{
    let before = structured_members(ms, cwd, (n - 1) as nat);
    let last = if path_key(ms[n - 1].0) {
        path_values(ms[n - 1].1, cwd)
    } else {
        structured_paths(ms[n - 1].1, cwd)
    };
    if i < n - 1 {
        lemma_member_paths(ms, cwd, (n - 1) as nat, i, p);
        let k = choose|k: int| 0 <= k < before.len() && before[k] == p;
        assert((before + last)[k] == p);
    } else {
        let k = choose|k: int| 0 <= k < last.len() && last[k] == p;
        assert((before + last)[before.len() + k] == p);
    }
}

proof fn lemma_element_paths(ts: Seq<Tree>, cwd: Seq<char>, n: nat, i: int, p: Parts)
    requires
        0 <= i < n <= ts.len(),
    ensures
        structured_paths(ts[i], cwd).contains(p) ==> structured_all(ts, cwd, n).contains(p),
        path_values(ts[i], cwd).contains(p) ==> path_values_all(ts, cwd, n).contains(p),
    decreases n,
{
    let before = structured_all(ts, cwd, (n - 1) as nat);
    let last = structured_paths(ts[n - 1], cwd);
    let values = path_values_all(ts, cwd, (n - 1) as nat);
    let value = path_values(ts[n - 1], cwd);
    if i < n - 1 {
        lemma_element_paths(ts, cwd, (n - 1) as nat, i, p);
        if before.contains(p) {
            let k = choose|k: int| 0 <= k < before.len() && before[k] == p;
            assert((before + last)[k] == p);
        }
        if values.contains(p) {
            let k = choose|k: int| 0 <= k < values.len() && values[k] == p;
            assert((values + value)[k] == p);
        }
    } else {
        if last.contains(p) {
            let k = choose|k: int| 0 <= k < last.len() && last[k] == p;
            assert((before + last)[before.len() + k] == p);
        }
        if value.contains(p) {
            let k = choose|k: int| 0 <= k < value.len() && value[k] == p;
            assert((values + value)[values.len() + k] == p);
        }
    }
}

/// A text under a path name of a call's input is a path that the call touches, and so
/// is each text of a list under such a name.
pub proof fn named_paths_are_seen(
    tool: Seq<char>,
    ms: Seq<(Seq<char>, Tree)>,
    cwd: Seq<char>,
    i: int,
    s: Seq<char>,
)
    requires
        0 <= i < ms.len(),
        is_path_name(ms[i].0),
        ms[i].1 == Tree::Text(s) || (ms[i].1 matches Tree::Array(ts) && ts.contains(Tree::Text(s))),
    ensures
        call_paths(tool, Tree::Object(ms), cwd).contains(resolved(cwd, literal_prefix(s))),
{
    let p = resolved(cwd, literal_prefix(s));
    let values = path_values(ms[i].1, cwd);
    assert(path_values(Tree::Text(s), cwd)[0] == p);
    if let Tree::Array(ts) = ms[i].1 {
        let k = choose|k: int| 0 <= k < ts.len() && ts[k] == Tree::Text(s);
        lemma_element_paths(ts, cwd, ts.len(), k, p);
    }
    lemma_member_paths(ms, cwd, ms.len(), i, p);
    let found = structured_paths(Tree::Object(ms), cwd);
    let k = choose|k: int| 0 <= k < found.len() && found[k] == p;
    assert(call_paths(tool, Tree::Object(ms), cwd)[k] == p);
}

/// The paths that a part of a call's input names are paths of the whole: those of a
/// member under a name that is no path name, and those of an element of a list.
pub proof fn nested_paths_are_seen(
    ms: Seq<(Seq<char>, Tree)>,
    ts: Seq<Tree>,
    cwd: Seq<char>,
    i: int,
    p: Parts,
)
    ensures
        0 <= i < ms.len() && !is_path_name(ms[i].0) && structured_paths(ms[i].1, cwd).contains(p)
            ==> structured_paths(Tree::Object(ms), cwd).contains(p),
        0 <= i < ts.len() && structured_paths(ts[i], cwd).contains(p) ==> structured_paths(
            Tree::Array(ts),
            cwd,
        ).contains(p),
{
    if 0 <= i < ms.len() && !is_path_name(ms[i].0) && structured_paths(ms[i].1, cwd).contains(p) {
        lemma_member_paths(ms, cwd, ms.len(), i, p);
    }
    if 0 <= i < ts.len() && structured_paths(ts[i], cwd).contains(p) {
        lemma_element_paths(ts, cwd, ts.len(), i, p);
    }
}

proof fn lemma_no_member_paths(ms: Seq<(Seq<char>, Tree)>, cwd: Seq<char>, n: nat)
    requires
        n <= ms.len(),
        forall|i: int|
            0 <= i < ms.len() ==> !is_path_name((#[trigger] ms[i]).0) && !(ms[i].1 is Object) && !(
            ms[i].1 is Array),
    ensures
        structured_members(ms, cwd, n).len() == 0,
    decreases n,
{
    if n > 0 {
        lemma_no_member_paths(ms, cwd, (n - 1) as nat);
        assert(!is_path_name(ms[n - 1].0));
        let value = ms[n - 1].1;
        assert(!(value is Object) && !(value is Array));
        reveal_with_fuel(structured_paths, 2);
        assert(structured_paths(value, cwd).len() == 0);
    }
}

/// A call whose input has plain members only, none of them under a path name, names
/// no path, unless its tool applies a patch.
pub proof fn other_members_name_no_paths(tool: Seq<char>, ms: Seq<(Seq<char>, Tree)>, cwd: Seq<char>)
    requires
        !contains(tool, "apply-patch"@),
        forall|i: int|
            0 <= i < ms.len() ==> !is_path_name((#[trigger] ms[i]).0) && !(ms[i].1 is Object) && !(
            ms[i].1 is Array),
    ensures
        call_paths(tool, Tree::Object(ms), cwd).len() == 0,
{
    lemma_no_member_paths(ms, cwd, ms.len());
}

proof fn lemma_patch_paths(ls: Seq<Seq<char>>, cwd: Seq<char>, i: int, p: Parts)
    requires
        0 <= i < ls.len(),
        line_paths(ls[i], cwd).contains(p),
    ensures
        patch_paths(ls, cwd).contains(p),
    decreases ls.len(),
{
    let before = patch_paths(ls.drop_last(), cwd);
    let last = line_paths(ls.last(), cwd);
    if i < ls.len() - 1 {
        lemma_patch_paths(ls.drop_last(), cwd, i, p);
        let k = choose|k: int| 0 <= k < before.len() && before[k] == p;
        assert((before + last)[k] == p);
    } else {
        let k = choose|k: int| 0 <= k < last.len() && last[k] == p;
        assert((before + last)[before.len() + k] == p);
    }
}

/// A patch touches every file that one of its lines says it adds, updates, deletes or
/// moves something to.
pub proof fn patched_files_are_seen(
    tool: Seq<char>,
    input: Tree,
    cwd: Seq<char>,
    patch: Seq<char>,
    i: int,
    mark: Seq<char>,
)
    requires
        contains(tool, "apply-patch"@),
        input == Tree::Text(patch) || get_tree(input, "patch"@) == Some(Tree::Text(patch)) || (
        get_tree(input, "patch"@) is None && get_tree(input, "input"@) == Some(Tree::Text(patch))),
        0 <= i < lines(patch).len(),
        mark == "*** Add File: "@ || mark == "*** Update File: "@ || mark == "*** Delete File: "@
            || mark == "*** Move to: "@,
        mark.len() <= lines(patch)[i].len(),
        lines(patch)[i].take(mark.len() as int) == mark,
    ensures
        call_paths(tool, input, cwd).contains(
            resolved(cwd, trim(lines(patch)[i].skip(mark.len() as int))),
        ),
{
    let line = lines(patch)[i];
    let p = resolved(cwd, trim(line.skip(mark.len() as int)));
    assert(line.subrange(0, mark.len() as int) =~= line.take(mark.len() as int));
    let one = marked_path(line, "*** Add File: "@, cwd);
    let two = marked_path(line, "*** Update File: "@, cwd);
    let three = marked_path(line, "*** Delete File: "@, cwd);
    let four = marked_path(line, "*** Move to: "@, cwd);
    assert(marked_path(line, mark, cwd)[0] == p);
    assert(line_paths(line, cwd).contains(p)) by {
        let all = line_paths(line, cwd);
        if mark == "*** Add File: "@ {
            assert(all[0] == p);
        } else if mark == "*** Update File: "@ {
            assert(all[one.len() as int] == p);
        } else if mark == "*** Delete File: "@ {
            assert(all[(one.len() + two.len()) as int] == p);
        } else {
            assert(all[(one.len() + two.len() + three.len()) as int] == p);
        }
    }
    lemma_patch_paths(lines(patch), cwd, i, p);
    let found = patch_paths(lines(patch), cwd);
    let k = choose|k: int| 0 <= k < found.len() && found[k] == p;
    let head = structured_paths(input, cwd);
    assert(patch_of(input) == Some(patch));
    assert(call_paths(tool, input, cwd)[head.len() + k] == p);
}

proof fn lemma_wildcard(s: Seq<char>, from: int)
    requires
        0 <= from <= s.len(),
    ensures
        from <= wildcard_at(s, from) <= s.len(),
        forall|k: int|
            from <= k < wildcard_at(s, from) ==> (#[trigger] s[k]) != '*' && s[k] != '?',
        wildcard_at(s, from) < s.len() ==> s[wildcard_at(s, from)] == '*' || s[wildcard_at(s, from)]
            == '?',
    decreases s.len() - from,
{
    if from < s.len() && s[from] != '*' && s[from] != '?' {
        lemma_wildcard(s, from + 1);
    }
}

proof fn lemma_end_slashes(s: Seq<char>)
    ensures
        without_end_slashes(s).len() <= s.len(),
        without_end_slashes(s) == s.take(without_end_slashes(s).len() as int),
        forall|k: int|
            without_end_slashes(s).len() <= k < s.len() ==> (#[trigger] s[k]) == '\\' || s[k]
                == '/',
    decreases s.len(),
{
    if s.len() > 0 && (s.last() == '\\' || s.last() == '/') {
        lemma_end_slashes(s.drop_last());
        let n = without_end_slashes(s).len() as int;
        assert(s.drop_last().take(n) =~= s.take(n));
        assert forall|k: int| n <= k < s.len() implies (#[trigger] s[k]) == '\\' || s[k] == '/' by {
            if k < s.len() - 1 {
                assert(s.drop_last()[k] == s[k]);
            }
        }
    } else {
        assert(s.take(s.len() as int) =~= s);
    }
}

/// What a pattern stands for is the part of it before the first wildcard: without one
/// it is the text itself, but for slashes at its end.
pub proof fn patterns_stand_for_their_start(s: Seq<char>)
    ensures
        ({
            let p = literal_prefix(s);
            &&& p != "."@ ==> p.len() <= s.len() && p == s.take(p.len() as int) && forall|k: int|
                0 <= k < p.len() ==> (#[trigger] p[k]) != '*' && p[k] != '?'
            &&& s.len() > 0 && s.last() != '\\' && s.last() != '/' && (forall|k: int|
                0 <= k < s.len() ==> (#[trigger] s[k]) != '*' && s[k] != '?') ==> p == s
        }),
{
    lemma_wildcard(s, 0);
    let head = s.take(wildcard_at(s, 0));
    lemma_end_slashes(head);
    let p = without_end_slashes(head);
    assert(head.take(p.len() as int) =~= s.take(p.len() as int));
    if s.len() > 0 && s.last() != '\\' && s.last() != '/' && (forall|k: int|
        0 <= k < s.len() ==> (#[trigger] s[k]) != '*' && s[k] != '?') {
        assert(wildcard_at(s, 0) == s.len());
        assert(head =~= s);
        if p.len() < s.len() {
            assert(head[head.len() - 1] == s.last());
        }
        assert(p =~= s);
    }
}

/// Where credentials are replaced: each text by itself, each element of a list, each
/// member of an object, of which nothing is left under a name that announces one.
/// Other values stay as they are.
pub proof fn credentials_are_replaced_throughout(t: Tree, i: int)
    ensures
        match t {
            Tree::Text(s) => redacted(t) == Tree::Text(
                regex_replaced(SECRET_VALUE@, s, "[REDACTED]"@),
            ),
            Tree::Array(ts) => redacted(t) matches Tree::Array(out) && out.len() == ts.len() && (0
                <= i < ts.len() ==> out[i] == redacted(ts[i])),
            Tree::Object(ms) => redacted(t) matches Tree::Object(out) && out.len() == ms.len() && (0
                <= i < ms.len() ==> out[i].0 == ms[i].0 && out[i].1 == (if regex_match(
                SECRET_KEY@,
                ms[i].0,
            ) {
                Tree::Text("[REDACTED]"@)
            } else {
                redacted(ms[i].1)
            })),
            _ => redacted(t) == t,
        },
{
    match t {
        Tree::Array(ts) => {
            lemma_redacted_all(ts, ts.len());
        },
        Tree::Object(ms) => {
            lemma_redacted_members(ms, ms.len());
        },
        _ => {},
    }
}

proof fn lemma_some_secret(ms: Seq<(Seq<char>, Tree)>, ts: Seq<Tree>, n: nat)
    ensures
        n <= ms.len() ==> (some_secret_member(ms, n) <==> exists|i: int|
            0 <= i < n && (secret_key((#[trigger] ms[i]).0) || has_secret_key(ms[i].1))),
        n <= ts.len() ==> (some_secret_key(ts, n) <==> exists|i: int|
            0 <= i < n && has_secret_key(#[trigger] ts[i])),
    decreases n,
{
    if n > 0 {
        lemma_some_secret(ms, ts, (n - 1) as nat);
        if n <= ms.len() {
            if some_secret_member(ms, (n - 1) as nat) {
                let i = choose|i: int|
                    0 <= i < n - 1 && (secret_key((#[trigger] ms[i]).0) || has_secret_key(
                        ms[i].1,
                    ));
                assert(secret_key(ms[i].0) || has_secret_key(ms[i].1));
            } else if some_secret_member(ms, n) {
                assert(secret_key(ms[n - 1].0) || has_secret_key(ms[n - 1].1));
            }
        }
        if n <= ts.len() {
            if some_secret_key(ts, (n - 1) as nat) {
                let i = choose|i: int| 0 <= i < n - 1 && has_secret_key(#[trigger] ts[i]);
                assert(has_secret_key(ts[i]));
            } else if some_secret_key(ts, n) {
                assert(has_secret_key(ts[n - 1]));
            }
        }
    }
}

/// A value has a name that announces a credential exactly where one of its members has
/// such a name or such a value, or one of its elements does.
pub proof fn secret_names_are_found_at_any_depth(t: Tree)
    ensures
        has_secret_key(t) <==> match t {
            Tree::Object(ms) => exists|i: int|
                0 <= i < ms.len() && (regex_match(SECRET_KEY@, (#[trigger] ms[i]).0)
                    || has_secret_key(ms[i].1)),
            Tree::Array(ts) => exists|i: int| 0 <= i < ts.len() && has_secret_key(#[trigger] ts[i]),
            _ => false,
        },
{
    match t {
        Tree::Object(ms) => {
            lemma_some_secret(ms, Seq::empty(), ms.len());
            if exists|i: int|
                0 <= i < ms.len() && (regex_match(SECRET_KEY@, (#[trigger] ms[i]).0)
                    || has_secret_key(ms[i].1)) {
                let i = choose|i: int|
                    0 <= i < ms.len() && (regex_match(SECRET_KEY@, (#[trigger] ms[i]).0)
                        || has_secret_key(ms[i].1));
                assert(secret_key(ms[i].0) || has_secret_key(ms[i].1));
            }
        },
        Tree::Array(ts) => {
            lemma_some_secret(Seq::empty(), ts, ts.len());
        },
        _ => {},
    }
}

proof fn lemma_holds(a: Seq<char>, b: Seq<char>, c: Seq<char>)
    ensures
        contains(a + b + c, b),
{
    let s = a + b + c;
    assert(s.subrange(a.len() as int, (a.len() + b.len()) as int) =~= b);
    assert(occurs_at(s, b, a.len() as int));
}

/// What the owner is shown of a call that needs approval names the tool, or its command
/// without credentials, and what the call is about, unless that is too long.
pub proof fn calls_are_shown(rules: Classifier, tool_name: Seq<char>, input: Tree, cwd: Seq<char>)
    ensures
        ({
            let tool = tool_name_of(tool_name);
            let verdict = rules.verdict(tool_name, input, cwd);
            let text = compact(canonical(redacted(input)));
            &&& verdict.action != PolicyAction::Deny && !runs_commands(tool) ==> contains(
                verdict.summary,
                tool,
            )
            &&& verdict.action != PolicyAction::Deny && !runs_commands(tool) && text.len() <= 1000
                ==> contains(verdict.summary, text)
            &&& verdict.action != PolicyAction::Deny && runs_commands(tool) && regex_replaced(
                SECRET_VALUE@,
                command_of(input)->0,
                REDACTED@,
            ).len() <= 500 ==> contains(
                verdict.summary,
                regex_replaced(SECRET_VALUE@, command_of(input)->0, REDACTED@),
            )
            &&& verdict.action != PolicyAction::Deny ==> contains(
                verdict.summary,
                shown_directory(cwd),
            )
        }),
{
    let tool = tool_name_of(tool_name);
    let verdict = rules.verdict(tool_name, input, cwd);
    let text = truncated_view(compact(canonical(redacted(input))), 1000);
    let none = Seq::<char>::empty();
    if verdict.action != PolicyAction::Deny {
        if runs_commands(tool) {
            let head = "工具: powershell\n操作: "@;
            let said = truncated_view(redacted_text(command_of(input)->0), 500);
            let place = "\n目录: "@ + shown_directory(cwd);
            assert(verdict.summary =~= head + said + place);
            lemma_holds(head, said, place);
            assert(verdict.summary =~= (head + said + "\n目录: "@) + shown_directory(cwd) + none);
            lemma_holds(head + said + "\n目录: "@, shown_directory(cwd), none);
        } else {
            let head = "工具: "@;
            let rest = "\n参数: "@ + text + "\n目录: "@ + shown_directory(cwd);
            assert(verdict.summary =~= head + tool + rest);
            lemma_holds(head, tool, rest);
            let before = head + tool + "\n参数: "@;
            let after = "\n目录: "@ + shown_directory(cwd);
            assert(verdict.summary =~= before + text + after);
            lemma_holds(before, text, after);
            assert(verdict.summary =~= (before + text + "\n目录: "@) + shown_directory(cwd) + none);
            lemma_holds(before + text + "\n目录: "@, shown_directory(cwd), none);
        }
    }
}

/// A path is held against the list of files that hold credentials with slashes of one
/// kind, and with one behind its last name.
pub proof fn paths_are_compared_by_names(p: Parts)
    ensures
        sensitive_text(p).len() >= render(p).len(),
        forall|i: int|
            0 <= i < render(p).len() ==> #[trigger] sensitive_text(p)[i] == (if render(p)[i] == '\\' {
                '/'
            } else {
                render(p)[i]
            }),
        p.names.len() > 0 && p.names.last() != ".."@ ==> sensitive_text(p).last() == '/',
        forall|i: int| 0 <= i < sensitive_text(p).len() ==> #[trigger] sensitive_text(p)[i] != '\\',
{
}

/// Of a directory only its last name is shown.
pub proof fn directories_are_shown_by_name(cwd: Seq<char>)
    ensures
        parse(cwd).names.len() > 0 && parse(cwd).names.last() != ".."@ ==> contains(
            shown_directory(cwd),
            parse(cwd).names.last(),
        ) && shown_directory(cwd).len() == parse(cwd).names.last().len() + 4,
        parse(cwd).names.len() == 0 ==> shown_directory(cwd) == "[workspace]"@,
{
    reveal_strlit("...\\");
    if parse(cwd).names.len() > 0 && parse(cwd).names.last() != ".."@ {
        let name = parse(cwd).names.last();
        let none = Seq::<char>::empty();
        assert(shown_directory(cwd) =~= "...\\"@ + name + none);
        lemma_holds("...\\"@, name, none);
    }
}

} // verus!
