//! The workspaces that sessions may be run in: how they are named, compared, and
//! added to and taken from the configuration.
use vstd::prelude::*;
use vstd::string::*;
use vstd::utf8::{decode_utf8, encode_utf8, valid_utf8};

use crate::config::{
    alias_is_valid, are_fingerprints, copy_texts, failure, fingerprints, is_posix_path, posix_path,
    same_target, same_texts, targets_of, valid_alias, AhpAuthorizedTarget, AhpConfig, AppConfig,
    BridgeConfig, Failure, QqConfig, Target,
};
use crate::json::{
    field, is_record, lemma_trees, number_tree, owed_text, read_number, read_text, trees, Json,
    Tree,
};
use crate::paths::{
    char_is_letter, components, is_letter, parse, parse_path, path_components, path_is_within,
    within,
};
use crate::tables::{opt_eq, retain};
use crate::text::{
    cat, cat3, chars_of, drop_empty, find_from, is_control, join, joined, lemma_split_nonempty,
    less, less_is_total, less_is_transitive, lines, nonempty, occurs_at, opt_view, parse_number,
    parsed, slice_text, split, split_text, str_eq, text_less, text_lines, trim, trimmed, views,
    words, Separator,
};
use crate::urls::{percent_decoded, url_decode};
use crate::wizard::AhpTrustRequestRecord;

verus! {

broadcast use vstd::string::group_string_axioms;

// ---------------------------------------------------------------------------
// Names

/// What is said of an alias that cannot be used.
pub open spec fn bad_alias() -> Seq<char> {
    "SSH Host alias contains unsupported characters"@
}

/// Whether the alias of a host can be used.
pub fn validate_ssh_alias(alias: &str) -> (r: Result<(), Failure>)
    ensures
        match r {
            Ok(()) => valid_alias(alias@),
            Err(f) => !valid_alias(alias@) && f.message@ == bad_alias(),
        },
{
    if alias_is_valid(alias) {
        Ok(())
    } else {
        Err(failure("SSH Host alias contains unsupported characters"))
    }
}

/// The names of a path after `.` and `..` were followed.
pub open spec fn followed_names(parts: Seq<Seq<char>>) -> Seq<Seq<char>>
    decreases parts.len(),
{
    if parts.len() == 0 {
        parts
    } else {
        let before = followed_names(parts.drop_last());
        let part = parts.last();
        if part.len() == 0 || part == "."@ {
            before
        } else if part == ".."@ {
            if before.len() == 0 {
                before
            } else {
                before.drop_last()
            }
        } else {
            before.push(part)
        }
    }
}

/// The path on a remote host, `.` and `..` followed.
pub open spec fn posix_normal(path: Seq<char>) -> Seq<char> {
    "/"@ + join(followed_names(split(path, Separator::Slash)), "/"@)
}

/// What is said of a path on a remote host that cannot be used.
pub open spec fn bad_path() -> Seq<char> {
    "remote target paths must be absolute POSIX paths"@
}

/// The path on a remote host, `.` and `..` followed.
pub fn normalize_remote_posix_path(path: &str) -> (r: Result<String, Failure>)
    ensures
        match r {
            Ok(s) => posix_path(path@) && s@ == posix_normal(path@),
            Err(f) => !posix_path(path@) && f.message@ == bad_path(),
        },
{
    if !is_posix_path(path) {
        return Err(failure("remote target paths must be absolute POSIX paths"));
    }
    let parts = split_text(path, Separator::Slash);
    let ghost all = views(parts@);
    let mut names: Vec<String> = Vec::new();
    let mut i: usize = 0;
    assert(views(names@) =~= Seq::<Seq<char>>::empty());
    assert(all.take(0) =~= Seq::<Seq<char>>::empty());
    while i < parts.len()
        invariant
            i <= parts@.len(),
            all == views(parts@),
            views(names@) == followed_names(all.take(i as int)),
        decreases parts@.len() - i,
    {
        let part = parts[i].as_str();
        let ghost before = names@;
        proof {
            assert(all.take(i + 1).drop_last() =~= all.take(i as int));
            assert(all.take(i + 1).last() == part@);
        }
        if part.is_empty() || str_eq(part, ".") {
        } else if str_eq(part, "..") {
            if names.len() > 0 {
                let _ = names.pop();
                assert(views(names@) =~= views(before).drop_last());
            } else {
                assert(views(names@).len() == 0);
            }
        } else {
            names.push(parts[i].clone());
            assert(views(names@) =~= views(before).push(part@));
        }
        i += 1;
    }
    assert(all.take(i as int) =~= all);
    let rest = joined(&names, "/");
    Ok(cat("/", rest.as_str()))
}

/// The text with each quote written so that a shell takes it for itself.
pub open spec fn escaped(s: Seq<char>) -> Seq<char>
    decreases s.len(),
{
    if s.len() == 0 {
        s
    } else if s.last() == '\'' {
        escaped(s.drop_last()) + "'\\''"@
    } else {
        escaped(s.drop_last()).push(s.last())
    }
}

/// The text as one word of a shell's command line.
pub open spec fn quoted_word(s: Seq<char>) -> Seq<char> {
    "'"@ + escaped(s) + "'"@
}

/// The text as one word of a shell's command line.
pub fn posix_shell_quote(value: &str) -> (r: String)
    ensures
        r@ == quoted_word(value@),
{
    let chars = chars_of(value);
    let mut inner = String::new();
    let mut i: usize = 0;
    assert(chars@.take(0) =~= Seq::<char>::empty());
    assert(inner@ =~= Seq::<char>::empty());
    while i < chars.len()
        invariant
            i <= chars@.len(),
            inner@ == escaped(chars@.take(i as int)),
        decreases chars@.len() - i,
    {
        let c = chars[i];
        proof {
            assert(chars@.take(i + 1).drop_last() =~= chars@.take(i as int));
            assert(chars@.take(i + 1).last() == c);
        }
        if c == '\'' {
            inner = cat(inner.as_str(), "'\\''");
        } else {
            inner.push(c);
        }
        i += 1;
    }
    assert(chars@.take(i as int) =~= value@);
    cat3("'", inner.as_str(), "'")
}

/// The command line that a remote host is given: a shell that reads a script, and
/// what the script is given.
pub open spec fn remote_command(args: Seq<Seq<char>>) -> Seq<char> {
    join(
        seq!["sh"@, "-s"@, "--"@] + args.map_values(|a: Seq<char>| quoted_word(a)),
        " "@,
    )
}

/// What `ssh` is given to run a script on a remote host.
pub open spec fn ssh_words(alias: Seq<char>, args: Seq<Seq<char>>) -> Seq<Seq<char>> {
    seq![
        "-T"@,
        "-o"@,
        "BatchMode=yes"@,
        "-o"@,
        "StrictHostKeyChecking=yes"@,
        "-o"@,
        "ConnectTimeout=60"@,
        alias,
        remote_command(args),
    ]
}

fn remote_command_line(args: &Vec<String>) -> (r: String)
    ensures
        r@ == remote_command(views(args@)),
{
    let ghost quoted = views(args@).map_values(|a: Seq<char>| quoted_word(a));
    let mut words: Vec<String> = Vec::new();
    words.push("sh".to_owned());
    words.push("-s".to_owned());
    words.push("--".to_owned());
    let mut i: usize = 0;
    assert(views(words@) =~= seq!["sh"@, "-s"@, "--"@] + quoted.take(0));
    while i < args.len()
        invariant
            i <= args@.len(),
            quoted == views(args@).map_values(|a: Seq<char>| quoted_word(a)),
            views(words@) == seq!["sh"@, "-s"@, "--"@] + quoted.take(i as int),
        decreases args@.len() - i,
    {
        let ghost before = words@;
        words.push(posix_shell_quote(args[i].as_str()));
        assert(quoted[i as int] == quoted_word(args@[i as int]@));
        assert(views(words@) =~= views(before).push(quoted[i as int]));
        assert(views(words@) =~= seq!["sh"@, "-s"@, "--"@] + quoted.take(i + 1));
        i += 1;
    }
    assert(quoted.take(i as int) =~= quoted);
    joined(&words, " ")
}

/// What `ssh` is given to run a script on a remote host.
pub fn ssh_arguments(ssh_alias: &str, args: &Vec<String>) -> (r: Result<Vec<String>, Failure>)
    ensures
        match r {
            Ok(v) => valid_alias(ssh_alias@) && views(v@) == ssh_words(ssh_alias@, views(args@)),
            Err(f) => !valid_alias(ssh_alias@) && f.message@ == bad_alias(),
        },
{
    if let Err(f) = validate_ssh_alias(ssh_alias) {
        return Err(f);
    }
    let command = remote_command_line(args);
    let r = vec![
        "-T".to_owned(),
        "-o".to_owned(),
        "BatchMode=yes".to_owned(),
        "-o".to_owned(),
        "StrictHostKeyChecking=yes".to_owned(),
        "-o".to_owned(),
        "ConnectTimeout=60".to_owned(),
        ssh_alias.to_owned(),
        command,
    ];
    assert(views(r@) =~= ssh_words(ssh_alias@, views(args@)));
    Ok(r)
}

// ---------------------------------------------------------------------------
// What a remote host says

/// Whether the texts strictly rise.
pub open spec fn strictly_rising(list: Seq<Seq<char>>) -> bool {
    forall|i: int, j: int|
        0 <= i < j < list.len() ==> less(#[trigger] list[i], #[trigger] list[j])
}

/// Whether the texts are those of the list, each once, in their order.
pub open spec fn is_sorted_set(r: Seq<Seq<char>>, list: Seq<Seq<char>>) -> bool {
    &&& strictly_rising(r)
    &&& forall|x: Seq<char>| #[trigger] r.contains(x) <==> list.contains(x)
}

fn insert_rising(list: &mut Vec<String>, text: String)
    requires
        strictly_rising(views(old(list)@)),
    ensures
        strictly_rising(views(final(list)@)),
        forall|x: Seq<char>| #[trigger]
            views(final(list)@).contains(x) <==> views(old(list)@).contains(x) || x == text@,
{
    let ghost a = list@;
    let ghost t = text@;
    let mut at: usize = 0;
    while at < list.len() && text_less(list[at].as_str(), text.as_str())
        invariant
            at <= list@.len(),
            list@ == a,
            forall|j: int| 0 <= j < at ==> less((#[trigger] a[j])@, text@),
        decreases list@.len() - at,
    {
        at += 1;
    }
    if at < list.len() && str_eq(list[at].as_str(), text.as_str()) {
        proof {
            assert(views(a)[at as int] == t);
            assert(views(list@) =~= views(a));
        }
        return ;
    }
    proof {
        if at < a.len() {
            less_is_total(a[at as int]@, t);
            assert forall|j: int| at <= j < a.len() implies less(t, (#[trigger] a[j])@) by {
                if j > at {
                    assert(less(views(a)[at as int], views(a)[j]));
                    less_is_transitive(t, a[at as int]@, a[j]@);
                }
            }
        }
    }
    list.insert(at, text);
    proof {
        let b = list@;
        assert(b =~= a.insert(at as int, text));
        assert forall|i: int, j: int| 0 <= i < j < b.len() implies less(
            #[trigger] views(b)[i],
            #[trigger] views(b)[j],
        ) by {
            let x = if i < at {
                i
            } else {
                i - 1
            };
            let y = if j < at {
                j
            } else {
                j - 1
            };
            if i != at && j != at {
                assert(less(views(a)[x], views(a)[y]));
            } else if i == at {
                assert(less(t, a[y]@));
            } else {
                assert(less(a[i]@, t));
            }
        }
        assert forall|x: Seq<char>| #[trigger] views(b).contains(x) <==> views(a).contains(x) || x
            == t by {
            if views(b).contains(x) {
                let i = choose|i: int| 0 <= i < views(b).len() && views(b)[i] == x;
                if i < at {
                    assert(views(a)[i] == x);
                } else if i > at {
                    assert(views(a)[i - 1] == x);
                }
            }
            if views(a).contains(x) {
                let i = choose|i: int| 0 <= i < views(a).len() && views(a)[i] == x;
                if i < at {
                    assert(views(b)[i] == x);
                } else {
                    assert(views(b)[i + 1] == x);
                }
            }
            if x == t {
                assert(views(b)[at as int] == x);
            }
        }
    }
}

/// The texts of the list, each once, in their order.
pub fn sorted_distinct(list: &Vec<String>) -> (r: Vec<String>)
    ensures
        is_sorted_set(views(r@), views(list@)),
{
    let ghost all = views(list@);
    let mut r: Vec<String> = Vec::new();
    let mut i: usize = 0;
    while i < list.len()
        invariant
            i <= list@.len(),
            all == views(list@),
            strictly_rising(views(r@)),
            forall|x: Seq<char>| #[trigger]
                views(r@).contains(x) <==> all.take(i as int).contains(x),
        decreases list@.len() - i,
    {
        let ghost before = views(r@);
        insert_rising(&mut r, list[i].clone());
        proof {
            assert forall|x: Seq<char>| #[trigger] views(r@).contains(x) <==> all.take(
                i + 1,
            ).contains(x) by {
                let t = all.take(i + 1);
                if all.take(i as int).contains(x) {
                    let k = choose|k: int| 0 <= k < i && all.take(i as int)[k] == x;
                    assert(t[k] == x);
                }
                if x == list@[i as int]@ {
                    assert(t[i as int] == x);
                }
                if t.contains(x) {
                    let k = choose|k: int| 0 <= k < t.len() && t[k] == x;
                    if k < i {
                        assert(all.take(i as int)[k] == x);
                    }
                }
            }
        }
        i += 1;
    }
    assert(all.take(i as int) =~= all);
    r
}

/// The lines that hold something, without white space around it.
pub open spec fn key_lines(s: Seq<char>) -> Seq<Seq<char>> {
    nonempty(lines(s).map_values(|l: Seq<char>| trim(l)))
}

fn read_key_lines(value: &str) -> (r: Vec<String>)
    ensures
        views(r@) == key_lines(value@),
{
    let all = text_lines(value);
    let ghost cut = lines(value@).map_values(|l: Seq<char>| trim(l));
    let mut parts: Vec<String> = Vec::new();
    let mut i: usize = 0;
    while i < all.len()
        invariant
            i <= all@.len(),
            views(all@) == lines(value@),
            cut == lines(value@).map_values(|l: Seq<char>| trim(l)),
            views(parts@) == cut.take(i as int),
        decreases all@.len() - i,
    {
        let ghost before = parts@;
        parts.push(trimmed(all[i].as_str()));
        assert(views(all@)[i as int] == all@[i as int]@);
        assert(views(parts@) =~= views(before).push(cut[i as int]));
        assert(views(parts@) =~= cut.take(i + 1));
        i += 1;
    }
    assert(views(all@).len() == all@.len());
    assert(cut.take(i as int) =~= cut);
    drop_empty(parts)
}

/// The fingerprints of host keys that the text lists, each once, in their order.
pub fn parse_host_key_fingerprints(value: &str) -> (r: Result<Vec<String>, Failure>)
    ensures
        match r {
            Ok(keys) => fingerprints(key_lines(value@)) && is_sorted_set(
                views(keys@),
                key_lines(value@),
            ),
            Err(f) => !fingerprints(key_lines(value@)) && f.message@
                == "remote host key fingerprints are invalid"@,
        },
{
    let list = read_key_lines(value);
    if !are_fingerprints(&list) {
        return Err(failure("remote host key fingerprints are invalid"));
    }
    Ok(sorted_distinct(&list))
}

/// Where the pattern stands first, from that place on.
pub open spec fn first_at(s: Seq<char>, pattern: Seq<char>, from: int) -> Option<int>
    decreases s.len() + 1 - from,
{
    if from < 0 || from > s.len() {
        None
    } else if occurs_at(s, pattern, from) {
        Some(from)
    } else {
        first_at(s, pattern, from + 1)
    }
}

proof fn lemma_first_at(s: Seq<char>, pattern: Seq<char>, from: int, i: int)
    requires
        0 <= from <= i <= s.len(),
        occurs_at(s, pattern, i),
        forall|j: int| from <= j < i ==> !occurs_at(s, pattern, j),
    ensures
        first_at(s, pattern, from) == Some(i),
    decreases i - from,
{
    if from < i {
        assert(!occurs_at(s, pattern, from));
        lemma_first_at(s, pattern, from + 1, i);
    }
}

proof fn lemma_never_at(s: Seq<char>, pattern: Seq<char>, from: int)
    requires
        0 <= from,
        forall|j: int| from <= j ==> !occurs_at(s, pattern, j),
    ensures
        first_at(s, pattern, from) is None,
    decreases s.len() + 1 - from,
{
    if from <= s.len() {
        assert(!occurs_at(s, pattern, from));
        lemma_never_at(s, pattern, from + 1);
    }
}

fn find_first(s: &Vec<char>, pattern: &str, from: usize) -> (r: Option<usize>)
    requires
        from <= s@.len(),
    ensures
        match r {
            Some(i) => from <= i && i + pattern@.len() <= s@.len() && first_at(
                s@,
                pattern@,
                from as int,
            ) == Some(i as int),
            None => first_at(s@, pattern@, from as int) is None,
        },
{
    let p = chars_of(pattern);
    let r = find_from(s, &p, from);
    proof {
        match r {
            Some(i) => lemma_first_at(s@, pattern@, from as int, i as int),
            None => lemma_never_at(s@, pattern@, from as int),
        }
    }
    r
}

/// The mark before the fingerprints.
pub open spec fn keys_mark() -> Seq<char> {
    "__QQ_HOST_KEYS__\n"@
}

/// The mark between the fingerprints and the path.
pub open spec fn path_mark() -> Seq<char> {
    "\n__QQ_CANONICAL_PATH__\n"@
}

/// What a remote host says of itself.
pub struct RemoteIdentity {
    pub host_key_fingerprints: Vec<String>,
    pub canonical_path: String,
}

/// What comes of reading what a remote host says of itself.
pub open spec fn identity_outcome(s: Seq<char>, r: Result<RemoteIdentity, Failure>) -> bool {
    match first_at(s, keys_mark(), 0) {
        None => r matches Err(f) && f.message@
            == "remote validation did not report host key fingerprints"@,
        Some(i) => {
            let start = i + keys_mark().len();
            match first_at(s, path_mark(), start) {
                None => r matches Err(f) && f.message@
                    == "remote validation did not report the canonical path"@,
                Some(j) => {
                    let keys = key_lines(s.subrange(start, j));
                    match r {
                        Ok(x) => {
                            &&& fingerprints(keys)
                            &&& is_sorted_set(views(x.host_key_fingerprints@), keys)
                            &&& x.canonical_path@ == trim(s.skip(j + path_mark().len()))
                        },
                        Err(f) => !fingerprints(keys) && f.message@
                            == "remote host key fingerprints are invalid"@,
                    }
                },
            }
        },
    }
}

/// Reads what a remote host says of itself.
pub fn read_remote_identity(output: &str) -> (r: Result<RemoteIdentity, Failure>)
    ensures
        identity_outcome(output@, r),
{
    let s = chars_of(output);
    let keys = "__QQ_HOST_KEYS__\n";
    let path = "\n__QQ_CANONICAL_PATH__\n";
    let keys_len: usize = chars_of(keys).len();
    let path_len: usize = chars_of(path).len();
    let i = match find_first(&s, keys, 0) {
        None => {
            return Err(failure("remote validation did not report host key fingerprints"));
        },
        Some(i) => i,
    };
    let len: usize = s.len();
    let start: usize = i + keys_len;
    let j = match find_first(&s, path, start) {
        None => {
            return Err(failure("remote validation did not report the canonical path"));
        },
        Some(j) => j,
    };
    let middle = slice_text(&s, start, j);
    let host_key_fingerprints = match parse_host_key_fingerprints(middle.as_str()) {
        Err(f) => {
            return Err(f);
        },
        Ok(list) => list,
    };
    let rest = slice_text(&s, j + path_len, len);
    assert(rest@ =~= output@.skip(j + path_len));
    let canonical_path = trimmed(rest.as_str());
    Ok(RemoteIdentity { host_key_fingerprints, canonical_path })
}

/// Whether the fingerprints are those that are expected, where some are.
pub fn check_fingerprints(expected: Option<&Vec<String>>, found: &Vec<String>) -> (r: Result<
    (),
    Failure,
>)
    requires
        strictly_rising(views(found@)),
    ensures
        match expected {
            None => r matches Ok(()),
            Some(e) => match r {
                Ok(()) => is_sorted_set(views(found@), views(e@)),
                Err(f) => !is_sorted_set(views(found@), views(e@)) && f.message@
                    == "SSH host key fingerprints changed; remove the existing target locally before explicitly re-registering this alias"@,
            },
        },
{
    match expected {
        None => Ok(()),
        Some(e) => {
            let sorted = sorted_distinct(e);
            if same_texts(&sorted, found) {
                Ok(())
            } else {
                proof {
                    if is_sorted_set(views(found@), views(e@)) {
                        lemma_sorted_sets_agree(views(sorted@), views(found@), views(e@));
                    }
                }
                Err(
                    failure(
                        "SSH host key fingerprints changed; remove the existing target locally before explicitly re-registering this alias",
                    ),
                )
            }
        },
    }
}

proof fn lemma_sorted_sets_agree(a: Seq<Seq<char>>, b: Seq<Seq<char>>, list: Seq<Seq<char>>)
    requires
        is_sorted_set(a, list),
        is_sorted_set(b, list),
    ensures
        a == b,
{
    lemma_rising_determined(a, b);
}

proof fn lemma_rising_determined(a: Seq<Seq<char>>, b: Seq<Seq<char>>)
    requires
        strictly_rising(a),
        strictly_rising(b),
        forall|x: Seq<char>| #[trigger] a.contains(x) <==> b.contains(x),
    ensures
        a == b,
    decreases a.len(),
{
    if a.len() == 0 {
        if b.len() > 0 {
            assert(b.contains(b[0]));
            assert(a.contains(b[0]));
        }
        assert(a =~= b);
    } else {
        assert(a.contains(a.last()));
        assert(b.contains(a.last()));
        assert(b.len() > 0);
        assert(b.contains(b.last()));
        assert(a.contains(b.last()));
        assert forall|t: Seq<char>| a.contains(t) implies #[trigger] b.contains(t) by {
            assert(a.contains(t) <==> b.contains(t));
        }
        let i = choose|i: int| 0 <= i < b.len() && b[i] == a.last();
        let j = choose|j: int| 0 <= j < a.len() && a[j] == b.last();
        if a.last() != b.last() {
            assert(less(b[i], b[b.len() - 1]));
            assert(less(a[j], a[a.len() - 1]));
            less_is_total(a.last(), b.last());
        }
        let x = a.drop_last();
        let y = b.drop_last();
        assert forall|t: Seq<char>| #[trigger] x.contains(t) <==> y.contains(t) by {
            if x.contains(t) {
                let k = choose|k: int| 0 <= k < x.len() && x[k] == t;
                assert(a[k] == t);
                assert(a.contains(t));
                assert(b.contains(t));
                let l = choose|l: int| 0 <= l < b.len() && b[l] == t;
                assert(less(a[k], a[a.len() - 1]));
                if l == b.len() - 1 {
                    less_is_total(t, t);
                }
                assert(y[l] == t);
            }
            if y.contains(t) {
                let k = choose|k: int| 0 <= k < y.len() && y[k] == t;
                assert(b[k] == t);
                assert(b.contains(t));
                assert(a.contains(t));
                let l = choose|l: int| 0 <= l < a.len() && a[l] == t;
                assert(less(b[k], b[b.len() - 1]));
                if l == a.len() - 1 {
                    less_is_total(t, t);
                }
                assert(x[l] == t);
            }
        }
        assert forall|p: int, q: int| 0 <= p < q < x.len() implies less(
            #[trigger] x[p],
            #[trigger] x[q],
        ) by {
            assert(less(a[p], a[q]));
        }
        assert forall|p: int, q: int| 0 <= p < q < y.len() implies less(
            #[trigger] y[p],
            #[trigger] y[q],
        ) by {
            assert(less(b[p], b[q]));
        }
        lemma_rising_determined(x, y);
        assert(a =~= x.push(a.last()));
        assert(b =~= y.push(b.last()));
    }
}

/// What an alias stands for.
pub struct SshHost {
    pub user: String,
    pub host: String,
    pub port: u16,
}

/// What was said so far of what an alias stands for.
pub ghost struct SshSeen {
    pub user: Option<Seq<char>>,
    pub host: Option<Seq<char>>,
    pub port: Option<nat>,
}

/// The words of a line.
pub open spec fn line_words(line: Seq<char>) -> Seq<Seq<char>> {
    nonempty(split(line, Separator::White))
}

/// What was said after one more line; nothing where the port is no number.
pub open spec fn ssh_line(seen: SshSeen, line: Seq<char>) -> Option<SshSeen> {
    let w = line_words(line);
    if w.len() < 2 {
        Some(seen)
    } else if w[0] == "user"@ {
        Some(SshSeen { user: Some(w[1]), ..seen })
    } else if w[0] == "hostname"@ {
        Some(SshSeen { host: Some(w[1]), ..seen })
    } else if w[0] == "port"@ {
        match parsed(w[1], u16::MAX as nat) {
            Some(n) => Some(SshSeen { port: Some(n), ..seen }),
            None => None,
        }
    } else {
        Some(seen)
    }
}

/// What was said in the first `n` lines.
pub open spec fn ssh_lines(all: Seq<Seq<char>>, n: nat) -> Option<SshSeen>
    decreases n,
{
    if n == 0 || n > all.len() {
        Some(SshSeen { user: None, host: None, port: None })
    } else {
        match ssh_lines(all, (n - 1) as nat) {
            Some(seen) => ssh_line(seen, all[n - 1]),
            None => None,
        }
    }
}

/// What comes of reading what an alias stands for.
pub open spec fn ssh_outcome(text: Seq<char>, r: Result<SshHost, Failure>) -> bool {
    match ssh_lines(lines(text), lines(text).len()) {
        None => r matches Err(f) && f.message@ == "ssh alias port was invalid"@,
        Some(seen) => match (seen.user, seen.host, seen.port) {
            (None, _, _) => r matches Err(f) && f.message@ == "ssh alias did not resolve a user"@,
            (Some(_), None, _) => r matches Err(f) && f.message@
                == "ssh alias did not resolve a hostname"@,
            (Some(_), Some(_), None) => r matches Err(f) && f.message@
                == "ssh alias did not resolve a port"@,
            (Some(user), Some(host), Some(port)) => r matches Ok(x) && x.user@ == user && x.host@
                == host && x.port == port,
        },
    }
}

proof fn lemma_bad_port_stays(all: Seq<Seq<char>>, n: nat)
    requires
        n <= all.len(),
        ssh_lines(all, n) is None,
    ensures
        ssh_lines(all, all.len()) is None,
    decreases all.len() - n,
{
    if n < all.len() {
        lemma_bad_port_stays(all, n + 1);
    }
}

/// Reads what an alias stands for from what `ssh -G` prints.
pub fn read_ssh_host(text: &str) -> (r: Result<SshHost, Failure>)
    ensures
        ssh_outcome(text@, r),
{
    let list = text_lines(text);
    let ghost all = lines(text@);
    let mut user: Option<String> = None;
    let mut host: Option<String> = None;
    let mut port: Option<u16> = None;
    let mut i: usize = 0;
    assert(views(list@).len() == list@.len());
    while i < list.len()
        invariant
            i <= list@.len(),
            all == lines(text@),
            views(list@) == all,
            all.len() == list@.len(),
            ssh_lines(all, i as nat) == Some(
                SshSeen {
                    user: opt_view(user),
                    host: opt_view(host),
                    port: match port {
                        Some(n) => Some(n as nat),
                        None => None,
                    },
                },
            ),
        decreases list@.len() - i,
    {
        let w = words(list[i].as_str());
        proof {
            assert(views(list@)[i as int] == list@[i as int]@);
            assert(views(w@) == line_words(all[i as int]));
            assert(views(w@).len() == w@.len());
            if w@.len() >= 2 {
                assert(views(w@)[0] == w@[0]@);
                assert(views(w@)[1] == w@[1]@);
            }
        }
        if w.len() >= 2 {
            if str_eq(w[0].as_str(), "user") {
                user = Some(w[1].clone());
            } else if str_eq(w[0].as_str(), "hostname") {
                host = Some(w[1].clone());
            } else if str_eq(w[0].as_str(), "port") {
                match parse_number(w[1].as_str(), u16::MAX as u64) {
                    Some(n) => {
                        port = Some(n as u16);
                    },
                    None => {
                        proof {
                            lemma_bad_port_stays(all, (i + 1) as nat);
                        }
                        return Err(failure("ssh alias port was invalid"));
                    },
                }
            }
        }
        i += 1;
    }
    let user = match user {
        None => {
            return Err(failure("ssh alias did not resolve a user"));
        },
        Some(user) => user,
    };
    let host = match host {
        None => {
            return Err(failure("ssh alias did not resolve a hostname"));
        },
        Some(host) => host,
    };
    match port {
        None => Err(failure("ssh alias did not resolve a port")),
        Some(port) => Ok(SshHost { user, host, port }),
    }
}

/// Whether the version of the adapter's protocol is known.
pub open spec fn is_known_protocol(v: Seq<char>) -> bool {
    v == "1.0.0"@ || v == "0.8.0"@ || v == "0.7.0"@ || v == "0.6.0"@ || v == "0.5.2"@ || v
        == "0.5.1"@
}

/// Whether the value tells of an endpoint.
pub open spec fn is_endpoint(t: Tree) -> bool {
    &&& is_record(t, 3)
    &&& number_tree(field(t, 0, "schemaVersion"@)) matches Some(n) && n <= u32::MAX
    &&& owed_text(field(t, 1, "protocolVersion"@)) is Some
    &&& owed_text(field(t, 2, "type"@)) is Some
}

/// Whether the endpoint can be used.
pub open spec fn is_usable_endpoint(t: Tree) -> bool {
    &&& number_tree(field(t, 0, "schemaVersion"@)) == Some(2nat)
    &&& owed_text(field(t, 2, "type"@)) == Some("standalone"@)
    &&& owed_text(field(t, 1, "protocolVersion"@)) matches Some(v) && is_known_protocol(v)
}

/// The endpoints that the value tells of; nothing where it tells of none.
pub open spec fn endpoints(t: Tree) -> Option<Seq<Tree>> {
    match field(t, 0, "endpoints"@) {
        Some(Tree::Array(ts)) if is_record(t, 1) => if forall|i: int|
            0 <= i < ts.len() ==> is_endpoint(#[trigger] ts[i]) {
            Some(ts)
        } else {
            None
        },
        _ => None,
    }
}

/// Whether one of the endpoints can be used.
pub open spec fn has_usable(ts: Seq<Tree>) -> bool {
    exists|i: int| 0 <= i < ts.len() && is_usable_endpoint(#[trigger] ts[i])
}

/// What is said of endpoints that cannot be read.
pub open spec fn unreadable_endpoints() -> Seq<char> {
    "agent endpoints output was not valid JSON"@
}

fn endpoint_is_known(j: &Json) -> (r: bool)
    ensures
        r == is_endpoint(j@),
{
    if !j.is_record(3) {
        return false;
    }
    let version = match read_number(j.field(0, "schemaVersion")) {
        None => {
            return false;
        },
        Some(n) => n,
    };
    version <= u32::MAX as u64 && read_text(j.field(1, "protocolVersion")).is_some() && read_text(
        j.field(2, "type"),
    ).is_some()
}

fn endpoint_is_usable(j: &Json) -> (r: bool)
    ensures
        r == is_usable_endpoint(j@),
{
    match (
        read_number(j.field(0, "schemaVersion")),
        read_text(j.field(2, "type")),
        read_text(j.field(1, "protocolVersion")),
    ) {
        (Some(n), Some(kind), Some(v)) => {
            let v = v.as_str();
            n == 2 && str_eq(kind.as_str(), "standalone") && (str_eq(v, "1.0.0") || str_eq(
                v,
                "0.8.0",
            ) || str_eq(v, "0.7.0") || str_eq(v, "0.6.0") || str_eq(v, "0.5.2") || str_eq(
                v,
                "0.5.1",
            ))
        },
        _ => false,
    }
}

/// Whether one of the endpoints that the value tells of can be used.
pub fn validate_endpoints(document: &Json) -> (r: Result<(), Failure>)
    ensures
        match endpoints(document@) {
            None => r matches Err(f) && f.message@ == unreadable_endpoints(),
            Some(ts) => match r {
                Ok(()) => has_usable(ts),
                Err(f) => !has_usable(ts) && f.message@
                    == "no compatible standalone agent host endpoint was found; first connect/update with VS Code Remote SSH or update VS Code locally"@,
            },
        },
{
    if !document.is_record(1) {
        return Err(failure("agent endpoints output was not valid JSON"));
    }
    let list = match document.field(0, "endpoints") {
        Some(Json::Array(v)) => v,
        _ => {
            return Err(failure("agent endpoints output was not valid JSON"));
        },
    };
    let ghost ts = trees(*list, list@.len());
    proof {
        lemma_trees(*list, list@.len());
    }
    let mut usable = false;
    let mut i: usize = 0;
    while i < list.len()
        invariant
            i <= list@.len(),
            ts.len() == list@.len(),
            forall|j: int| 0 <= j < ts.len() ==> #[trigger] ts[j] == list@[j]@,
            forall|j: int| 0 <= j < i ==> is_endpoint(#[trigger] ts[j]),
            usable == exists|j: int| 0 <= j < i && is_usable_endpoint(#[trigger] ts[j]),
            is_record(document@, 1),
            field(document@, 0, "endpoints"@) == Some(Tree::Array(ts)),
        decreases list@.len() - i,
    {
        assert(ts[i as int] == list@[i as int]@);
        if !endpoint_is_known(&list[i]) {
            assert(!is_endpoint(ts[i as int]));
            return Err(failure("agent endpoints output was not valid JSON"));
        }
        if endpoint_is_usable(&list[i]) {
            usable = true;
        }
        i += 1;
    }
    assert(endpoints(document@) == Some(ts));
    assert(usable == has_usable(ts));
    if usable {
        Ok(())
    } else {
        Err(
            failure(
                "no compatible standalone agent host endpoint was found; first connect/update with VS Code Remote SSH or update VS Code locally",
            ),
        )
    }
}

// ---------------------------------------------------------------------------
// Addresses of workspaces

/// What `url` reads in an address: its scheme, its host and its path.
pub uninterp spec fn url_read(s: Seq<char>) -> Option<(Seq<char>, Option<Seq<char>>, Seq<char>)>;

/// What `url` writes for an address with another path.
pub uninterp spec fn url_with_path(base: Seq<char>, path: Seq<char>) -> Option<Seq<char>>;

/// The parts of an address.
pub struct UrlParts {
    pub scheme: String,
    pub host: Option<String>,
    pub path: String,
}

/// `url::Url::parse`, with `scheme`, `host_str` and `path` of what it gives: what
/// they are for which address is left to `url`; an address that it refuses has
/// none.
#[verifier::external_body]
fn read_url(s: &str) -> (r: Option<UrlParts>)
    ensures
        match r {
            Some(p) => url_read(s@) == Some((p.scheme@, opt_view(p.host), p.path@)),
            None => url_read(s@) is None,
        },
{
    url::Url::parse(s).ok().map(
        |u|
            UrlParts {
                scheme: u.scheme().to_owned(),
                host: u.host_str().map(str::to_owned),
                path: u.path().to_owned(),
            },
    )
}

/// The longest path that an address is given here. A character takes at most twelve
/// bytes in an address, and `url` counts the bytes of an address in 32 bits.
pub const MAX_URL_PATH: usize = 0x1000_0000;

/// `url::Url::set_path`, on an address that `url::Url::parse` has read: the address
/// with that path, as `url` writes it; nothing where it refuses the address. It
/// panics where the address outgrows 32 bits, so the texts are bounded.
#[verifier::external_body]
fn set_url_path(base: &str, path: &str) -> (r: Option<String>)
    requires
        base@.len() <= 0x1000,
        path@.len() <= MAX_URL_PATH,
    ensures
        opt_view(r) == url_with_path(base@, path@),
{
    let mut url = url::Url::parse(base).ok()?;
    url.set_path(path);
    Some(url.to_string())
}

/// The address of the root of a remote host.
pub open spec fn remote_root(alias: Seq<char>) -> Seq<char> {
    "vscode-remote://ssh-remote+"@ + alias + "/"@
}

proof fn lemma_bytes_cover_chars(s: Seq<char>)
    ensures
        s.len() <= encode_utf8(s).len(),
    decreases s.len(),
{
    if s.len() > 0 {
        lemma_bytes_cover_chars(s.drop_first());
    }
}

/// The address of a workspace on a remote host.
pub fn remote_workspace_uri(ssh_alias: &str, workspace: &str) -> (r: Result<String, Failure>)
    requires
        posix_normal(workspace@).len() <= MAX_URL_PATH,
    ensures
        if !valid_alias(ssh_alias@) {
            r matches Err(f) && f.message@ == bad_alias()
        } else if !posix_path(workspace@) {
            r matches Err(f) && f.message@ == bad_path()
        } else {
            match url_with_path(remote_root(ssh_alias@), posix_normal(workspace@)) {
                Some(uri) => r matches Ok(x) && x@ == uri,
                None => r matches Err(f) && f.message@
                    == "failed to build VS Code Remote SSH workspace URI"@,
            }
        },
{
    if let Err(f) = validate_ssh_alias(ssh_alias) {
        return Err(f);
    }
    let path = match normalize_remote_posix_path(workspace) {
        Err(f) => {
            return Err(f);
        },
        Ok(path) => path,
    };
    let root = cat3("vscode-remote://ssh-remote+", ssh_alias, "/");
    proof {
        lemma_bytes_cover_chars(ssh_alias@);
        reveal_strlit("vscode-remote://ssh-remote+");
        reveal_strlit("/");
    }
    uri_built(set_url_path(root.as_str(), path.as_str()))
}

/// The address of a workspace on a remote host, once it was written.
pub fn uri_built(written: Option<String>) -> (r: Result<String, Failure>)
    ensures
        match written {
            Some(uri) => r == Ok::<String, Failure>(uri),
            None => r matches Err(f) && f.message@
                == "failed to build VS Code Remote SSH workspace URI"@,
        },
{
    match written {
        Some(uri) => Ok(uri),
        None => Err(failure("failed to build VS Code Remote SSH workspace URI")),
    }
}

/// Whether the text is the address of a directory of some machine.
pub open spec fn is_directory_url(s: Seq<char>) -> bool {
    "file://"@.is_prefix_of(s) && s.last() == '/'
}

/// `url::Url::from_directory_path`: the address of a directory on this machine, which
/// has the scheme `file` and ends in a slash; nothing where the path is not absolute.
/// Which paths are, and how they are written, is another matter on each system, so
/// no more is said of the address. It panics where the address outgrows 32 bits, so
/// the path is bounded.
#[verifier::external_body]
fn directory_url(path: &str) -> (r: Option<String>)
    requires
        path@.len() <= MAX_URL_PATH,
    ensures
        match r {
            Some(u) => is_directory_url(u@),
            None => true,
        },
{
    url::Url::from_directory_path(path).ok().map(|u| u.to_string())
}

/// The address of a workspace on this machine. What it is depends on the system.
pub fn local_workspace_uri(workspace: &str) -> (r: Result<String, Failure>)
    requires
        workspace@.len() <= MAX_URL_PATH,
    ensures
        match r {
            Ok(u) => is_directory_url(u@),
            Err(f) => f.message@ == "failed to build workspace URI"@,
        },
{
    local_uri_built(directory_url(workspace))
}

/// The address of a workspace on this machine, once it was written.
pub fn local_uri_built(written: Option<String>) -> (r: Result<String, Failure>)
    ensures
        match written {
            Some(uri) => r == Ok::<String, Failure>(uri),
            None => r matches Err(f) && f.message@ == "failed to build workspace URI"@,
        },
{
    match written {
        Some(uri) => Ok(uri),
        None => Err(failure("failed to build workspace URI")),
    }
}

/// The text that is written in an address.
pub open spec fn decoded(s: Seq<char>) -> Option<Seq<char>> {
    let bytes = percent_decoded(encode_utf8(s));
    if valid_utf8(bytes) {
        Some(decode_utf8(bytes))
    } else {
        None
    }
}

/// The host that is written in an address.
pub open spec fn decoded_host(host: Option<Seq<char>>) -> Option<Seq<char>> {
    match host {
        Some(h) => decoded(h),
        None => None,
    }
}

/// The path on a remote host that is written in an address.
pub open spec fn decoded_path(path: Seq<char>) -> Option<Seq<char>> {
    match decoded(path) {
        Some(p) if posix_path(p) => Some(posix_normal(p)),
        _ => None,
    }
}

/// Whether two addresses with these parts are those of one workspace. Files are
/// compared elsewhere.
pub open spec fn same_workspace(
    a: (Seq<char>, Option<Seq<char>>, Seq<char>),
    b: (Seq<char>, Option<Seq<char>>, Seq<char>),
    same_file: bool,
) -> bool {
    a.0 == b.0 && (if a.0 == "file"@ {
        same_file
    } else {
        a.0 == "vscode-remote"@ && decoded_host(a.1) == decoded_host(b.1) && decoded_path(a.2)
            == decoded_path(b.2)
    })
}

fn read_host(host: &Option<String>) -> (r: Option<String>)
    ensures
        opt_view(r) == decoded_host(opt_view(*host)),
{
    match host {
        Some(h) => url_decode(h.as_str()),
        None => None,
    }
}

fn read_path(path: &str) -> (r: Option<String>)
    ensures
        opt_view(r) == decoded_path(path@),
{
    match url_decode(path) {
        None => None,
        Some(p) => match normalize_remote_posix_path(p.as_str()) {
            Ok(s) => Some(s),
            Err(_) => None,
        },
    }
}

/// Whether two addresses with these parts are those of one workspace. Files are
/// compared elsewhere.
pub fn parts_equal(a: &UrlParts, b: &UrlParts, same_file: bool) -> (r: bool)
    ensures
        r == same_workspace(
            (a.scheme@, opt_view(a.host), a.path@),
            (b.scheme@, opt_view(b.host), b.path@),
            same_file,
        ),
{
    if !str_eq(a.scheme.as_str(), b.scheme.as_str()) {
        return false;
    }
    if str_eq(a.scheme.as_str(), "file") {
        return same_file;
    }
    if !str_eq(a.scheme.as_str(), "vscode-remote") {
        return false;
    }
    opt_eq(&read_host(&a.host), &read_host(&b.host)) && opt_eq(
        &read_path(a.path.as_str()),
        &read_path(b.path.as_str()),
    )
}

// ---------------------------------------------------------------------------
// Places on this machine

/// A path, and where it leads.
#[derive(Debug)]
pub struct Resolved {
    pub path: String,
    pub canonical: String,
}

/// Where the path leads, if it leads anywhere.
pub open spec fn leads_to(disk: Seq<Resolved>, path: Seq<char>) -> Option<Seq<char>>
    decreases disk.len(),
{
    if disk.len() == 0 {
        None
    } else if disk[0].path@ == path {
        Some(disk[0].canonical@)
    } else {
        leads_to(disk.skip(1), path)
    }
}

/// Whether each of two paths is within the other.
pub open spec fn same_path(a: Seq<char>, b: Seq<char>) -> bool {
    within(a, b) && within(b, a)
}

/// Whether two paths lead to one place; where one leads nowhere, whether they are
/// one path.
pub open spec fn same_place(disk: Seq<Resolved>, a: Seq<char>, b: Seq<char>) -> bool {
    match (leads_to(disk, a), leads_to(disk, b)) {
        (Some(x), Some(y)) => same_path(x, y),
        _ => same_path(a, b),
    }
}

fn find_place(disk: &Vec<Resolved>, path: &str) -> (r: Option<String>)
    ensures
        opt_view(r) == leads_to(disk@, path@),
{
    let mut i: usize = 0;
    assert(disk@.skip(0) =~= disk@);
    while i < disk.len()
        invariant
            i <= disk@.len(),
            leads_to(disk@, path@) == leads_to(disk@.skip(i as int), path@),
        decreases disk@.len() - i,
    {
        assert(disk@.skip(i as int)[0] == disk@[i as int]);
        if str_eq(disk[i].path.as_str(), path) {
            return Some(disk[i].canonical.clone());
        }
        assert(disk@.skip(i as int).skip(1) =~= disk@.skip(i + 1));
        i += 1;
    }
    None
}

/// Whether two paths lead to one place. `disk` says where paths lead.
pub fn paths_equal(disk: &Vec<Resolved>, left: &str, right: &str) -> (r: bool)
    ensures
        r == same_place(disk@, left@, right@),
{
    match (find_place(disk, left), find_place(disk, right)) {
        (Some(a), Some(b)) => path_is_within(a.as_str(), b.as_str()) && path_is_within(
            b.as_str(),
            a.as_str(),
        ),
        _ => path_is_within(left, right) && path_is_within(right, left),
    }
}

/// An address, and the path of the file that it is the address of, if it is one.
#[derive(Debug)]
pub struct FileUri {
    pub uri: String,
    pub path: Option<String>,
}

/// Whether the path of an address starts with a name: with something other than a
/// slash, written as it is or encoded.
pub open spec fn starts_with_name(path: Seq<char>) -> bool {
    &&& path.len() > 1
    &&& path[1] != '/'
    &&& !(path.len() > 3 && path[1] == '%' && ((path[2] == '2' && (path[3] == 'f' || path[3]
        == 'F')) || (path[2] == '5' && (path[3] == 'c' || path[3] == 'C'))))
}

/// Whether the path of an address is a drive such as `/C:` and nothing on it, with
/// the colon written as it is or encoded.
pub open spec fn is_bare_drive(path: Seq<char>) -> bool {
    ||| path.len() == 3 && is_letter(path[1]) && path[2] == ':'
    ||| path.len() == 5 && is_letter(path[1]) && path[2] == '%' && path[3] == '3' && (path[4] == 'a'
        || path[4] == 'A')
}

/// Whether the address may be that of a file: `url` reads it, its scheme is `file`,
/// its path is not a drive alone, and where it names a host it names something on
/// that host.
pub open spec fn may_be_file(uri: Seq<char>) -> bool {
    match url_read(uri) {
        None => false,
        Some((scheme, host, path)) => scheme == "file"@ && !is_bare_drive(path) && (host is None
            || starts_with_name(path)),
    }
}

fn is_name_first(path: &str) -> (r: bool)
    ensures
        r == starts_with_name(path@),
{
    let p = chars_of(path);
    if p.len() <= 1 || p[1] == '/' {
        return false;
    }
    !(p.len() > 3 && p[1] == '%' && ((p[2] == '2' && (p[3] == 'f' || p[3] == 'F')) || (p[2] == '5'
        && (p[3] == 'c' || p[3] == 'C'))))
}

fn is_drive_alone(path: &str) -> (r: bool)
    ensures
        r == is_bare_drive(path@),
{
    let p = chars_of(path);
    if p.len() == 3 {
        char_is_letter(p[1]) && p[2] == ':'
    } else {
        p.len() == 5 && char_is_letter(p[1]) && p[2] == '%' && p[3] == '3' && (p[4] == 'a' || p[4]
            == 'A')
    }
}

/// `url::Url::to_file_path`, on an address that `url::Url::parse` has read: the path
/// that the address writes. Which addresses write one, and how, is another matter on
/// each system, so nothing is said of the path. A build with debug assertions panics
/// where the path turns out not to be absolute. That can only be where the address
/// names a host and nothing on it, or a drive and nothing on it, so such addresses
/// are left out.
#[verifier::external_body]
fn file_path(uri: &str) -> (r: Option<String>)
    requires
        may_be_file(uri@),
{
    let path = url::Url::parse(uri).ok()?.to_file_path().ok()?;
    Some(path.to_string_lossy().into_owned())
}

/// Finds the files that addresses are the addresses of. Which they are depends on
/// the system.
pub fn find_files(uris: &Vec<String>) -> (r: Vec<FileUri>)
    ensures
        r@.len() == uris@.len(),
        forall|i: int|
            0 <= i < r@.len() ==> (#[trigger] r@[i]).uri == uris@[i] && (!may_be_file(uris@[i]@)
                ==> r@[i].path is None),
{
    let mut r: Vec<FileUri> = Vec::new();
    let mut i: usize = 0;
    while i < uris.len()
        invariant
            i <= uris@.len(),
            r@.len() == i,
            forall|j: int|
                0 <= j < i ==> (#[trigger] r@[j]).uri == uris@[j] && (!may_be_file(uris@[j]@)
                    ==> r@[j].path is None),
        decreases uris@.len() - i,
    {
        let uri = uris[i].as_str();
        let may_be = match read_url(uri) {
            None => false,
            Some(parts) => str_eq(parts.scheme.as_str(), "file") && !is_drive_alone(
                parts.path.as_str(),
            ) && (parts.host.is_none() || is_name_first(parts.path.as_str())),
        };
        let path = if may_be {
            file_path(uri)
        } else {
            None
        };
        r.push(FileUri { uri: uris[i].clone(), path });
        i += 1;
    }
    r
}

/// The file that the address is known to be the address of.
pub open spec fn file_of(files: Seq<FileUri>, uri: Seq<char>) -> Option<Seq<char>>
    decreases files.len(),
{
    if files.len() == 0 {
        None
    } else if files[0].uri@ == uri {
        opt_view(files[0].path)
    } else {
        file_of(files.skip(1), uri)
    }
}

fn find_file(files: &Vec<FileUri>, uri: &str) -> (r: Option<String>)
    ensures
        opt_view(r) == file_of(files@, uri@),
{
    let mut i: usize = 0;
    assert(files@.skip(0) =~= files@);
    while i < files.len()
        invariant
            i <= files@.len(),
            file_of(files@, uri@) == file_of(files@.skip(i as int), uri@),
        decreases files@.len() - i,
    {
        assert(files@.skip(i as int)[0] == files@[i as int]);
        if str_eq(files[i].uri.as_str(), uri) {
            return files[i].path.clone();
        }
        assert(files@.skip(i as int).skip(1) =~= files@.skip(i + 1));
        i += 1;
    }
    None
}

/// Whether two addresses are those of one file.
pub open spec fn same_file(
    disk: Seq<Resolved>,
    files: Seq<FileUri>,
    a: Seq<char>,
    b: Seq<char>,
) -> bool {
    match (file_of(files, a), file_of(files, b)) {
        (Some(x), Some(y)) => same_place(disk, x, y),
        _ => false,
    }
}

/// Whether two addresses are those of one workspace.
pub open spec fn same_uri(
    disk: Seq<Resolved>,
    files: Seq<FileUri>,
    a: Seq<char>,
    b: Seq<char>,
) -> bool {
    a == b || match (url_read(a), url_read(b)) {
        (Some(x), Some(y)) => same_workspace(x, y, same_file(disk, files, a, b)),
        _ => false,
    }
}

/// Whether two addresses are those of one workspace. `disk` says where paths lead,
/// and `files` which files addresses are the addresses of.
pub fn workspace_uris_equal(
    disk: &Vec<Resolved>,
    files: &Vec<FileUri>,
    expected: &str,
    reported: &str,
) -> (r: bool)
    ensures
        r == same_uri(disk@, files@, expected@, reported@),
{
    if str_eq(expected, reported) {
        return true;
    }
    let is_same = match (find_file(files, expected), find_file(files, reported)) {
        (Some(a), Some(b)) => paths_equal(disk, a.as_str(), b.as_str()),
        _ => false,
    };
    match (read_url(expected), read_url(reported)) {
        (Some(a), Some(b)) => parts_equal(&a, &b, is_same),
        _ => false,
    }
}

/// The condition of asking for trust in one of the workspaces that are reported.
pub open spec fn is_reported(
    disk: Seq<Resolved>,
    files: Seq<FileUri>,
    reported: Seq<Seq<char>>,
    uri: Seq<char>,
) -> bool {
    exists|i: int|
        0 <= i < reported.len() && same_uri(disk, files, uri, #[trigger] reported[i])
}

/// The addresses in the first `n` requests that are reported.
pub open spec fn reported_uris(
    disk: Seq<Resolved>,
    files: Seq<FileUri>,
    requests: Seq<AhpTrustRequestRecord>,
    reported: Seq<Seq<char>>,
    n: nat,
) -> Seq<Seq<char>>
    decreases n,
{
    if n == 0 || n > requests.len() {
        Seq::empty()
    } else {
        let before = reported_uris(disk, files, requests, reported, (n - 1) as nat);
        if is_reported(disk, files, reported, requests[n - 1].workspace_uri@) {
            before.push(requests[n - 1].workspace_uri@)
        } else {
            before
        }
    }
}

fn any_reported(
    disk: &Vec<Resolved>,
    files: &Vec<FileUri>,
    reported: &Vec<String>,
    uri: &str,
) -> (r: bool)
    ensures
        r == is_reported(disk@, files@, views(reported@), uri@),
{
    let mut i: usize = 0;
    while i < reported.len()
        invariant
            i <= reported@.len(),
            forall|j: int|
                0 <= j < i ==> !same_uri(disk@, files@, uri@, #[trigger] views(reported@)[j]),
        decreases reported@.len() - i,
    {
        assert(views(reported@)[i as int] == reported@[i as int]@);
        if workspace_uris_equal(disk, files, uri, reported[i].as_str()) {
            return true;
        }
        i += 1;
    }
    false
}

/// The addresses in the requests that a report on workspaces is about.
pub fn reported_requests(
    disk: &Vec<Resolved>,
    files: &Vec<FileUri>,
    requests: &Vec<AhpTrustRequestRecord>,
    reported: &Vec<String>,
) -> (r: Vec<String>)
    ensures
        views(r@) == reported_uris(
            disk@,
            files@,
            requests@,
            views(reported@),
            requests@.len(),
        ),
{
    let mut r: Vec<String> = Vec::new();
    let mut i: usize = 0;
    assert(views(r@) =~= Seq::<Seq<char>>::empty());
    while i < requests.len()
        invariant
            i <= requests@.len(),
            views(r@) == reported_uris(disk@, files@, requests@, views(reported@), i as nat),
        decreases requests@.len() - i,
    {
        let uri = requests[i].workspace_uri.as_str();
        if any_reported(disk, files, reported, uri) {
            let ghost before = r@;
            r.push(requests[i].workspace_uri.clone());
            assert(views(r@) =~= views(before).push(uri@));
        }
        i += 1;
    }
    r
}

/// Whether one of the paths leads to that place.
pub open spec fn is_placed(disk: Seq<Resolved>, list: Seq<Seq<char>>, path: Seq<char>) -> bool {
    exists|i: int| 0 <= i < list.len() && same_place(disk, #[trigger] list[i], path)
}

/// The first `n` of the new paths added to the list, those left out that lead where
/// another does.
pub open spec fn with_places(
    disk: Seq<Resolved>,
    list: Seq<Seq<char>>,
    more: Seq<Seq<char>>,
    n: nat,
) -> Seq<Seq<char>>
    decreases n,
{
    if n == 0 || n > more.len() {
        list
    } else {
        let before = with_places(disk, list, more, (n - 1) as nat);
        if is_placed(disk, before, more[n - 1]) {
            before
        } else {
            before.push(more[n - 1])
        }
    }
}

/// Whether the path is within one of the roots.
pub open spec fn is_rooted(roots: Seq<Seq<char>>, path: Seq<char>) -> bool {
    exists|i: int| 0 <= i < roots.len() && within(path, #[trigger] roots[i])
}

/// The first `n` of the new paths added to the roots, those left out that are
/// within one.
pub open spec fn with_roots(roots: Seq<Seq<char>>, more: Seq<Seq<char>>, n: nat) -> Seq<Seq<char>>
    decreases n,
{
    if n == 0 || n > more.len() {
        roots
    } else {
        let before = with_roots(roots, more, (n - 1) as nat);
        if is_rooted(before, more[n - 1]) {
            before
        } else {
            before.push(more[n - 1])
        }
    }
}

fn any_placed(disk: &Vec<Resolved>, list: &Vec<String>, path: &str) -> (r: bool)
    ensures
        r == is_placed(disk@, views(list@), path@),
{
    let mut i: usize = 0;
    while i < list.len()
        invariant
            i <= list@.len(),
            forall|j: int| 0 <= j < i ==> !same_place(disk@, #[trigger] views(list@)[j], path@),
        decreases list@.len() - i,
    {
        assert(views(list@)[i as int] == list@[i as int]@);
        if paths_equal(disk, list[i].as_str(), path) {
            return true;
        }
        i += 1;
    }
    false
}

fn any_rooted(roots: &Vec<String>, path: &str) -> (r: bool)
    ensures
        r == is_rooted(views(roots@), path@),
{
    let mut i: usize = 0;
    while i < roots.len()
        invariant
            i <= roots@.len(),
            forall|j: int| 0 <= j < i ==> !within(path@, #[trigger] views(roots@)[j]),
        decreases roots@.len() - i,
    {
        assert(views(roots@)[i as int] == roots@[i as int]@);
        if path_is_within(path, roots[i].as_str()) {
            return true;
        }
        i += 1;
    }
    false
}

fn add_places(disk: &Vec<Resolved>, list: &mut Vec<String>, more: &Vec<String>)
    ensures
        views(final(list)@) == with_places(
            disk@,
            views(old(list)@),
            views(more@),
            views(more@).len(),
        ),
        final(list)@.len() >= old(list)@.len(),
{
    let ghost a = views(list@);
    let ghost all = views(more@);
    let mut i: usize = 0;
    while i < more.len()
        invariant
            i <= more@.len(),
            all == views(more@),
            all.len() == more@.len(),
            views(list@) == with_places(disk@, a, all, i as nat),
            list@.len() >= a.len(),
        decreases more@.len() - i,
    {
        assert(all[i as int] == more@[i as int]@);
        if !any_placed(disk, list, more[i].as_str()) {
            let ghost before = list@;
            list.push(more[i].clone());
            assert(views(list@) =~= views(before).push(all[i as int]));
        }
        i += 1;
    }
}

fn add_roots(roots: &mut Vec<String>, more: &Vec<String>)
    ensures
        views(final(roots)@) == with_roots(views(old(roots)@), views(more@), views(more@).len()),
{
    let ghost a = views(roots@);
    let ghost all = views(more@);
    let mut i: usize = 0;
    while i < more.len()
        invariant
            i <= more@.len(),
            all == views(more@),
            all.len() == more@.len(),
            views(roots@) == with_roots(a, all, i as nat),
        decreases more@.len() - i,
    {
        assert(all[i as int] == more@[i as int]@);
        if !any_rooted(roots, more[i].as_str()) {
            let ghost before = roots@;
            roots.push(more[i].clone());
            assert(views(roots@) =~= views(before).push(all[i as int]));
        }
        i += 1;
    }
}

/// The workspaces, those left out that lead where another does.
pub fn distinct_workspaces(disk: &Vec<Resolved>, workspaces: &Vec<String>) -> (r: Vec<String>)
    ensures
        views(r@) == with_places(
            disk@,
            Seq::empty(),
            views(workspaces@),
            views(workspaces@).len(),
        ),
{
    let mut r: Vec<String> = Vec::new();
    assert(views(r@) =~= Seq::<Seq<char>>::empty());
    add_places(disk, &mut r, workspaces);
    r
}

// ---------------------------------------------------------------------------
// Changing the configuration

/// The intents of the gateway with that for buttons.
pub open spec fn with_buttons(intents: u64) -> u64 {
    intents | (1u64 << 26)
}

/// Sets the bridge up for agent hosts.
pub fn configure_ahp(
    config: &mut AppConfig,
    workspaces: &Vec<String>,
    node: &str,
    adapter_script: &str,
    code: &str,
    code_launcher: &str,
    ssh: Option<&str>,
)
    ensures
        *final(config) == (AppConfig {
            bridge: BridgeConfig {
                workspace_roots: final(config).bridge.workspace_roots,
                ..old(config).bridge
            },
            qq: QqConfig {
                approval_buttons_enabled: true,
                intents: with_buttons(old(config).qq.intents),
                ..old(config).qq
            },
            ahp: AhpConfig {
                enabled: true,
                shared_workspaces: final(config).ahp.shared_workspaces,
                adapter_auto_start: true,
                node_executable: final(config).ahp.node_executable,
                adapter_script: final(config).ahp.adapter_script,
                code_executable: final(config).ahp.code_executable,
                code_launcher: final(config).ahp.code_launcher,
                ssh_executable: final(config).ahp.ssh_executable,
                ..old(config).ahp
            },
            ..*old(config)
        }),
        views(final(config).bridge.workspace_roots@) == with_roots(
            views(old(config).bridge.workspace_roots@),
            views(workspaces@),
            views(workspaces@).len(),
        ),
        views(final(config).ahp.shared_workspaces@) == views(workspaces@),
        opt_view(final(config).ahp.node_executable) == Some(node@),
        opt_view(final(config).ahp.adapter_script) == Some(adapter_script@),
        opt_view(final(config).ahp.code_executable) == Some(code@),
        opt_view(final(config).ahp.code_launcher) == Some(code_launcher@),
        match ssh {
            Some(s) => opt_view(final(config).ahp.ssh_executable) == Some(s@),
            None => final(config).ahp.ssh_executable == old(config).ahp.ssh_executable,
        },
{
    add_roots(&mut config.bridge.workspace_roots, workspaces);
    config.ahp.enabled = true;
    config.ahp.shared_workspaces = copy_texts(workspaces);
    config.ahp.adapter_auto_start = true;
    config.ahp.node_executable = Some(node.to_owned());
    config.ahp.adapter_script = Some(adapter_script.to_owned());
    config.ahp.code_executable = Some(code.to_owned());
    config.ahp.code_launcher = Some(code_launcher.to_owned());
    if let Some(s) = ssh {
        config.ahp.ssh_executable = Some(s.to_owned());
    }
    config.qq.approval_buttons_enabled = true;
    config.qq.intents = config.qq.intents | (1u64 << 26);
}

/// Adds workspaces that sessions may be run in, and counts those that are new.
pub fn add_workspaces(config: &mut AppConfig, workspaces: &Vec<String>, disk: &Vec<Resolved>) -> (r:
    usize)
    ensures
        *final(config) == (AppConfig {
            bridge: BridgeConfig {
                workspace_roots: final(config).bridge.workspace_roots,
                ..old(config).bridge
            },
            ahp: AhpConfig {
                shared_workspaces: final(config).ahp.shared_workspaces,
                ..old(config).ahp
            },
            ..*old(config)
        }),
        views(final(config).bridge.workspace_roots@) == with_roots(
            views(old(config).bridge.workspace_roots@),
            views(workspaces@),
            views(workspaces@).len(),
        ),
        views(final(config).ahp.shared_workspaces@) == with_places(
            disk@,
            views(old(config).ahp.shared_workspaces@),
            views(workspaces@),
            views(workspaces@).len(),
        ),
        r == final(config).ahp.shared_workspaces@.len() - old(config).ahp.shared_workspaces@.len(),
{
    add_roots(&mut config.bridge.workspace_roots, workspaces);
    let before: usize = config.ahp.shared_workspaces.len();
    add_places(disk, &mut config.ahp.shared_workspaces, workspaces);
    config.ahp.shared_workspaces.len() - before
}

/// Whether sessions may be run in the workspace on this machine.
pub open spec fn is_authorized(
    disk: Seq<Resolved>,
    targets: Seq<AhpAuthorizedTarget>,
    workspace: Seq<char>,
) -> bool {
    exists|i: int|
        0 <= i < targets.len() && is_at(disk, #[trigger] targets[i], workspace)
}

/// Whether the target is the workspace on this machine.
pub open spec fn is_at(disk: Seq<Resolved>, t: AhpAuthorizedTarget, workspace: Seq<char>) -> bool {
    t matches AhpAuthorizedTarget::Local { path } && same_place(disk, path@, workspace)
}

fn target_is_at(disk: &Vec<Resolved>, t: &AhpAuthorizedTarget, workspace: &str) -> (r: bool)
    ensures
        r == is_at(disk@, *t, workspace@),
{
    match t {
        AhpAuthorizedTarget::Local { path } => paths_equal(disk, path.as_str(), workspace),
        _ => false,
    }
}

/// Whether sessions may be run in the workspace on this machine.
pub fn local_is_authorized(
    disk: &Vec<Resolved>,
    targets: &Vec<AhpAuthorizedTarget>,
    workspace: &str,
) -> (r: bool)
    ensures
        r == is_authorized(disk@, targets@, workspace@),
{
    let mut i: usize = 0;
    while i < targets.len()
        invariant
            i <= targets@.len(),
            forall|j: int| 0 <= j < i ==> !is_at(disk@, #[trigger] targets@[j], workspace@),
        decreases targets@.len() - i,
    {
        if target_is_at(disk, &targets[i], workspace) {
            return true;
        }
        i += 1;
    }
    false
}

/// What a workspace on this machine needs to be registered.
#[derive(Debug)]
pub struct LocalTools {
    pub code: String,
    pub code_launcher: String,
}

/// What a workspace on this machine needs to be registered.
pub fn local_tools(config: &AppConfig) -> (r: Result<LocalTools, Failure>)
    ensures
        if !config.ahp.enabled {
            r matches Err(f) && f.message@ == "AHP mode is not configured"@
        } else {
            match (config.ahp.code_executable, config.ahp.code_launcher) {
                (None, _) => r matches Err(f) && f.message@
                    == "ahp.code_executable is not configured"@,
                (Some(_), None) => r matches Err(f) && f.message@
                    == "ahp.code_launcher is not configured"@,
                (Some(code), Some(launcher)) => r matches Ok(t) && t.code == code
                    && t.code_launcher == launcher,
            }
        },
{
    if !config.ahp.enabled {
        return Err(failure("AHP mode is not configured"));
    }
    match (&config.ahp.code_executable, &config.ahp.code_launcher) {
        (None, _) => Err(failure("ahp.code_executable is not configured")),
        (Some(_), None) => Err(failure("ahp.code_launcher is not configured")),
        (Some(code), Some(launcher)) => Ok(
            LocalTools { code: code.clone(), code_launcher: launcher.clone() },
        ),
    }
}

/// Why a workspace cannot be registered, where the configuration has changed since
/// trust was asked for.
pub open spec fn changed_fault(config: AppConfig, database_path: Seq<char>) -> Option<Seq<char>> {
    if !config.ahp.enabled {
        Some("AHP mode was disabled while workspace trust confirmation was pending"@)
    } else if components(parse(config.bridge.database_path@)) != components(parse(database_path)) {
        Some(
            "Bridge database configuration changed while workspace trust confirmation was pending"@,
        )
    } else {
        None
    }
}

fn check_unchanged(config: &AppConfig, database_path: &str) -> (r: Result<(), Failure>)
    ensures
        match r {
            Ok(()) => changed_fault(*config, database_path@) is None,
            Err(f) => changed_fault(*config, database_path@) == Some(f.message@),
        },
{
    if !config.ahp.enabled {
        return Err(
            failure("AHP mode was disabled while workspace trust confirmation was pending"),
        );
    }
    let current = path_components(parse_path(config.bridge.database_path.as_str()));
    if !same_texts(&current, &path_components(parse_path(database_path))) {
        return Err(
            failure(
                "Bridge database configuration changed while workspace trust confirmation was pending",
            ),
        );
    }
    Ok(())
}

/// What comes of registering a workspace on this machine, once it is trusted.
pub open spec fn local_outcome(
    a: AppConfig,
    b: AppConfig,
    database_path: Seq<char>,
    workspace: Seq<char>,
    was_authorized: bool,
    disk: Seq<Resolved>,
    r: Result<(), Failure>,
) -> bool {
    match changed_fault(a, database_path) {
        Some(message) => b == a && (r matches Err(f) && f.message@ == message),
        None => if was_authorized && !is_authorized(
            disk,
            a.ahp.authorized_targets@,
            workspace,
        ) {
            b == a && (r matches Err(f) && f.message@
                == "local target authorization was revoked while workspace trust confirmation was pending"@)
        } else {
            &&& r matches Ok(())
            &&& b == (AppConfig {
                bridge: BridgeConfig { workspace_roots: b.bridge.workspace_roots, ..a.bridge },
                ahp: AhpConfig { authorized_targets: b.ahp.authorized_targets, ..a.ahp },
                ..a
            })
            &&& views(b.bridge.workspace_roots@) == with_roots(
                views(a.bridge.workspace_roots@),
                seq![workspace],
                1,
            )
            &&& if is_authorized(disk, a.ahp.authorized_targets@, workspace) {
                b.ahp.authorized_targets == a.ahp.authorized_targets
            } else {
                b.ahp.authorized_targets@ == a.ahp.authorized_targets@.push(
                    b.ahp.authorized_targets@.last(),
                ) && b.ahp.authorized_targets@.last()@ == (Target::Local { path: workspace })
            }
        },
    }
}

/// Registers a workspace on this machine, once it is trusted.
pub fn register_local_target(
    config: &mut AppConfig,
    database_path: &str,
    workspace: &str,
    was_authorized: bool,
    disk: &Vec<Resolved>,
) -> (r: Result<(), Failure>)
    ensures
        local_outcome(
            *old(config),
            *final(config),
            database_path@,
            workspace@,
            was_authorized,
            disk@,
            r,
        ),
{
    if let Err(f) = check_unchanged(config, database_path) {
        return Err(f);
    }
    let authorized = local_is_authorized(disk, &config.ahp.authorized_targets, workspace);
    if was_authorized && !authorized {
        return Err(
            failure(
                "local target authorization was revoked while workspace trust confirmation was pending",
            ),
        );
    }
    let mut one: Vec<String> = Vec::new();
    one.push(workspace.to_owned());
    assert(views(one@) =~= seq![workspace@]);
    add_roots(&mut config.bridge.workspace_roots, &one);
    if !authorized {
        config.ahp.authorized_targets.push(
            AhpAuthorizedTarget::Local { path: workspace.to_owned() },
        );
    }
    Ok(())
}

/// What a workspace on a remote host needs to be registered, and what is known of
/// the host under its alias.
#[derive(Debug)]
pub struct RemoteTools {
    pub code_launcher: String,
    pub ssh: String,
    pub known: Option<AhpAuthorizedTarget>,
}

/// Whether the target is on the host with that alias.
pub open spec fn is_aliased(t: AhpAuthorizedTarget, alias: Seq<char>) -> bool {
    t matches AhpAuthorizedTarget::Ssh { alias: a, .. } && a@ == alias
}

/// The first target on the host with that alias.
pub open spec fn first_aliased(targets: Seq<AhpAuthorizedTarget>, alias: Seq<char>) -> Option<Target>
    decreases targets.len(),
{
    if targets.len() == 0 {
        None
    } else if is_aliased(targets[0], alias) {
        Some(targets[0]@)
    } else {
        first_aliased(targets.skip(1), alias)
    }
}

/// A target, if there is one.
pub open spec fn opt_target(t: Option<AhpAuthorizedTarget>) -> Option<Target> {
    match t {
        Some(t) => Some(t@),
        None => None,
    }
}

fn find_aliased(targets: &Vec<AhpAuthorizedTarget>, alias: &str) -> (r: Option<AhpAuthorizedTarget>)
    ensures
        opt_target(r) == first_aliased(targets@, alias@),
{
    let mut i: usize = 0;
    assert(targets@.skip(0) =~= targets@);
    while i < targets.len()
        invariant
            i <= targets@.len(),
            first_aliased(targets@, alias@) == first_aliased(targets@.skip(i as int), alias@),
        decreases targets@.len() - i,
    {
        assert(targets@.skip(i as int)[0] == targets@[i as int]);
        let found = match &targets[i] {
            AhpAuthorizedTarget::Ssh { alias: a, .. } => str_eq(a.as_str(), alias),
            _ => false,
        };
        if found {
            return Some(targets[i].duplicate());
        }
        assert(targets@.skip(i as int).skip(1) =~= targets@.skip(i + 1));
        i += 1;
    }
    None
}

/// What a workspace on a remote host needs to be registered.
pub fn remote_tools(config: &AppConfig, ssh_alias: &str) -> (r: Result<RemoteTools, Failure>)
    ensures
        if !config.ahp.enabled {
            r matches Err(f) && f.message@ == "AHP mode is not configured"@
        } else {
            match (config.ahp.code_launcher, config.ahp.ssh_executable) {
                (None, _) => r matches Err(f) && f.message@
                    == "ahp.code_launcher is not configured"@,
                (Some(_), None) => r matches Err(f) && f.message@
                    == "ahp.ssh_executable is not configured"@,
                (Some(launcher), Some(ssh)) => r matches Ok(t) && t.code_launcher == launcher
                    && t.ssh == ssh && opt_target(t.known) == first_aliased(
                    config.ahp.authorized_targets@,
                    ssh_alias@,
                ),
            }
        },
{
    if !config.ahp.enabled {
        return Err(failure("AHP mode is not configured"));
    }
    match (&config.ahp.code_launcher, &config.ahp.ssh_executable) {
        (None, _) => Err(failure("ahp.code_launcher is not configured")),
        (Some(_), None) => Err(failure("ahp.ssh_executable is not configured")),
        (Some(launcher), Some(ssh)) => Ok(
            RemoteTools {
                code_launcher: launcher.clone(),
                ssh: ssh.clone(),
                known: find_aliased(&config.ahp.authorized_targets, ssh_alias),
            },
        ),
    }
}

/// The target on a remote host, unless its alias stood for another host before.
pub fn remote_target(
    known: &Option<AhpAuthorizedTarget>,
    ssh_alias: &str,
    path: &str,
    host: &SshHost,
    host_key_fingerprints: &Vec<String>,
) -> (r: Result<AhpAuthorizedTarget, Failure>)
    ensures
        match opt_target(*known) {
            Some(Target::Ssh { user: u, host: h, port: p, .. }) if u != host.user@ || h
                != host.host@ || p != host.port => r matches Err(f) && f.message@
                == "SSH Host alias identity changed; remove its existing authorized targets before registering it again"@,
            _ => r matches Ok(t) && t@ == (Target::Ssh {
                alias: ssh_alias@,
                path: path@,
                user: host.user@,
                host: host.host@,
                port: host.port,
                keys: views(host_key_fingerprints@),
            }),
        },
{
    if let Some(AhpAuthorizedTarget::Ssh { user: u, host: h, port: p, .. }) = known {
        if !str_eq(u.as_str(), host.user.as_str()) || !str_eq(h.as_str(), host.host.as_str()) || *p
            != host.port {
            return Err(
                failure(
                    "SSH Host alias identity changed; remove its existing authorized targets before registering it again",
                ),
            );
        }
    }
    Ok(
        AhpAuthorizedTarget::Ssh {
            alias: ssh_alias.to_owned(),
            path: path.to_owned(),
            user: host.user.clone(),
            host: host.host.clone(),
            port: host.port,
            host_key_fingerprints: copy_texts(host_key_fingerprints),
        },
    )
}

/// Whether the target is among those that sessions may be run in.
pub open spec fn has_target(targets: Seq<AhpAuthorizedTarget>, t: Target) -> bool {
    exists|i: int| 0 <= i < targets.len() && same_target((#[trigger] targets[i])@, t)
}

/// What comes of registering a workspace on a remote host, once it is trusted.
/// `original` is the target as it stood before.
pub open spec fn remote_outcome(
    a: AppConfig,
    b: AppConfig,
    database_path: Seq<char>,
    original: Option<Target>,
    target: Target,
    r: Result<(), Failure>,
) -> bool {
    match changed_fault(a, database_path) {
        Some(message) => b == a && (r matches Err(f) && f.message@ == message),
        None => if original matches Some(t) && !has_target(a.ahp.authorized_targets@, t) {
            b == a && (r matches Err(f) && f.message@
                == "SSH target authorization changed while workspace trust confirmation was pending"@)
        } else {
            &&& r matches Ok(())
            &&& b == (AppConfig {
                ahp: AhpConfig { authorized_targets: b.ahp.authorized_targets, ..a.ahp },
                ..a
            })
            &&& if has_target(a.ahp.authorized_targets@, target) {
                b.ahp.authorized_targets == a.ahp.authorized_targets
            } else {
                b.ahp.authorized_targets@ == a.ahp.authorized_targets@.push(
                    b.ahp.authorized_targets@.last(),
                ) && b.ahp.authorized_targets@.last()@ == target
            }
        },
    }
}

fn any_target(targets: &Vec<AhpAuthorizedTarget>, target: &AhpAuthorizedTarget) -> (r: bool)
    ensures
        r == has_target(targets@, target@),
{
    let mut i: usize = 0;
    while i < targets.len()
        invariant
            i <= targets@.len(),
            forall|j: int| 0 <= j < i ==> !same_target((#[trigger] targets@[j])@, target@),
        decreases targets@.len() - i,
    {
        if targets[i].matches(target) {
            return true;
        }
        i += 1;
    }
    false
}

/// Whether the target at that place is the first that is the same workspace.
pub open spec fn is_first_same(list: Seq<AhpAuthorizedTarget>, i: int, target: Target) -> bool {
    &&& 0 <= i < list.len()
    &&& same_target(list[i]@, target)
    &&& forall|j: int| 0 <= j < i ==> !same_target((#[trigger] list[j])@, target)
}

/// The target as it stands among those that sessions may be run in.
pub fn standing_target(config: &AppConfig, target: &AhpAuthorizedTarget) -> (r: Option<
    AhpAuthorizedTarget,
>)
    ensures
        match r {
            Some(t) => exists|i: int| #[trigger]
                is_first_same(config.ahp.authorized_targets@, i, target@)
                    && config.ahp.authorized_targets@[i]@ == t@,
            None => !has_target(config.ahp.authorized_targets@, target@),
        },
{
    let targets = &config.ahp.authorized_targets;
    let mut i: usize = 0;
    while i < targets.len()
        invariant
            *targets == config.ahp.authorized_targets,
            i <= targets@.len(),
            forall|j: int| 0 <= j < i ==> !same_target((#[trigger] targets@[j])@, target@),
        decreases targets@.len() - i,
    {
        if targets[i].matches(target) {
            let r = targets[i].duplicate();
            assert(is_first_same(config.ahp.authorized_targets@, i as int, target@));
            return Some(r);
        }
        i += 1;
    }
    None
}

/// Registers a workspace on a remote host, once it is trusted.
pub fn register_remote_target(
    config: &mut AppConfig,
    database_path: &str,
    original: &Option<AhpAuthorizedTarget>,
    target: AhpAuthorizedTarget,
) -> (r: Result<(), Failure>)
    ensures
        remote_outcome(
            *old(config),
            *final(config),
            database_path@,
            opt_target(*original),
            target@,
            r,
        ),
{
    if let Err(f) = check_unchanged(config, database_path) {
        return Err(f);
    }
    if let Some(t) = original {
        if !any_target(&config.ahp.authorized_targets, t) {
            return Err(
                failure(
                    "SSH target authorization changed while workspace trust confirmation was pending",
                ),
            );
        }
    }
    if !any_target(&config.ahp.authorized_targets, &target) {
        config.ahp.authorized_targets.push(target);
    }
    Ok(())
}

/// The condition of not being the workspace on this machine.
pub open spec fn elsewhere(disk: Seq<Resolved>, workspace: Seq<char>) -> spec_fn(
    AhpAuthorizedTarget,
) -> bool {
    |t: AhpAuthorizedTarget| !is_at(disk, t, workspace)
}

/// The condition of being another path.
pub open spec fn other_path(disk: Seq<Resolved>, workspace: Seq<char>) -> spec_fn(String) -> bool {
    |p: String| !same_place(disk, p@, workspace)
}

/// How many fewer.
pub open spec fn fewer(before: nat, after: nat) -> int {
    if before > after {
        before - after
    } else {
        0
    }
}

/// Whether `b` is `a` without the workspace on this machine.
pub open spec fn local_removed(
    a: AppConfig,
    b: AppConfig,
    workspace: Seq<char>,
    disk: Seq<Resolved>,
    r: usize,
) -> bool {
    &&& b == (AppConfig {
        ahp: AhpConfig {
            authorized_targets: b.ahp.authorized_targets,
            shared_workspaces: b.ahp.shared_workspaces,
            ..a.ahp
        },
        ..a
    })
    &&& b.ahp.authorized_targets@ == a.ahp.authorized_targets@.filter(
        elsewhere(disk, workspace),
    )
    &&& b.ahp.shared_workspaces@ == a.ahp.shared_workspaces@.filter(
        other_path(disk, workspace),
    )
    &&& r == fewer(
        a.ahp.targets_in_force().len(),
        b.ahp.targets_in_force().len(),
    )
}

/// Takes a workspace on this machine from those that sessions may be run in, and
/// counts what was taken.
pub fn remove_local_target(config: &mut AppConfig, workspace: &str, disk: &Vec<Resolved>) -> (r:
    usize)
    ensures
        local_removed(*old(config), *final(config), workspace@, disk@, r),
{
    let before: usize = count_in_force(&config.ahp);
    let keep = |t: &AhpAuthorizedTarget| -> (b: bool)
        ensures
            b == (elsewhere(disk@, workspace@))(*t),
    { !target_is_at(disk, t, workspace) };
    retain(
        &mut config.ahp.authorized_targets,
        keep,
        Ghost(elsewhere(disk@, workspace@)),
    );
    let keep = |p: &String| -> (b: bool)
        ensures
            b == (other_path(disk@, workspace@))(*p),
    { !paths_equal(disk, p.as_str(), workspace) };
    retain(
        &mut config.ahp.shared_workspaces,
        keep,
        Ghost(other_path(disk@, workspace@)),
    );
    let after: usize = count_in_force(&config.ahp);
    if before > after {
        before - after
    } else {
        0
    }
}

fn count_in_force(ahp: &AhpConfig) -> (n: usize)
    ensures
        n == ahp.targets_in_force().len(),
{
    let list = ahp.effective_authorized_targets();
    assert(targets_of(list@).len() == list@.len());
    list.len()
}

/// The condition of not being the workspace on the remote host.
pub open spec fn not_on(alias: Seq<char>, workspace: Seq<char>) -> spec_fn(
    AhpAuthorizedTarget,
) -> bool {
    |t: AhpAuthorizedTarget|
        !(t matches AhpAuthorizedTarget::Ssh { alias: a, path, .. } && a@ == alias && path@
            == workspace)
}

fn is_on(t: &AhpAuthorizedTarget, alias: &str, workspace: &str) -> (r: bool)
    ensures
        r == !(not_on(alias@, workspace@))(*t),
{
    match t {
        AhpAuthorizedTarget::Ssh { alias: a, path, .. } => str_eq(a.as_str(), alias) && str_eq(
            path.as_str(),
            workspace,
        ),
        _ => false,
    }
}

/// What comes of the wish to take away a workspace on a remote host.
pub open spec fn remote_removed(
    a: AppConfig,
    b: AppConfig,
    alias: Seq<char>,
    workspace: Seq<char>,
    r: Result<usize, Failure>,
) -> bool {
    match r {
        Err(f) => b == a && !posix_path(workspace) && f.message@
            == bad_path(),
        Ok(n) => {
            &&& posix_path(workspace)
            &&& b == (AppConfig {
                ahp: AhpConfig {
                    authorized_targets: b.ahp.authorized_targets,
                    ..a.ahp
                },
                ..a
            })
            &&& b.ahp.authorized_targets@
                == a.ahp.authorized_targets@.filter(
                not_on(alias, posix_normal(workspace)),
            )
            &&& n == fewer(
                a.ahp.authorized_targets@.len(),
                b.ahp.authorized_targets@.len(),
            )
        },
    }
}

/// Takes a workspace on a remote host from those that sessions may be run in, and
/// counts what was taken.
pub fn remove_remote_target(config: &mut AppConfig, ssh_alias: &str, workspace: &str) -> (r: Result<
    usize,
    Failure,
>)
    ensures
        remote_removed(*old(config), *final(config), ssh_alias@, workspace@, r),
{
    let path = match normalize_remote_posix_path(workspace) {
        Err(f) => {
            return Err(f);
        },
        Ok(path) => path,
    };
    let before: usize = config.ahp.authorized_targets.len();
    let wanted = path.as_str();
    let keep = |t: &AhpAuthorizedTarget| -> (b: bool)
        ensures
            b == (not_on(ssh_alias@, wanted@))(*t),
    { !is_on(t, ssh_alias, wanted) };
    retain(
        &mut config.ahp.authorized_targets,
        keep,
        Ghost(not_on(ssh_alias@, wanted@)),
    );
    let after: usize = config.ahp.authorized_targets.len();
    if before > after {
        Ok(before - after)
    } else {
        Ok(0)
    }
}

/// The ways in which the bridge can be used.
#[derive(Clone, Copy, Debug, PartialEq, Eq, Structural)]
pub enum IntegrationMode {
    Ahp,
    Legacy,
}

/// Sets the way in which the bridge is used.
pub fn set_mode(config: &mut AppConfig, mode: IntegrationMode)
    ensures
        *final(config) == (AppConfig {
            ahp: AhpConfig { enabled: mode == IntegrationMode::Ahp, ..old(config).ahp },
            ..*old(config)
        }),
{
    config.ahp.enabled = mode == IntegrationMode::Ahp;
}

/// What to do while trust in a workspace is waited for.
#[derive(Clone, Copy, Debug, PartialEq, Eq, Structural)]
pub enum TrustStep {
    /// The workspace is trusted.
    Trusted,
    /// The request is gone.
    Expired,
    /// The request was waited for long enough, and is taken back.
    TimedOut,
    /// Look again later.
    Wait,
}

/// What to do while trust in a workspace is waited for.
pub fn trust_step(request: &Option<AhpTrustRequestRecord>, deadline_passed: bool) -> (r: TrustStep)
    ensures
        r == (match *request {
            None => TrustStep::Expired,
            Some(t) => if t.trusted {
                TrustStep::Trusted
            } else if deadline_passed {
                TrustStep::TimedOut
            } else {
                TrustStep::Wait
            },
        }),
{
    match request {
        None => TrustStep::Expired,
        Some(t) => if t.trusted {
            TrustStep::Trusted
        } else if deadline_passed {
            TrustStep::TimedOut
        } else {
            TrustStep::Wait
        },
    }
}

/// The text that a shell reads from a word that is made of quoted pieces and of
/// characters behind a backslash; nothing where the word is made of anything else.
/// `inside` says whether a quoted piece is open.
pub open spec fn shell_reads(s: Seq<char>, inside: bool) -> Option<Seq<char>>
    decreases s.len(),
{
    if s.len() == 0 {
        if inside {
            None
        } else {
            Some(s)
        }
    } else if s[0] == '\'' {
        shell_reads(s.skip(1), !inside)
    } else if inside {
        match shell_reads(s.skip(1), true) {
            Some(t) => Some(seq![s[0]] + t),
            None => None,
        }
    } else if s[0] == '\\' && s.len() > 1 {
        match shell_reads(s.skip(2), false) {
            Some(t) => Some(seq![s[1]] + t),
            None => None,
        }
    } else {
        None
    }
}

proof fn lemma_shell_reads_escaped(a: Seq<char>, rest: Seq<char>)
    ensures
        shell_reads(escaped(a) + rest, true) == (match shell_reads(rest, true) {
            Some(t) => Some(a + t),
            None => None,
        }),
    decreases a.len(),
{
    if a.len() == 0 {
        assert(escaped(a) + rest =~= rest);
        if let Some(t) = shell_reads(rest, true) {
            assert(a + t =~= t);
        }
    } else {
        let front = a.drop_last();
        let c = a.last();
        if c == '\'' {
            let q = "'\\''"@;
            reveal_strlit("'\\''");
            assert(q =~= seq!['\'', '\\', '\'', '\'']);
            let more = q + rest;
            assert(escaped(a) + rest =~= escaped(front) + more);
            lemma_shell_reads_escaped(front, more);
            let s1 = more.skip(1);
            assert(s1 =~= seq!['\\', '\'', '\''] + rest);
            let s2 = s1.skip(2);
            assert(s2 =~= seq!['\''] + rest);
            assert(s2.skip(1) =~= rest);
            assert(shell_reads(s2, false) == shell_reads(rest, true));
            assert(shell_reads(s1, false) == (match shell_reads(rest, true) {
                Some(t) => Some(seq!['\''] + t),
                None => None,
            }));
            assert(shell_reads(more, true) == shell_reads(s1, false));
        } else {
            let more = seq![c] + rest;
            assert(escaped(a) + rest =~= escaped(front) + more);
            lemma_shell_reads_escaped(front, more);
            assert(more.skip(1) =~= rest);
        }
        if let Some(t) = shell_reads(rest, true) {
            assert(front + (seq![c] + t) =~= a + t);
        }
    }
}

/// A shell reads from a quoted text that text again, whatever characters it holds.
pub proof fn shells_read_quoted_words(s: Seq<char>)
    ensures
        shell_reads(quoted_word(s), false) == Some(s),
{
    let q = "'"@;
    reveal_strlit("'");
    assert(q =~= seq!['\'']);
    lemma_shell_reads_escaped(s, q);
    assert(quoted_word(s).skip(1) =~= escaped(s) + q);
    assert(q.skip(1) =~= Seq::empty());
    assert(shell_reads(q.skip(1), false) == Some(q.skip(1)));
    assert(shell_reads(q, true) == Some(q.skip(1)));
    assert(s + q.skip(1) =~= s);
}

/// Whether the text can be one name in a path.
spec fn is_name(n: Seq<char>) -> bool {
    forall|i: int| 0 <= i < n.len() ==> #[trigger] n[i] != '/' && !is_control(n[i])
}

/// Whether the names stand for themselves in a path.
spec fn are_plain(names: Seq<Seq<char>>) -> bool {
    forall|i: int|
        0 <= i < names.len() ==> is_name(#[trigger] names[i]) && names[i].len() > 0 && names[i]
            != "."@ && names[i] != ".."@
}

proof fn lemma_split_names(s: Seq<char>)
    requires
        forall|i: int| 0 <= i < s.len() ==> !is_control(#[trigger] s[i]),
    ensures
        split(s, Separator::Slash).len() > 0,
        forall|i: int|
            0 <= i < split(s, Separator::Slash).len() ==> is_name(
                #[trigger] split(s, Separator::Slash)[i],
            ),
    decreases s.len(),
{
    if s.len() > 0 {
        let front = s.drop_last();
        assert forall|i: int| 0 <= i < front.len() implies !is_control(#[trigger] front[i]) by {
            assert(front[i] == s[i]);
        }
        lemma_split_names(front);
        let before = split(front, Separator::Slash);
        assert(is_name(before[before.len() - 1]));
        assert(!is_control(s[s.len() - 1]));
    }
}

proof fn lemma_followed_names(parts: Seq<Seq<char>>)
    requires
        forall|i: int| 0 <= i < parts.len() ==> is_name(#[trigger] parts[i]),
    ensures
        are_plain(followed_names(parts)),
    decreases parts.len(),
{
    if parts.len() > 0 {
        let front = parts.drop_last();
        assert forall|i: int| 0 <= i < front.len() implies is_name(#[trigger] front[i]) by {
            assert(front[i] == parts[i]);
        }
        lemma_followed_names(front);
        assert(is_name(parts[parts.len() - 1]));
    }
}

proof fn lemma_split_joined(s: Seq<char>, t: Seq<char>)
    requires
        is_name(t),
    ensures
        split(s + t, Separator::Slash) == split(s, Separator::Slash).drop_last().push(
            split(s, Separator::Slash).last() + t,
        ),
    decreases t.len(),
{
    lemma_split_nonempty(s, Separator::Slash);
    let before = split(s, Separator::Slash);
    if t.len() == 0 {
        assert(s + t =~= s);
        assert(before.last() + t =~= before.last());
        assert(before.drop_last().push(before.last()) =~= before);
    } else {
        let front = t.drop_last();
        assert forall|i: int| 0 <= i < front.len() implies #[trigger] front[i] != '/'
            && !is_control(front[i]) by {
            assert(front[i] == t[i]);
        }
        lemma_split_joined(s, front);
        assert((s + t).drop_last() =~= s + front);
        assert((s + t).last() == t[t.len() - 1]);
        let x = before.drop_last().push(before.last() + front);
        assert(x.drop_last() =~= before.drop_last());
        assert((before.last() + front).push(t.last()) =~= before.last() + t);
    }
}

proof fn lemma_split_path(names: Seq<Seq<char>>)
    requires
        are_plain(names),
    ensures
        split("/"@ + join(names, "/"@), Separator::Slash) == (if names.len() == 0 {
            seq![Seq::<char>::empty(), Seq::<char>::empty()]
        } else {
            seq![Seq::<char>::empty()] + names
        }),
    decreases names.len(),
{
    reveal_strlit("/");
    let slash = "/"@;
    assert(slash =~= seq!['/']);
    let none = Seq::<char>::empty();
    assert(slash.drop_last() =~= none);
    assert(split(none, Separator::Slash) =~= seq![none]);
    assert(split(slash, Separator::Slash) =~= seq![none, none]);
    if names.len() == 0 {
        assert(slash + join(names, slash) =~= slash);
    } else if names.len() == 1 {
        assert(is_name(names[0]));
        lemma_split_joined(slash, names[0]);
        assert(none + names[0] =~= names[0]);
        assert(seq![none, none].drop_last().push(names[0]) =~= seq![none] + names);
    } else {
        let front = names.drop_last();
        assert forall|i: int| 0 <= i < front.len() implies is_name(#[trigger] front[i])
            && front[i].len() > 0 && front[i] != "."@ && front[i] != ".."@ by {
            assert(front[i] == names[i]);
        }
        lemma_split_path(front);
        let s = slash + join(front, slash);
        let with = s + slash;
        assert(with.drop_last() =~= s);
        assert(split(with, Separator::Slash) == split(s, Separator::Slash).push(none));
        assert(is_name(names[names.len() - 1]));
        lemma_split_joined(with, names.last());
        assert(slash + join(names, slash) =~= with + names.last());
        assert(none + names.last() =~= names.last());
        let x = split(with, Separator::Slash);
        assert(x.drop_last() =~= seq![none] + front);
        assert((seq![none] + front).push(names.last()) =~= seq![none] + names);
    }
}

proof fn lemma_plain_names_stay(names: Seq<Seq<char>>)
    requires
        are_plain(names),
    ensures
        followed_names(seq![Seq::<char>::empty()] + names) == names,
    decreases names.len(),
{
    let all = seq![Seq::<char>::empty()] + names;
    if names.len() == 0 {
        assert(all.drop_last() =~= Seq::<Seq<char>>::empty());
        assert(followed_names(all.drop_last()) =~= names);
    } else {
        let front = names.drop_last();
        assert forall|i: int| 0 <= i < front.len() implies is_name(#[trigger] front[i])
            && front[i].len() > 0 && front[i] != "."@ && front[i] != ".."@ by {
            assert(front[i] == names[i]);
        }
        lemma_plain_names_stay(front);
        assert(all.drop_last() =~= seq![Seq::<char>::empty()] + front);
        assert(all.last() == names[names.len() - 1]);
        assert(front.push(names.last()) =~= names);
    }
}

proof fn lemma_joined_chars(names: Seq<Seq<char>>, i: int)
    requires
        are_plain(names),
        0 <= i < join(names, "/"@).len(),
    ensures
        !is_control(join(names, "/"@)[i]),
    decreases names.len(),
{
    reveal_strlit("/");
    if names.len() == 1 {
        assert(is_name(names[0]));
    } else if names.len() > 1 {
        let front = names.drop_last();
        assert forall|k: int| 0 <= k < front.len() implies is_name(#[trigger] front[k])
            && front[k].len() > 0 && front[k] != "."@ && front[k] != ".."@ by {
            assert(front[k] == names[k]);
        }
        let n = join(front, "/"@).len();
        if i < n {
            lemma_joined_chars(front, i);
        } else if i > n {
            assert(is_name(names[names.len() - 1]));
            assert(join(names, "/"@)[i] == names.last()[i - n - 1]);
        }
    }
}

/// A path on a remote host whose `.` and `..` were followed is a path of its own,
/// which following them again leaves as it is: a workspace is found again under the
/// path that it was registered with.
pub proof fn followed_paths_stay(path: Seq<char>)
    requires
        posix_path(path),
    ensures
        posix_path(posix_normal(path)),
        posix_normal(posix_normal(path)) == posix_normal(path),
{
    let parts = split(path, Separator::Slash);
    let names = followed_names(parts);
    lemma_split_names(path);
    lemma_followed_names(parts);
    lemma_split_path(names);
    lemma_plain_names_stay(names);
    let n = posix_normal(path);
    reveal_strlit("/");
    assert(n[0] == '/');
    assert forall|i: int| 0 <= i < n.len() implies !is_control(#[trigger] n[i]) by {
        if i > 0 {
            lemma_joined_chars(names, i - 1);
            assert(n[i] == join(names, "/"@)[i - 1]);
        }
    }
    if names.len() == 0 {
        let none = Seq::<char>::empty();
        let two = seq![none, none];
        assert(two.drop_last() =~= seq![none] + names);
        assert(followed_names(two) == followed_names(two.drop_last()));
    }
}

/// A workspace that was taken away is no longer one that sessions may be run in.
pub proof fn removed_targets_are_revoked(
    targets: Seq<AhpAuthorizedTarget>,
    disk: Seq<Resolved>,
    workspace: Seq<char>,
)
    ensures
        !is_authorized(disk, targets.filter(elsewhere(disk, workspace)), workspace),
{
    let kept = targets.filter(elsewhere(disk, workspace));
    assert forall|i: int| 0 <= i < kept.len() implies !is_at(disk, #[trigger] kept[i], workspace) by {
        targets.lemma_filter_pred(elsewhere(disk, workspace), i);
    }
}

/// In a list of workspaces that was made distinct none leads where an earlier one
/// does.
pub proof fn distinct_places_differ(
    disk: Seq<Resolved>,
    more: Seq<Seq<char>>,
    n: nat,
    i: int,
    j: int,
)
    requires
        n <= more.len(),
        0 <= i < j < with_places(disk, Seq::empty(), more, n).len(),
    ensures
        !same_place(
            disk,
            with_places(disk, Seq::empty(), more, n)[i],
            with_places(disk, Seq::empty(), more, n)[j],
        ),
    decreases n,
{
    if n > 0 {
        let before = with_places(disk, Seq::empty(), more, (n - 1) as nat);
        if j < before.len() {
            distinct_places_differ(disk, more, (n - 1) as nat, i, j);
        } else {
            assert(!is_placed(disk, before, more[n - 1]));
            assert(!same_place(disk, before[i], more[n - 1]));
        }
    }
}

} // verus!
